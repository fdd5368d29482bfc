//! The message bus: subscriptions with a per-topic cache of delivery lists,
//! addressed endpoints and one-shot response handlers keyed by correlation id.
use vstd::prelude::*;
use vstd::string::StringSliceAdditionalSpecFns;

use crate::handler::{MessageHandler, ShareableMessageHandler};
use crate::correctness::CorrectnessError;
use crate::identifiers::{is_fully_qualified, Endpoint, MStr, Pattern, Topic};
use crate::matching::{is_matching, wildcard_match};
use crate::model::TraderId;
use crate::subscription::{
    insert_sorted, lemma_sub_lt_strict_total, position_of, same_key, strictly_sorted, sub_lt, views,
    Subscription, SubscriptionView,
};
use crate::uuid4::UUID4;

verus! {

/// Some subscription in `subs` is the same subscription as `v`.
pub open spec fn has_key(subs: Seq<SubscriptionView>, v: SubscriptionView) -> bool {
    exists|k: int| 0 <= k < subs.len() && same_key(#[trigger] subs[k], v)
}

/// No two subscriptions in `subs` are the same subscription.
pub open spec fn unique_keys(subs: Seq<SubscriptionView>) -> bool {
    forall|i: int, j: int| 0 <= i < j < subs.len() ==> !same_key(#[trigger] subs[i], #[trigger] subs[j])
}

/// `list` holds exactly the subscriptions of `subs` whose pattern matches
/// `topic`, in delivery order.
pub open spec fn is_delivery_list(
    list: Seq<SubscriptionView>,
    subs: Seq<SubscriptionView>,
    topic: Seq<u8>,
) -> bool {
    &&& strictly_sorted(list)
    &&& forall|x: SubscriptionView|
        #[trigger] list.contains(x) <==> subs.contains(x) && wildcard_match(topic, x.pattern)
}

/// The number of subscriptions in `subs` whose pattern matches `topic`.
pub open spec fn count_matching(subs: Seq<SubscriptionView>, topic: Seq<u8>) -> nat
    decreases subs.len(),
{
    if subs.len() == 0 {
        0
    } else {
        count_matching(subs.drop_last(), topic) + if wildcard_match(topic, subs.last().pattern) {
            1nat
        } else {
            0
        }
    }
}

/// What `subscribe` does to the subscriptions: nothing if the same
/// subscription is there already, else it adds `v`.
pub open spec fn subscribe_effect(
    before: Seq<SubscriptionView>,
    after: Seq<SubscriptionView>,
    v: SubscriptionView,
) -> bool {
    if has_key(before, v) {
        after == before
    } else {
        after == before.push(v)
    }
}

/// What `unsubscribe` does to the subscriptions: it removes the one that is
/// the same subscription as `v`, if there is one.
pub open spec fn unsubscribe_effect(
    before: Seq<SubscriptionView>,
    after: Seq<SubscriptionView>,
    v: SubscriptionView,
) -> bool {
    if has_key(before, v) {
        exists|k: int| 0 <= k < before.len() && same_key(before[k], v) && after == before.remove(k)
    } else {
        after == before
    }
}

/// The delivery list cached for one topic.
pub struct TopicEntry<H> {
    pub topic: MStr<Topic>,
    pub subs: Vec<Subscription<H>>,
}

/// The handler registered under one endpoint.
pub struct EndpointEntry<H> {
    pub endpoint: MStr<Endpoint>,
    pub handler: ShareableMessageHandler<H>,
}

/// The handler waiting for the response to one request.
pub struct ResponseEntry<H> {
    pub correlation_id: UUID4,
    pub handler: ShareableMessageHandler<H>,
}

/// The errors the bus reports.
#[derive(Clone, Copy, Debug, PartialEq, Eq, Structural)]
pub enum BusError {
    /// A response handler is already registered under the correlation id.
    DuplicateCorrelationId,
}

pub struct MessageBus<H> {
    pub(crate) trader_id: TraderId,
    pub(crate) instance_id: UUID4,
    pub(crate) name: String,
    pub(crate) has_backing: bool,
    pub(crate) subscriptions: Vec<Subscription<H>>,
    pub(crate) topics: Vec<TopicEntry<H>>,
    pub(crate) endpoints: Vec<EndpointEntry<H>>,
    pub(crate) correlation_index: Vec<ResponseEntry<H>>,
}

impl<H> MessageBus<H> {
    pub open(crate) spec fn spec_trader_id(&self) -> TraderId {
        self.trader_id
    }

    pub open(crate) spec fn spec_instance_id(&self) -> UUID4 {
        self.instance_id
    }

    pub open(crate) spec fn spec_has_backing(&self) -> bool {
        self.has_backing
    }

    pub open(crate) spec fn spec_name(&self) -> Seq<char> {
        self.name@
    }

    pub fn trader_id(&self) -> (r: TraderId)
        ensures
            r == self.spec_trader_id(),
    {
        self.trader_id
    }

    pub fn instance_id(&self) -> (r: UUID4)
        ensures
            r == self.spec_instance_id(),
    {
        self.instance_id
    }

    pub fn name(&self) -> (r: &str)
        ensures
            r@ == self.spec_name(),
    {
        self.name.as_str()
    }

    /// Whether the bus is backed by persistent storage; it never is yet.
    pub fn has_backing(&self) -> (r: bool)
        ensures
            r == self.spec_has_backing(),
    {
        self.has_backing
    }

    /// The subscriptions, in the order they were made.
    pub open(crate) spec fn subscription_views(&self) -> Seq<SubscriptionView> {
        views(self.subscriptions@)
    }

    /// The topics whose delivery lists are cached.
    pub open(crate) spec fn cached_topics(&self) -> Seq<Seq<u8>> {
        self.topics@.map_values(|e: TopicEntry<H>| e.topic@)
    }

    /// The cached delivery list at position `i`.
    pub open(crate) spec fn cached_list(&self, i: int) -> Seq<SubscriptionView> {
        views(self.topics@[i].subs@)
    }

    /// Endpoints and their handler identifiers, in order of first registration.
    pub open(crate) spec fn endpoint_views(&self) -> Seq<(Seq<u8>, Seq<u8>)> {
        self.endpoints@.map_values(|e: EndpointEntry<H>| (e.endpoint@, e.handler.spec_id()))
    }

    /// Correlation ids and the identifiers of their pending handlers.
    pub open(crate) spec fn response_views(&self) -> Seq<(Seq<u8>, Seq<u8>)> {
        self.correlation_index@.map_values(|e: ResponseEntry<H>| (e.correlation_id@, e.handler.spec_id()))
    }

    /// Keys are unique, and every cached list is the delivery list of its
    /// topic over the current subscriptions.
    pub open(crate) spec fn wf(&self) -> bool {
        &&& unique_keys(self.subscription_views())
        &&& forall|i: int, j: int|
            0 <= i < j < self.topics@.len() ==> #[trigger] self.topics@[i].topic@
                != #[trigger] self.topics@[j].topic@
        &&& forall|i: int|
            0 <= i < self.topics@.len() ==> is_delivery_list(
                #[trigger] self.cached_list(i),
                self.subscription_views(),
                self.topics@[i].topic@,
            )
        &&& forall|i: int, j: int|
            0 <= i < j < self.endpoints@.len() ==> #[trigger] self.endpoints@[i].endpoint@
                != #[trigger] self.endpoints@[j].endpoint@
        &&& forall|i: int, j: int|
            0 <= i < j < self.correlation_index@.len()
                ==> #[trigger] self.correlation_index@[i].correlation_id@
                != #[trigger] self.correlation_index@[j].correlation_id@
    }

    /// An empty bus owned by `trader_id`, named `name` or `MessageBus`.
    pub fn new(trader_id: TraderId, instance_id: UUID4, name: Option<&str>) -> (r: Self)
        ensures
            r.wf(),
            r.subscription_views().len() == 0,
            r.cached_topics().len() == 0,
            r.endpoint_views().len() == 0,
            r.response_views().len() == 0,
            r.spec_trader_id() == trader_id,
            r.spec_instance_id() == instance_id,
            name is Some ==> r.spec_name() == name->Some_0@,
    {
        let n = match name {
            Some(s) => s.to_owned(),
            None => "MessageBus".to_owned(),
        };
        MessageBus {
            trader_id,
            instance_id,
            name: n,
            has_backing: false,
            subscriptions: Vec::new(),
            topics: Vec::new(),
            endpoints: Vec::new(),
            correlation_index: Vec::new(),
        }
    }
}

proof fn lemma_views_insert<H>(s: Seq<Subscription<H>>, k: int, x: Subscription<H>)
    requires
        0 <= k <= s.len(),
    ensures
        views(s.insert(k, x)) =~= views(s).insert(k, x@),
{
}

proof fn lemma_views_push<H>(s: Seq<Subscription<H>>, x: Subscription<H>)
    ensures
        views(s.push(x)) =~= views(s).push(x@),
{
}

proof fn lemma_seq_insert_contains<A>(s: Seq<A>, k: int, x: A, y: A)
    requires
        0 <= k <= s.len(),
    ensures
        s.insert(k, x).contains(y) <==> s.contains(y) || y == x,
{
    let t = s.insert(k, x);
    if s.contains(y) {
        let i = choose|i: int| 0 <= i < s.len() && s[i] == y;
        if i < k {
            assert(t[i] == y);
        } else {
            assert(t[i + 1] == y);
        }
    }
    if y == x {
        assert(t[k] == y);
    }
    if t.contains(y) {
        let i = choose|i: int| 0 <= i < t.len() && t[i] == y;
        if i < k {
            assert(s[i] == y);
        } else if i > k {
            assert(s[i - 1] == y);
        }
    }
}

proof fn lemma_seq_push_contains<A>(s: Seq<A>, x: A, y: A)
    ensures
        s.push(x).contains(y) <==> s.contains(y) || y == x,
{
    lemma_seq_insert_contains(s, s.len() as int, x, y);
    assert(s.insert(s.len() as int, x) =~= s.push(x));
}

/// Subscribes `handler` to `pattern` with `priority` (0 when none is given).
/// Subscribing the same handler to the same pattern again changes nothing.
/// Every cached topic that the pattern matches gets the new subscription in
/// its delivery list.
pub fn subscribe<H: Clone>(
    bus: &mut MessageBus<H>,
    pattern: MStr<Pattern>,
    handler: ShareableMessageHandler<H>,
    priority: Option<u8>,
)
    requires
        old(bus).wf(),
    ensures
        final(bus).wf(),
        subscribe_effect(
            old(bus).subscription_views(),
            final(bus).subscription_views(),
            SubscriptionView {
                priority: match priority {
                    Some(p) => p,
                    None => 0,
                },
                pattern: pattern@,
                handler_id: handler.spec_id(),
            },
        ),
        final(bus).cached_topics() == old(bus).cached_topics(),
        final(bus).endpoint_views() == old(bus).endpoint_views(),
        final(bus).response_views() == old(bus).response_views(),
{
    let sub = Subscription::new(pattern, handler, priority);
    let ghost v = sub@;
    match position_of(&bus.subscriptions, &sub) {
        Some(k) => {
            proof {
                assert(same_key(bus.subscription_views()[k as int], v));
            }
            return ;
        },
        None => {},
    }
    let ghost old_subs = bus.subscription_views();
    let ghost new_subs = old_subs.push(v);
    let ghost old_topics = bus.topics@;
    proof {
        assert forall|k: int| 0 <= k < old_subs.len() implies !same_key(#[trigger] old_subs[k], v) by {
            assert(old_subs[k] == bus.subscriptions@[k]@);
        }
        assert(!old_subs.contains(v)) by {
            if old_subs.contains(v) {
                let k = choose|k: int| 0 <= k < old_subs.len() && old_subs[k] == v;
                assert(same_key(old_subs[k], v));
            }
        }
    }
    let n = bus.topics.len();
    let mut i: usize = 0;
    while i < n
        invariant
            n == bus.topics@.len(),
            n == old_topics.len(),
            i <= n,
            bus.subscription_views() == old_subs,
            bus.endpoints == old(bus).endpoints,
            bus.correlation_index == old(bus).correlation_index,
            bus.subscriptions == old(bus).subscriptions,
            new_subs == old_subs.push(v),
            !old_subs.contains(v),
            v == sub@,
            old_topics == old(bus).topics@,
            old(bus).wf(),
            forall|j: int| 0 <= j < n ==> (#[trigger] bus.topics@[j]).topic == old_topics[j].topic,
            forall|j: int| i <= j < n ==> #[trigger] bus.topics@[j] == old_topics[j],
            forall|j: int|
                0 <= j < i ==> is_delivery_list(
                    views((#[trigger] bus.topics@[j]).subs@),
                    new_subs,
                    bus.topics@[j].topic@,
                ),
        decreases n - i,
    {
        let ghost before = bus.topics@[i as int].subs@;
        let ghost pre = bus.topics@;
        proof {
            assert(old(bus).cached_list(i as int) == views(before));
            assert(is_delivery_list(views(before), old_subs, old_topics[i as int].topic@));
        }
        if is_matching(bus.topics[i].topic.as_bytes(), sub.pattern.as_bytes()) {
            let c = sub.clone();
            proof {
                if views(before).contains(v) {
                    assert(old_subs.contains(v));
                }
            }
            insert_sorted(&mut bus.topics[i].subs, c);
            proof {
                let after = bus.topics@[i as int].subs@;
                let k = choose|k: int| 0 <= k <= before.len() && after == before.insert(k, c);
                lemma_views_insert(before, k, c);
                assert(bus.topics@[i as int].topic == old_topics[i as int].topic);
                assert(strictly_sorted(bus.cached_list(i as int)));
                assert forall|x: SubscriptionView| #[trigger] views(after).contains(x) <==> new_subs.contains(x)
                    && wildcard_match(bus.topics@[i as int].topic@, x.pattern) by {
                    lemma_seq_insert_contains(views(before), k, v, x);
                    lemma_seq_push_contains(old_subs, v, x);
                }
            }
        } else {
            proof {
                assert forall|x: SubscriptionView| #[trigger] views(before).contains(x) <==> new_subs.contains(x)
                    && wildcard_match(bus.topics@[i as int].topic@, x.pattern) by {
                    lemma_seq_push_contains(old_subs, v, x);
                }
            }
        }
        proof {
            assert(is_delivery_list(bus.cached_list(i as int), new_subs, bus.topics@[i as int].topic@));
            assert forall|j: int| 0 <= j < n && j != i implies #[trigger] bus.topics@[j] == pre[j] by {}
            assert forall|j: int| 0 <= j <= i implies is_delivery_list(
                views((#[trigger] bus.topics@[j]).subs@),
                new_subs,
                bus.topics@[j].topic@,
            ) by {
                if j < i {
                    assert(bus.topics@[j] == pre[j]);
                    assert(is_delivery_list(views(pre[j].subs@), new_subs, pre[j].topic@));
                } else {
                    assert(bus.cached_list(j) == views(bus.topics@[j].subs@));
                }
            }
        }
        i += 1;
    }
    let ghost looped = bus.topics@;
    proof {
        assert forall|j: int| 0 <= j < n implies is_delivery_list(
            views(#[trigger] looped[j].subs@),
            new_subs,
            looped[j].topic@,
        ) by {
            assert(looped[j] == bus.topics@[j]);
        }
    }
    bus.subscriptions.push(sub);
    proof {
        lemma_views_push(old(bus).subscriptions@, sub);
        assert(bus.subscription_views() == new_subs);
        assert forall|a: int, b: int| 0 <= a < b < new_subs.len() implies !same_key(
            #[trigger] new_subs[a],
            #[trigger] new_subs[b],
        ) by {
            if b == old_subs.len() {
                assert(old_subs[a] == old(bus).subscriptions@[a]@);
            }
        }
        assert forall|j: int| 0 <= j < bus.topics@.len() implies is_delivery_list(
            #[trigger] bus.cached_list(j),
            bus.subscription_views(),
            bus.topics@[j].topic@,
        ) by {
            assert(bus.topics@[j] == looped[j]);
        }
        assert forall|a: int, b: int| 0 <= a < b < bus.topics@.len() implies #[trigger] bus.topics@[a].topic@
            != #[trigger] bus.topics@[b].topic@ by {
            assert(old_topics[a].topic@ != old_topics[b].topic@);
        }
        assert(bus.cached_topics() =~= old(bus).cached_topics());
        assert(bus.endpoint_views() =~= old(bus).endpoint_views());
        assert(bus.response_views() =~= old(bus).response_views());
    }
}

proof fn lemma_views_remove<H>(s: Seq<Subscription<H>>, k: int)
    requires
        0 <= k < s.len(),
    ensures
        views(s.remove(k)) =~= views(s).remove(k),
{
}

proof fn lemma_sorted_remove(s: Seq<SubscriptionView>, k: int)
    requires
        0 <= k < s.len(),
        strictly_sorted(s),
    ensures
        strictly_sorted(s.remove(k)),
{
    let t = s.remove(k);
    assert forall|i: int, j: int| 0 <= i < j < t.len() implies sub_lt(#[trigger] t[i], #[trigger] t[j]) by {
        let a = if i < k { i } else { i + 1 };
        let b = if j < k { j } else { j + 1 };
        assert(t[i] == s[a]);
        assert(t[j] == s[b]);
    }
}

/// In a sequence whose elements are pairwise different, removing position `k`
/// removes exactly the element there.
proof fn lemma_remove_distinct_contains(s: Seq<SubscriptionView>, k: int, y: SubscriptionView)
    requires
        0 <= k < s.len(),
        forall|i: int, j: int| 0 <= i < j < s.len() ==> s[i] != s[j],
    ensures
        s.remove(k).contains(y) <==> s.contains(y) && y != s[k],
{
    let t = s.remove(k);
    if t.contains(y) {
        let i = choose|i: int| 0 <= i < t.len() && t[i] == y;
        if i < k {
            assert(s[i] == y);
        } else {
            assert(s[i + 1] == y);
        }
    }
    if s.contains(y) && y != s[k] {
        let i = choose|i: int| 0 <= i < s.len() && s[i] == y;
        if i < k {
            assert(t[i] == y);
        } else {
            assert(t[i - 1] == y);
        }
    }
}

proof fn lemma_sorted_distinct(s: Seq<SubscriptionView>)
    requires
        strictly_sorted(s),
    ensures
        forall|i: int, j: int| 0 <= i < j < s.len() ==> s[i] != s[j],
{
    assert forall|i: int, j: int| 0 <= i < j < s.len() implies s[i] != s[j] by {
        lemma_sub_lt_strict_total(s[i], s[j], s[j]);
        assert(sub_lt(s[i], s[j]));
    }
}

proof fn lemma_unique_keys_distinct(s: Seq<SubscriptionView>)
    requires
        unique_keys(s),
    ensures
        forall|i: int, j: int| 0 <= i < j < s.len() ==> s[i] != s[j],
{
    assert forall|i: int, j: int| 0 <= i < j < s.len() implies s[i] != s[j] by {
        assert(!same_key(s[i], s[j]));
    }
}

/// Removes the subscription of `handler` to `pattern`, from the subscriptions
/// and from every cached delivery list, so no later publish reaches it.
pub fn unsubscribe<H>(bus: &mut MessageBus<H>, pattern: MStr<Pattern>, handler: ShareableMessageHandler<H>)
    requires
        old(bus).wf(),
    ensures
        final(bus).wf(),
        unsubscribe_effect(
            old(bus).subscription_views(),
            final(bus).subscription_views(),
            SubscriptionView { priority: 0, pattern: pattern@, handler_id: handler.spec_id() },
        ),
        final(bus).cached_topics() == old(bus).cached_topics(),
        final(bus).endpoint_views() == old(bus).endpoint_views(),
        final(bus).response_views() == old(bus).response_views(),
{
    let key = Subscription::new(pattern, handler, None);
    let ghost v = key@;
    let k0 = match position_of(&bus.subscriptions, &key) {
        Some(k) => k,
        None => {
            proof {
                assert forall|k: int| 0 <= k < bus.subscription_views().len() implies !same_key(
                    #[trigger] bus.subscription_views()[k],
                    v,
                ) by {
                    assert(bus.subscription_views()[k] == bus.subscriptions@[k]@);
                }
            }
            return ;
        },
    };
    let ghost old_subs = bus.subscription_views();
    let ghost w = old_subs[k0 as int];
    let ghost new_subs = old_subs.remove(k0 as int);
    let ghost old_topics = bus.topics@;
    proof {
        assert(w == bus.subscriptions@[k0 as int]@);
        lemma_unique_keys_distinct(old_subs);
        assert forall|x: SubscriptionView| #[trigger] old_subs.contains(x) && same_key(x, v) implies x == w by {
            let i = choose|i: int| 0 <= i < old_subs.len() && old_subs[i] == x;
            if i != k0 {
                if i < k0 {
                    assert(!same_key(old_subs[i], old_subs[k0 as int]));
                } else {
                    assert(!same_key(old_subs[k0 as int], old_subs[i]));
                }
            }
        }
    }
    let n = bus.topics.len();
    let mut i: usize = 0;
    while i < n
        invariant
            n == bus.topics@.len(),
            n == old_topics.len(),
            i <= n,
            bus.subscriptions == old(bus).subscriptions,
            bus.endpoints == old(bus).endpoints,
            bus.correlation_index == old(bus).correlation_index,
            old_subs == old(bus).subscription_views(),
            k0 < old_subs.len(),
            w == old_subs[k0 as int],
            same_key(w, v),
            v == key@,
            new_subs == old_subs.remove(k0 as int),
            forall|x: SubscriptionView| #[trigger] old_subs.contains(x) && same_key(x, v) ==> x == w,
            forall|a: int, b: int| 0 <= a < b < old_subs.len() ==> old_subs[a] != old_subs[b],
            old_topics == old(bus).topics@,
            old(bus).wf(),
            forall|j: int| 0 <= j < n ==> (#[trigger] bus.topics@[j]).topic == old_topics[j].topic,
            forall|j: int| i <= j < n ==> #[trigger] bus.topics@[j] == old_topics[j],
            forall|j: int|
                0 <= j < i ==> is_delivery_list(
                    views((#[trigger] bus.topics@[j]).subs@),
                    new_subs,
                    bus.topics@[j].topic@,
                ),
        decreases n - i,
    {
        let ghost before = bus.topics@[i as int].subs@;
        let ghost pre = bus.topics@;
        let ghost t = old_topics[i as int].topic@;
        proof {
            assert(old(bus).cached_list(i as int) == views(before));
            assert(is_delivery_list(views(before), old_subs, t));
            lemma_sorted_distinct(views(before));
        }
        match position_of(&bus.topics[i].subs, &key) {
            Some(p) => {
                proof {
                    assert(views(before)[p as int] == before[p as int]@);
                    assert(views(before).contains(before[p as int]@));
                    assert(before[p as int]@ == w);
                }
                bus.topics[i].subs.remove(p);
                proof {
                    lemma_views_remove(before, p as int);
                    lemma_sorted_remove(views(before), p as int);
                    assert forall|x: SubscriptionView| #[trigger] views(bus.topics@[i as int].subs@).contains(x)
                        <==> new_subs.contains(x) && wildcard_match(t, x.pattern) by {
                        lemma_remove_distinct_contains(views(before), p as int, x);
                        lemma_remove_distinct_contains(old_subs, k0 as int, x);
                    }
                }
            },
            None => {
                proof {
                    assert(!views(before).contains(w)) by {
                        if views(before).contains(w) {
                            let q = choose|q: int| 0 <= q < views(before).len() && views(before)[q] == w;
                            assert(views(before)[q] == before[q]@);
                        }
                    }
                    assert forall|x: SubscriptionView| #[trigger] views(before).contains(x)
                        <==> new_subs.contains(x) && wildcard_match(t, x.pattern) by {
                        lemma_remove_distinct_contains(old_subs, k0 as int, x);
                    }
                }
            },
        }
        proof {
            assert forall|j: int| 0 <= j < n && j != i implies #[trigger] bus.topics@[j] == pre[j] by {}
            assert forall|j: int| 0 <= j <= i implies is_delivery_list(
                views((#[trigger] bus.topics@[j]).subs@),
                new_subs,
                bus.topics@[j].topic@,
            ) by {
                if j < i {
                    assert(bus.topics@[j] == pre[j]);
                    assert(is_delivery_list(views(pre[j].subs@), new_subs, pre[j].topic@));
                }
            }
        }
        i += 1;
    }
    let ghost looped = bus.topics@;
    bus.subscriptions.remove(k0);
    proof {
        lemma_views_remove(old(bus).subscriptions@, k0 as int);
        assert(bus.subscription_views() == new_subs);
        assert forall|a: int, b: int| 0 <= a < b < new_subs.len() implies !same_key(
            #[trigger] new_subs[a],
            #[trigger] new_subs[b],
        ) by {
            let a1 = if a < k0 { a } else { a + 1 };
            let b1 = if b < k0 { b } else { b + 1 };
            assert(new_subs[a] == old_subs[a1]);
            assert(new_subs[b] == old_subs[b1]);
        }
        assert forall|j: int| 0 <= j < bus.topics@.len() implies is_delivery_list(
            #[trigger] bus.cached_list(j),
            bus.subscription_views(),
            bus.topics@[j].topic@,
        ) by {
            assert(bus.topics@[j] == looped[j]);
        }
        assert forall|a: int, b: int| 0 <= a < b < bus.topics@.len() implies #[trigger] bus.topics@[a].topic@
            != #[trigger] bus.topics@[b].topic@ by {
            assert(old_topics[a].topic@ != old_topics[b].topic@);
        }
        assert(bus.cached_topics() =~= old(bus).cached_topics());
        assert(bus.endpoint_views() =~= old(bus).endpoint_views());
        assert(bus.response_views() =~= old(bus).response_views());
        assert(same_key(old_subs[k0 as int], v));
    }
}

proof fn lemma_subrange_push<A>(s: Seq<A>, i: int)
    requires
        0 <= i < s.len(),
    ensures
        s.subrange(0, i + 1) =~= s.subrange(0, i).push(s[i]),
{
}

/// A delivery list is as long as the number of matching subscriptions.
pub proof fn lemma_delivery_list_len(list: Seq<SubscriptionView>, subs: Seq<SubscriptionView>, topic: Seq<u8>)
    requires
        is_delivery_list(list, subs, topic),
        forall|i: int, j: int| 0 <= i < j < subs.len() ==> subs[i] != subs[j],
    ensures
        list.len() == count_matching(subs, topic),
    decreases subs.len(),
{
    if subs.len() == 0 {
        if list.len() > 0 {
            assert(list.contains(list[0]));
        }
    } else {
        let rest = subs.drop_last();
        let x = subs.last();
        lemma_sorted_distinct(list);
        assert forall|y: SubscriptionView| subs.contains(y) <==> rest.contains(y) || y == x by {
            lemma_seq_push_contains(rest, x, y);
            assert(rest.push(x) =~= subs);
        }
        assert(!rest.contains(x)) by {
            if rest.contains(x) {
                let i = choose|i: int| 0 <= i < rest.len() && rest[i] == x;
                assert(subs[i] == subs[subs.len() - 1]);
            }
        }
        if wildcard_match(topic, x.pattern) {
            assert(list.contains(x));
            let p = choose|p: int| 0 <= p < list.len() && list[p] == x;
            let shorter = list.remove(p);
            lemma_sorted_remove(list, p);
            assert forall|y: SubscriptionView| #[trigger] shorter.contains(y) <==> rest.contains(y)
                && wildcard_match(topic, y.pattern) by {
                lemma_remove_distinct_contains(list, p, y);
            }
            lemma_delivery_list_len(shorter, rest, topic);
        } else {
            assert forall|y: SubscriptionView| #[trigger] list.contains(y) <==> rest.contains(y)
                && wildcard_match(topic, y.pattern) by {}
            lemma_delivery_list_len(list, rest, topic);
        }
    }
}

fn clone_list<H: Clone>(subs: &Vec<Subscription<H>>) -> (r: Vec<Subscription<H>>)
    ensures
        views(r@) == views(subs@),
        forall|k: int| 0 <= k < r@.len() ==> (#[trigger] r@[k]).handler.spec_id() == subs@[k].handler.spec_id(),
{
    let mut r: Vec<Subscription<H>> = Vec::new();
    let mut i: usize = 0;
    while i < subs.len()
        invariant
            i <= subs@.len(),
            r@.len() == i,
            forall|k: int| 0 <= k < i ==> (#[trigger] r@[k])@ == subs@[k]@,
            forall|k: int| 0 <= k < i ==> (#[trigger] r@[k]).handler.spec_id() == subs@[k].handler.spec_id(),
        decreases subs@.len() - i,
    {
        r.push(subs[i].clone());
        i += 1;
    }
    assert(views(r@) =~= views(subs@));
    r
}

impl<H> MessageBus<H> {
    /// The position of `topic` among the cached topics, if it is cached.
    fn cached_position(&self, topic: MStr<Topic>) -> (r: Option<usize>)
        ensures
            r is Some ==> r->Some_0 < self.topics@.len() && self.topics@[r->Some_0 as int].topic@ == topic@,
            r is None ==> forall|k: int| 0 <= k < self.topics@.len() ==> (#[trigger] self.topics@[k]).topic@ != topic@,
    {
        let mut i: usize = 0;
        while i < self.topics.len()
            invariant
                i <= self.topics@.len(),
                forall|k: int| 0 <= k < i ==> (#[trigger] self.topics@[k]).topic@ != topic@,
            decreases self.topics@.len() - i,
        {
            if crate::subscription::bytes_equal(self.topics[i].topic.as_bytes(), topic.as_bytes()) {
                return Some(i);
            }
            i += 1;
        }
        None
    }

    /// The number of subscriptions whose pattern matches `topic`. Read from
    /// the cache when the topic is cached, counted otherwise; never caches.
    pub fn subscriptions_count(&self, topic: MStr<Topic>) -> (r: usize)
        requires
            self.wf(),
        ensures
            r == count_matching(self.subscription_views(), topic@),
    {
        proof {
            lemma_unique_keys_distinct(self.subscription_views());
        }
        match self.cached_position(topic) {
            Some(k) => {
                proof {
                    assert(is_delivery_list(self.cached_list(k as int), self.subscription_views(), topic@));
                    lemma_delivery_list_len(self.cached_list(k as int), self.subscription_views(), topic@);
                }
                return self.topics[k].subs.len();
            },
            None => {},
        }
        let ghost subs = self.subscription_views();
        let mut count: usize = 0;
        let mut i: usize = 0;
        while i < self.subscriptions.len()
            invariant
                subs == self.subscription_views(),
                i <= subs.len(),
                count <= i,
                count == count_matching(subs.subrange(0, i as int), topic@),
            decreases subs.len() - i,
        {
            proof {
                lemma_subrange_push(subs, i as int);
                assert(subs.subrange(0, i as int + 1).drop_last() =~= subs.subrange(0, i as int));
                assert(subs[i as int] == self.subscriptions@[i as int]@);
            }
            if is_matching(topic.as_bytes(), self.subscriptions[i].pattern.as_bytes()) {
                count += 1;
            }
            i += 1;
        }
        proof {
            assert(subs.subrange(0, subs.len() as int) =~= subs);
        }
        count
    }

    /// Whether some subscription's pattern matches `topic`.
    pub fn has_subscribers(&self, topic: MStr<Topic>) -> (r: bool)
        requires
            self.wf(),
        ensures
            r == (count_matching(self.subscription_views(), topic@) > 0),
    {
        self.subscriptions_count(topic) > 0
    }

    /// Whether `handler` is subscribed to `pattern`.
    pub fn is_subscribed(&self, pattern: MStr<Pattern>, handler: ShareableMessageHandler<H>) -> (r: bool)
        ensures
            r == has_key(
                self.subscription_views(),
                SubscriptionView { priority: 0, pattern: pattern@, handler_id: handler.spec_id() },
            ),
    {
        let key = Subscription::new(pattern, handler, None);
        match position_of(&self.subscriptions, &key) {
            Some(k) => {
                proof {
                    assert(self.subscription_views()[k as int] == self.subscriptions@[k as int]@);
                }
                true
            },
            None => {
                proof {
                    assert forall|k: int| 0 <= k < self.subscription_views().len() implies !same_key(
                        #[trigger] self.subscription_views()[k],
                        key@,
                    ) by {
                        assert(self.subscription_views()[k] == self.subscriptions@[k]@);
                    }
                }
                false
            },
        }
    }

    /// The subscriptions, in the order they were made.
    pub fn subscriptions(&self) -> (r: Vec<&Subscription<H>>)
        ensures
            r@.len() == self.subscription_views().len(),
            forall|k: int| 0 <= k < r@.len() ==> (#[trigger] r@[k])@ == self.subscription_views()[k],
    {
        let mut r: Vec<&Subscription<H>> = Vec::new();
        let mut i: usize = 0;
        while i < self.subscriptions.len()
            invariant
                i <= self.subscriptions@.len(),
                r@.len() == i,
                forall|k: int| 0 <= k < i ==> (#[trigger] r@[k])@ == self.subscription_views()[k],
            decreases self.subscriptions@.len() - i,
        {
            r.push(&self.subscriptions[i]);
            i += 1;
        }
        r
    }

    /// The patterns of the subscriptions, in the order they were made.
    pub fn patterns(&self) -> (r: Vec<&'static str>)
        ensures
            r@.len() == self.subscription_views().len(),
            forall|k: int| 0 <= k < r@.len() ==> (#[trigger] r@[k]).spec_bytes() == self.subscription_views()[k].pattern,
    {
        let mut r: Vec<&'static str> = Vec::new();
        let mut i: usize = 0;
        while i < self.subscriptions.len()
            invariant
                i <= self.subscriptions@.len(),
                r@.len() == i,
                forall|k: int| 0 <= k < i ==> (#[trigger] r@[k]).spec_bytes() == self.subscription_views()[k].pattern,
            decreases self.subscriptions@.len() - i,
        {
            r.push(self.subscriptions[i].pattern.as_str());
            i += 1;
        }
        r
    }

    /// The handler identifiers of the subscriptions, in the order they were made.
    pub fn subscription_handler_ids(&self) -> (r: Vec<&'static str>)
        ensures
            r@.len() == self.subscription_views().len(),
            forall|k: int|
                0 <= k < r@.len() ==> (#[trigger] r@[k]).spec_bytes() == self.subscription_views()[k].handler_id,
    {
        let mut r: Vec<&'static str> = Vec::new();
        let mut i: usize = 0;
        while i < self.subscriptions.len()
            invariant
                i <= self.subscriptions@.len(),
                r@.len() == i,
                forall|k: int|
                    0 <= k < i ==> (#[trigger] r@[k]).spec_bytes() == self.subscription_views()[k].handler_id,
            decreases self.subscriptions@.len() - i,
        {
            r.push(self.subscriptions[i].handler_id);
            i += 1;
        }
        r
    }

    /// The registered endpoints, in order of first registration.
    pub fn endpoints(&self) -> (r: Vec<&'static str>)
        ensures
            r@.len() == self.endpoint_views().len(),
            forall|k: int| 0 <= k < r@.len() ==> (#[trigger] r@[k]).spec_bytes() == self.endpoint_views()[k].0,
    {
        let mut r: Vec<&'static str> = Vec::new();
        let mut i: usize = 0;
        while i < self.endpoints.len()
            invariant
                i <= self.endpoints@.len(),
                r@.len() == i,
                forall|k: int| 0 <= k < i ==> (#[trigger] r@[k]).spec_bytes() == self.endpoint_views()[k].0,
            decreases self.endpoints@.len() - i,
        {
            r.push(self.endpoints[i].endpoint.as_str());
            i += 1;
        }
        r
    }

    fn endpoint_position(&self, endpoint: MStr<Endpoint>) -> (r: Option<usize>)
        ensures
            r is Some ==> r->Some_0 < self.endpoint_views().len() && self.endpoint_views()[r->Some_0 as int].0
                == endpoint@,
            r is None ==> forall|k: int| 0 <= k < self.endpoint_views().len() ==> (#[trigger] self.endpoint_views()[k]).0 != endpoint@,
    {
        let mut i: usize = 0;
        while i < self.endpoints.len()
            invariant
                i <= self.endpoints@.len(),
                forall|k: int| 0 <= k < i ==> (#[trigger] self.endpoint_views()[k]).0 != endpoint@,
            decreases self.endpoints@.len() - i,
        {
            if crate::subscription::bytes_equal(self.endpoints[i].endpoint.as_bytes(), endpoint.as_bytes()) {
                return Some(i);
            }
            i += 1;
        }
        None
    }

    /// Whether a handler is registered under `endpoint`.
    pub fn is_registered(&self, endpoint: MStr<Endpoint>) -> (r: bool)
        ensures
            r == exists|k: int| 0 <= k < self.endpoint_views().len() && (#[trigger] self.endpoint_views()[k]).0 == endpoint@,
    {
        self.endpoint_position(endpoint).is_some()
    }

    /// The handler registered under `endpoint`, if any.
    pub fn get_endpoint(&self, endpoint: MStr<Endpoint>) -> (r: Option<&ShareableMessageHandler<H>>)
        ensures
            r is Some <==> exists|k: int| 0 <= k < self.endpoint_views().len() && (#[trigger] self.endpoint_views()[k]).0 == endpoint@,
            r is Some ==> exists|k: int|
                0 <= k < self.endpoint_views().len() && #[trigger] self.endpoint_views()[k] == (endpoint@, r->Some_0.spec_id()),
    {
        match self.endpoint_position(endpoint) {
            Some(k) => Some(&self.endpoints[k].handler),
            None => None,
        }
    }

    fn response_position(&self, correlation_id: &UUID4) -> (r: Option<usize>)
        ensures
            r is Some ==> r->Some_0 < self.response_views().len() && self.response_views()[r->Some_0 as int].0
                == correlation_id@,
            r is None ==> forall|k: int| 0 <= k < self.response_views().len() ==> (#[trigger] self.response_views()[k]).0 != correlation_id@,
    {
        let mut i: usize = 0;
        while i < self.correlation_index.len()
            invariant
                i <= self.correlation_index@.len(),
                forall|k: int| 0 <= k < i ==> (#[trigger] self.response_views()[k]).0 != correlation_id@,
            decreases self.correlation_index@.len() - i,
        {
            if self.correlation_index[i].correlation_id.same_as(correlation_id) {
                return Some(i);
            }
            i += 1;
        }
        None
    }

    /// The handler waiting for the response to `correlation_id`, if any.
    pub fn get_response_handler(&self, correlation_id: &UUID4) -> (r: Option<&ShareableMessageHandler<H>>)
        ensures
            r is Some <==> exists|k: int| 0 <= k < self.response_views().len() && (#[trigger] self.response_views()[k]).0 == correlation_id@,
            r is Some ==> exists|k: int|
                0 <= k < self.response_views().len() && #[trigger] self.response_views()[k] == (correlation_id@, r->Some_0.spec_id()),
    {
        match self.response_position(correlation_id) {
            Some(k) => Some(&self.correlation_index[k].handler),
            None => None,
        }
    }

    /// Registers `handler` for the response to `correlation_id`; an id can
    /// have one handler only, and a second registration fails, leaving the
    /// bus as it was.
    pub fn register_response_handler(
        &mut self,
        correlation_id: &UUID4,
        handler: ShareableMessageHandler<H>,
    ) -> (r: Result<(), BusError>)
        requires
            old(self).wf(),
        ensures
            final(self).wf(),
            r is Err <==> has_id(old(self).response_views(), correlation_id@),
            r is Err ==> r->Err_0 == BusError::DuplicateCorrelationId && final(self).response_views() == old(self).response_views(),
            r is Ok ==> final(self).response_views() == old(self).response_views().push((correlation_id@, handler.spec_id())),
            final(self).subscription_views() == old(self).subscription_views(),
            final(self).cached_topics() == old(self).cached_topics(),
            final(self).endpoint_views() == old(self).endpoint_views(),
    {
        match self.response_position(correlation_id) {
            Some(_) => {
                return Err(BusError::DuplicateCorrelationId);
            },
            None => {},
        }
        let ghost before = self.correlation_index@;
        self.correlation_index.push(ResponseEntry { correlation_id: *correlation_id, handler });
        proof {
            assert(self.response_views() =~= old(self).response_views().push((correlation_id@, handler.spec_id())));
            assert forall|i: int, j: int| 0 <= i < j < self.correlation_index@.len()
                implies #[trigger] self.correlation_index@[i].correlation_id@
                != #[trigger] self.correlation_index@[j].correlation_id@ by {
                if j == before.len() {
                    assert(old(self).response_views()[i].0 == before[i].correlation_id@);
                }
            }
            assert(self.cached_topics() =~= old(self).cached_topics());
            assert(self.endpoint_views() =~= old(self).endpoint_views());
            assert forall|i: int| 0 <= i < self.topics@.len() implies is_delivery_list(
                #[trigger] self.cached_list(i),
                self.subscription_views(),
                self.topics@[i].topic@,
            ) by {
                assert(self.cached_list(i) == old(self).cached_list(i));
            }
        }
        Ok(())
    }

    /// Takes the handler waiting for the response to `correlation_id` out of
    /// the index, if there is one: a response is delivered once.
    pub(crate) fn take_response_handler(&mut self, correlation_id: &UUID4) -> (r: Option<ShareableMessageHandler<H>>)
        requires
            old(self).wf(),
        ensures
            final(self).wf(),
            r is None <==> !has_id(old(self).response_views(), correlation_id@),
            r is None ==> final(self).response_views() == old(self).response_views(),
            r is Some ==> exists|k: int|
                0 <= k < old(self).response_views().len() && old(self).response_views()[k] == (correlation_id@, r->Some_0.spec_id())
                    && final(self).response_views() == old(self).response_views().remove(k),
            final(self).subscription_views() == old(self).subscription_views(),
            final(self).cached_topics() == old(self).cached_topics(),
            final(self).endpoint_views() == old(self).endpoint_views(),
    {
        match self.response_position(correlation_id) {
            Some(k) => {
                let ghost before = self.correlation_index@;
                let entry = self.correlation_index.remove(k);
                proof {
                    assert(self.response_views() =~= old(self).response_views().remove(k as int));
                    assert forall|i: int, j: int| 0 <= i < j < self.correlation_index@.len()
                        implies #[trigger] self.correlation_index@[i].correlation_id@
                        != #[trigger] self.correlation_index@[j].correlation_id@ by {
                        let a = if i < k { i } else { i + 1 };
                        let b = if j < k { j } else { j + 1 };
                        assert(self.correlation_index@[i] == before[a]);
                        assert(self.correlation_index@[j] == before[b]);
                    }
                    assert(self.cached_topics() =~= old(self).cached_topics());
                    assert(self.endpoint_views() =~= old(self).endpoint_views());
                    assert forall|i: int| 0 <= i < self.topics@.len() implies is_delivery_list(
                        #[trigger] self.cached_list(i),
                        self.subscription_views(),
                        self.topics@[i].topic@,
                    ) by {
                        assert(self.cached_list(i) == old(self).cached_list(i));
                    }
                }
                Some(entry.handler)
            },
            None => None,
        }
    }

    /// Does nothing yet: reserved for a persistent backing.
    pub fn close(&self) -> (r: Result<(), BusError>)
        ensures
            r is Ok,
    {
        Ok(())
    }
}

/// Some entry of `index` has the correlation id `id`.
pub open spec fn has_id(index: Seq<(Seq<u8>, Seq<u8>)>, id: Seq<u8>) -> bool {
    exists|k: int| 0 <= k < index.len() && (#[trigger] index[k]).0 == id
}

impl<H: Clone> MessageBus<H> {
    /// Scans every subscription and collects those whose pattern matches
    /// `topic`, in delivery order.
    pub(crate) fn find_topic_matches(&self, topic: MStr<Topic>) -> (r: Vec<Subscription<H>>)
        requires
            self.wf(),
        ensures
            is_delivery_list(views(r@), self.subscription_views(), topic@),
    {
        let ghost subs = self.subscription_views();
        proof {
            lemma_unique_keys_distinct(subs);
        }
        let mut r: Vec<Subscription<H>> = Vec::new();
        let mut i: usize = 0;
        while i < self.subscriptions.len()
            invariant
                subs == self.subscription_views(),
                forall|a: int, b: int| 0 <= a < b < subs.len() ==> subs[a] != subs[b],
                i <= subs.len(),
                is_delivery_list(views(r@), subs.subrange(0, i as int), topic@),
            decreases subs.len() - i,
        {
            let ghost prefix = subs.subrange(0, i as int);
            let ghost x = subs[i as int];
            proof {
                lemma_subrange_push(subs, i as int);
                assert(x == self.subscriptions@[i as int]@);
                assert(!prefix.contains(x)) by {
                    if prefix.contains(x) {
                        let q = choose|q: int| 0 <= q < prefix.len() && prefix[q] == x;
                        assert(subs[q] == subs[i as int]);
                    }
                }
            }
            if is_matching(topic.as_bytes(), self.subscriptions[i].pattern.as_bytes()) {
                let c = self.subscriptions[i].clone();
                let ghost before = r@;
                insert_sorted(&mut r, c);
                proof {
                    let k = choose|k: int| 0 <= k <= before.len() && r@ == before.insert(k, c);
                    lemma_views_insert(before, k, c);
                    assert forall|y: SubscriptionView| #[trigger] views(r@).contains(y) <==> subs.subrange(
                        0,
                        i as int + 1,
                    ).contains(y) && wildcard_match(topic@, y.pattern) by {
                        lemma_seq_insert_contains(views(before), k, x, y);
                        lemma_seq_push_contains(prefix, x, y);
                    }
                }
            } else {
                proof {
                    assert forall|y: SubscriptionView| #[trigger] views(r@).contains(y) <==> subs.subrange(
                        0,
                        i as int + 1,
                    ).contains(y) && wildcard_match(topic@, y.pattern) by {
                        lemma_seq_push_contains(prefix, x, y);
                    }
                }
            }
            i += 1;
        }
        proof {
            assert(subs.subrange(0, subs.len() as int) =~= subs);
        }
        r
    }

    /// The subscriptions to deliver a message on `topic` to, in delivery
    /// order. The first call for a topic scans the subscriptions and caches
    /// the list; later calls read the cache.
    pub fn matching_subscriptions(&mut self, topic: MStr<Topic>) -> (r: Vec<Subscription<H>>)
        requires
            old(self).wf(),
        ensures
            final(self).wf(),
            is_delivery_list(views(r@), old(self).subscription_views(), topic@),
            final(self).subscription_views() == old(self).subscription_views(),
            old(self).cached_topics().contains(topic@) ==> final(self).cached_topics() == old(self).cached_topics(),
            !old(self).cached_topics().contains(topic@) ==> final(self).cached_topics() == old(self).cached_topics().push(topic@),
            final(self).endpoint_views() == old(self).endpoint_views(),
            final(self).response_views() == old(self).response_views(),
    {
        match self.cached_position(topic) {
            Some(k) => {
                proof {
                    assert(self.cached_topics()[k as int] == topic@);
                    assert(is_delivery_list(self.cached_list(k as int), self.subscription_views(), self.topics@[k as int].topic@));
                }
                let r = clone_list(&self.topics[k].subs);
                proof {
                    assert(views(r@) == self.cached_list(k as int));
                }
                return r;
            },
            None => {},
        }
        proof {
            assert(!self.cached_topics().contains(topic@)) by {
                if self.cached_topics().contains(topic@) {
                    let q = choose|q: int| 0 <= q < self.cached_topics().len() && self.cached_topics()[q] == topic@;
                    assert(self.topics@[q].topic@ == topic@);
                }
            }
        }
        let matches = self.find_topic_matches(topic);
        let r = clone_list(&matches);
        let ghost before = self.topics@;
        self.topics.push(TopicEntry { topic, subs: matches });
        proof {
            assert(self.cached_topics() =~= old(self).cached_topics().push(topic@));
            assert forall|i: int| 0 <= i < self.topics@.len() implies is_delivery_list(
                #[trigger] self.cached_list(i),
                self.subscription_views(),
                self.topics@[i].topic@,
            ) by {
                if i < before.len() {
                    assert(self.cached_list(i) == old(self).cached_list(i));
                }
            }
            assert forall|i: int, j: int| 0 <= i < j < self.topics@.len() implies #[trigger] self.topics@[i].topic@
                != #[trigger] self.topics@[j].topic@ by {
                if j == before.len() {
                    assert(self.topics@[i] == before[i]);
                }
            }
            assert(self.endpoint_views() =~= old(self).endpoint_views());
            assert(self.response_views() =~= old(self).response_views());
        }
        r
    }
}

/// Registers `handler` under `endpoint`. A handler already there is replaced
/// in place; a new endpoint goes after the others.
pub fn register<H>(bus: &mut MessageBus<H>, endpoint: MStr<Endpoint>, handler: ShareableMessageHandler<H>)
    requires
        old(bus).wf(),
    ensures
        final(bus).wf(),
        forall|k: int| 0 <= k < old(bus).endpoint_views().len() && old(bus).endpoint_views()[k].0 == endpoint@
            ==> final(bus).endpoint_views() == old(bus).endpoint_views().update(k, (endpoint@, handler.spec_id())),
        (forall|k: int| 0 <= k < old(bus).endpoint_views().len() ==> old(bus).endpoint_views()[k].0 != endpoint@)
            ==> final(bus).endpoint_views() == old(bus).endpoint_views().push((endpoint@, handler.spec_id())),
        final(bus).subscription_views() == old(bus).subscription_views(),
        final(bus).cached_topics() == old(bus).cached_topics(),
        final(bus).response_views() == old(bus).response_views(),
{
    let ghost before = bus.endpoints@;
    let ghost id = handler.spec_id();
    match bus.endpoint_position(endpoint) {
        Some(k) => {
            bus.endpoints.set(k, EndpointEntry { endpoint, handler });
            proof {
                assert(bus.endpoint_views() =~= old(bus).endpoint_views().update(k as int, (endpoint@, id)));
                assert forall|i: int, j: int| 0 <= i < j < bus.endpoints@.len() implies #[trigger] bus.endpoints@[i].endpoint@
                    != #[trigger] bus.endpoints@[j].endpoint@ by {
                    assert(bus.endpoint_views()[i].0 == bus.endpoints@[i].endpoint@);
                    assert(old(bus).endpoint_views()[i].0 == before[i].endpoint@);
                    assert(old(bus).endpoint_views()[j].0 == before[j].endpoint@);
                }
                assert forall|q: int| 0 <= q < old(bus).endpoint_views().len() && old(bus).endpoint_views()[q].0 == endpoint@
                    implies q == k by {
                    assert(old(bus).endpoint_views()[q].0 == before[q].endpoint@);
                    assert(old(bus).endpoint_views()[k as int].0 == before[k as int].endpoint@);
                }
            }
        },
        None => {
            bus.endpoints.push(EndpointEntry { endpoint, handler });
            proof {
                assert(bus.endpoint_views() =~= old(bus).endpoint_views().push((endpoint@, id)));
                assert forall|i: int, j: int| 0 <= i < j < bus.endpoints@.len() implies #[trigger] bus.endpoints@[i].endpoint@
                    != #[trigger] bus.endpoints@[j].endpoint@ by {
                    if j == before.len() {
                        assert(old(bus).endpoint_views()[i].0 == before[i].endpoint@);
                    }
                }
            }
        },
    }
    proof {
        assert(bus.cached_topics() =~= old(bus).cached_topics());
        assert(bus.response_views() =~= old(bus).response_views());
        assert forall|i: int| 0 <= i < bus.topics@.len() implies is_delivery_list(
            #[trigger] bus.cached_list(i),
            bus.subscription_views(),
            bus.topics@[i].topic@,
        ) by {
            assert(bus.cached_list(i) == old(bus).cached_list(i));
        }
    }
}

/// Removes the handler registered under `endpoint`, keeping the order of the
/// others.
pub fn deregister<H>(bus: &mut MessageBus<H>, endpoint: MStr<Endpoint>)
    requires
        old(bus).wf(),
    ensures
        final(bus).wf(),
        forall|k: int| 0 <= k < old(bus).endpoint_views().len() && old(bus).endpoint_views()[k].0 == endpoint@
            ==> final(bus).endpoint_views() == old(bus).endpoint_views().remove(k),
        (forall|k: int| 0 <= k < old(bus).endpoint_views().len() ==> old(bus).endpoint_views()[k].0 != endpoint@)
            ==> final(bus).endpoint_views() == old(bus).endpoint_views(),
        final(bus).subscription_views() == old(bus).subscription_views(),
        final(bus).cached_topics() == old(bus).cached_topics(),
        final(bus).response_views() == old(bus).response_views(),
{
    let ghost before = bus.endpoints@;
    match bus.endpoint_position(endpoint) {
        Some(k) => {
            bus.endpoints.remove(k);
            proof {
                assert(bus.endpoint_views() =~= old(bus).endpoint_views().remove(k as int));
                assert forall|i: int, j: int| 0 <= i < j < bus.endpoints@.len() implies #[trigger] bus.endpoints@[i].endpoint@
                    != #[trigger] bus.endpoints@[j].endpoint@ by {
                    let a = if i < k { i } else { i + 1 };
                    let b = if j < k { j } else { j + 1 };
                    assert(bus.endpoints@[i] == before[a]);
                    assert(bus.endpoints@[j] == before[b]);
                }
                assert forall|q: int| 0 <= q < old(bus).endpoint_views().len() && old(bus).endpoint_views()[q].0 == endpoint@
                    implies q == k by {
                    assert(old(bus).endpoint_views()[q].0 == before[q].endpoint@);
                    assert(old(bus).endpoint_views()[k as int].0 == before[k as int].endpoint@);
                }
            }
        },
        None => {},
    }
    proof {
        assert(bus.cached_topics() =~= old(bus).cached_topics());
        assert(bus.response_views() =~= old(bus).response_views());
        assert forall|i: int| 0 <= i < bus.topics@.len() implies is_delivery_list(
            #[trigger] bus.cached_list(i),
            bus.subscription_views(),
            bus.topics@[i].topic@,
        ) by {
            assert(bus.cached_list(i) == old(bus).cached_list(i));
        }
    }
}

/// Delivers `message` to every subscription whose pattern matches `topic`,
/// in delivery order, and returns how many handlers took it. Handlers run
/// on a snapshot of the delivery list.
pub fn publish<M, H: Clone + MessageHandler<M>>(bus: &mut MessageBus<H>, topic: MStr<Topic>, message: &M) -> (r: usize)
    requires
        old(bus).wf(),
    ensures
        final(bus).wf(),
        r == count_matching(old(bus).subscription_views(), topic@),
        final(bus).subscription_views() == old(bus).subscription_views(),
        final(bus).cached_topics().contains(topic@),
        final(bus).endpoint_views() == old(bus).endpoint_views(),
        final(bus).response_views() == old(bus).response_views(),
{
    let subs = bus.matching_subscriptions(topic);
    proof {
        lemma_unique_keys_distinct(old(bus).subscription_views());
        lemma_delivery_list_len(views(subs@), old(bus).subscription_views(), topic@);
        if !old(bus).cached_topics().contains(topic@) {
            assert(bus.cached_topics()[bus.cached_topics().len() - 1] == topic@);
        }
    }
    let mut i: usize = 0;
    while i < subs.len()
        invariant
            i <= subs@.len(),
        decreases subs@.len() - i,
    {
        subs[i].handler.handler.handle(message);
        i += 1;
    }
    subs.len()
}

/// Delivers `message` to the handler registered under `endpoint`, if any, and
/// says whether there was one. A message to an unregistered endpoint is dropped.
pub fn send_any<M, H: MessageHandler<M>>(bus: &MessageBus<H>, endpoint: MStr<Endpoint>, message: &M) -> (r: bool)
    ensures
        r == exists|k: int| 0 <= k < bus.endpoint_views().len() && (#[trigger] bus.endpoint_views()[k]).0 == endpoint@,
{
    match bus.get_endpoint(endpoint) {
        Some(h) => {
            h.handler.handle(message);
            true
        },
        None => false,
    }
}

/// `send_any` for a message passed by value.
pub fn send<M, H: MessageHandler<M>>(bus: &MessageBus<H>, endpoint: MStr<Endpoint>, message: M) -> (r: bool)
    ensures
        r == exists|k: int| 0 <= k < bus.endpoint_views().len() && (#[trigger] bus.endpoint_views()[k]).0 == endpoint@,
{
    send_any(bus, endpoint, &message)
}

/// Delivers the response `message` to the handler waiting for
/// `correlation_id`, once: the handler leaves the index. Says whether there
/// was one; a response nobody waits for is dropped.
pub fn response<M, H: MessageHandler<M>>(bus: &mut MessageBus<H>, correlation_id: &UUID4, message: &M) -> (r: bool)
    requires
        old(bus).wf(),
    ensures
        final(bus).wf(),
        r == has_id(old(bus).response_views(), correlation_id@),
        !r ==> final(bus).response_views() == old(bus).response_views(),
        r ==> exists|k: int|
            0 <= k < old(bus).response_views().len() && old(bus).response_views()[k].0 == correlation_id@
                && final(bus).response_views() == old(bus).response_views().remove(k),
        !has_id(final(bus).response_views(), correlation_id@),
        final(bus).subscription_views() == old(bus).subscription_views(),
        final(bus).cached_topics() == old(bus).cached_topics(),
        final(bus).endpoint_views() == old(bus).endpoint_views(),
{
    let taken = bus.take_response_handler(correlation_id);
    proof {
        lemma_response_removed(old(bus).response_views(), bus.response_views(), correlation_id@);
    }
    match taken {
        Some(h) => {
            h.handler.handle(message);
            true
        },
        None => false,
    }
}

/// `response`, under the name used for data responses.
pub fn send_response<M, H: MessageHandler<M>>(bus: &mut MessageBus<H>, correlation_id: &UUID4, message: &M) -> (r: bool)
    requires
        old(bus).wf(),
    ensures
        final(bus).wf(),
        r == has_id(old(bus).response_views(), correlation_id@),
        !has_id(final(bus).response_views(), correlation_id@),
        final(bus).subscription_views() == old(bus).subscription_views(),
        final(bus).cached_topics() == old(bus).cached_topics(),
        final(bus).endpoint_views() == old(bus).endpoint_views(),
{
    response(bus, correlation_id, message)
}

/// After the only entry for `id` is removed (or there was none), no entry has `id`.
proof fn lemma_response_removed(before: Seq<(Seq<u8>, Seq<u8>)>, after: Seq<(Seq<u8>, Seq<u8>)>, id: Seq<u8>)
    requires
        forall|i: int, j: int| 0 <= i < j < before.len() ==> #[trigger] before[i].0 != #[trigger] before[j].0,
        !has_id(before, id) ==> after == before,
        has_id(before, id) ==> exists|k: int|
            0 <= k < before.len() && before[k].0 == id && after == before.remove(k),
    ensures
        !has_id(after, id),
{
    if has_id(before, id) {
        let k = choose|k: int| 0 <= k < before.len() && before[k].0 == id && after == before.remove(k);
        if has_id(after, id) {
            let q = choose|q: int| 0 <= q < after.len() && (#[trigger] after[q]).0 == id;
            if q < k {
                assert(after[q] == before[q]);
            } else {
                assert(after[q] == before[q + 1]);
            }
        }
    }
}

/// `subscribe` on a topic: the topic is taken as the pattern that matches
/// exactly it.
pub fn subscribe_topic<H: Clone>(
    bus: &mut MessageBus<H>,
    topic: MStr<Topic>,
    handler: ShareableMessageHandler<H>,
    priority: Option<u8>,
)
    requires
        old(bus).wf(),
    ensures
        final(bus).wf(),
        subscribe_effect(
            old(bus).subscription_views(),
            final(bus).subscription_views(),
            SubscriptionView {
                priority: match priority {
                    Some(p) => p,
                    None => 0,
                },
                pattern: topic@,
                handler_id: handler.spec_id(),
            },
        ),
        final(bus).cached_topics() == old(bus).cached_topics(),
{
    subscribe(bus, MStr::<Pattern>::from(topic), handler, priority);
}

/// `subscribe` on a pattern given as text.
pub fn subscribe_str<H: Clone>(
    bus: &mut MessageBus<H>,
    pattern: &str,
    handler: ShareableMessageHandler<H>,
    priority: Option<u8>,
)
    requires
        old(bus).wf(),
    ensures
        final(bus).wf(),
        subscribe_effect(
            old(bus).subscription_views(),
            final(bus).subscription_views(),
            SubscriptionView {
                priority: match priority {
                    Some(p) => p,
                    None => 0,
                },
                pattern: pattern.spec_bytes(),
                handler_id: handler.spec_id(),
            },
        ),
        final(bus).cached_topics() == old(bus).cached_topics(),
{
    subscribe(bus, MStr::pattern(pattern), handler, priority);
}

/// `unsubscribe` from the pattern that matches exactly `topic`.
pub fn unsubscribe_topic<H>(bus: &mut MessageBus<H>, topic: MStr<Topic>, handler: ShareableMessageHandler<H>)
    requires
        old(bus).wf(),
    ensures
        final(bus).wf(),
        unsubscribe_effect(
            old(bus).subscription_views(),
            final(bus).subscription_views(),
            SubscriptionView { priority: 0, pattern: topic@, handler_id: handler.spec_id() },
        ),
        final(bus).cached_topics() == old(bus).cached_topics(),
{
    unsubscribe(bus, MStr::<Pattern>::from(topic), handler);
}

/// `unsubscribe` from a pattern given as text.
pub fn unsubscribe_str<H>(bus: &mut MessageBus<H>, pattern: &str, handler: ShareableMessageHandler<H>)
    requires
        old(bus).wf(),
    ensures
        final(bus).wf(),
        unsubscribe_effect(
            old(bus).subscription_views(),
            final(bus).subscription_views(),
            SubscriptionView { priority: 0, pattern: pattern.spec_bytes(), handler_id: handler.spec_id() },
        ),
        final(bus).cached_topics() == old(bus).cached_topics(),
{
    unsubscribe(bus, MStr::pattern(pattern), handler);
}

/// Whether `handler` is subscribed to the pattern given as text.
pub fn is_subscribed<H>(bus: &MessageBus<H>, pattern: &str, handler: ShareableMessageHandler<H>) -> (r: bool)
    ensures
        r == has_key(
            bus.subscription_views(),
            SubscriptionView { priority: 0, pattern: pattern.spec_bytes(), handler_id: handler.spec_id() },
        ),
{
    bus.is_subscribed(MStr::pattern(pattern), handler)
}

/// The number of subscriptions matching the topic given as text; fails when
/// the text is not a fully qualified topic.
pub fn subscriptions_count<H>(bus: &MessageBus<H>, topic: &str) -> (r: Result<usize, CorrectnessError>)
    requires
        bus.wf(),
    ensures
        r is Ok <==> is_fully_qualified(topic@),
        r is Ok ==> r->Ok_0 == count_matching(bus.subscription_views(), topic.spec_bytes()),
{
    match MStr::topic(topic) {
        Ok(t) => Ok(bus.subscriptions_count(t)),
        Err(e) => Err(e),
    }
}

/// `MessageBus::register_response_handler` as a free function.
pub fn register_response_handler<H>(
    bus: &mut MessageBus<H>,
    correlation_id: &UUID4,
    handler: ShareableMessageHandler<H>,
) -> (r: Result<(), BusError>)
    requires
        old(bus).wf(),
    ensures
        final(bus).wf(),
        r is Err <==> has_id(old(bus).response_views(), correlation_id@),
        r is Err ==> final(bus).response_views() == old(bus).response_views(),
        r is Ok ==> final(bus).response_views() == old(bus).response_views().push((correlation_id@, handler.spec_id())),
{
    bus.register_response_handler(correlation_id, handler)
}

/// Subscribing the same handler to the same pattern twice: the second call
/// leaves the subscriptions, and so every subscriber count, as the first left
/// them, whatever priority it asks for.
pub proof fn lemma_subscribe_twice_keeps_count(
    s0: Seq<SubscriptionView>,
    s1: Seq<SubscriptionView>,
    s2: Seq<SubscriptionView>,
    first: SubscriptionView,
    second: SubscriptionView,
    topic: Seq<u8>,
)
    requires
        subscribe_effect(s0, s1, first),
        subscribe_effect(s1, s2, second),
        same_key(first, second),
    ensures
        s2 == s1,
        count_matching(s2, topic) == count_matching(s1, topic),
{
    if has_key(s0, first) {
        let k = choose|k: int| 0 <= k < s0.len() && same_key(#[trigger] s0[k], first);
        assert(same_key(s1[k], second));
    } else {
        assert(same_key(s1[s0.len() as int], second));
    }
}

/// A new subscription whose pattern matches a topic is in every delivery list
/// computed for that topic afterwards, cached before or not.
pub proof fn lemma_new_subscription_is_delivered(
    s0: Seq<SubscriptionView>,
    s1: Seq<SubscriptionView>,
    v: SubscriptionView,
    topic: Seq<u8>,
    list: Seq<SubscriptionView>,
)
    requires
        !has_key(s0, v),
        subscribe_effect(s0, s1, v),
        wildcard_match(topic, v.pattern),
        is_delivery_list(list, s1, topic),
    ensures
        list.contains(v),
{
    assert(s1[s0.len() as int] == v);
}

/// After `unsubscribe`, no delivery list holds the removed subscription.
pub proof fn lemma_unsubscribed_is_not_delivered(
    s0: Seq<SubscriptionView>,
    s1: Seq<SubscriptionView>,
    v: SubscriptionView,
    topic: Seq<u8>,
    list: Seq<SubscriptionView>,
)
    requires
        unique_keys(s0),
        unsubscribe_effect(s0, s1, v),
        is_delivery_list(list, s1, topic),
    ensures
        forall|x: SubscriptionView| #[trigger] list.contains(x) ==> !same_key(x, v),
{
    assert forall|x: SubscriptionView| #[trigger] list.contains(x) implies !same_key(x, v) by {
        let q = choose|q: int| 0 <= q < s1.len() && s1[q] == x;
        if has_key(s0, v) {
            let k = choose|k: int| 0 <= k < s0.len() && same_key(s0[k], v) && s1 == s0.remove(k);
            let p = if q < k { q } else { q + 1 };
            assert(s0[p] == x);
            if same_key(x, v) {
                if p < k {
                    assert(!same_key(s0[p], s0[k]));
                } else {
                    assert(!same_key(s0[k], s0[p]));
                }
            }
        } else {
            if same_key(x, v) {
                assert(same_key(s0[q], v));
            }
        }
    }
}

/// Once a handler is registered for a correlation id, the id is taken: a
/// second registration for it fails.
pub proof fn lemma_correlation_id_taken(
    before: Seq<(Seq<u8>, Seq<u8>)>,
    after: Seq<(Seq<u8>, Seq<u8>)>,
    id: Seq<u8>,
    handler_id: Seq<u8>,
)
    requires
        after == before.push((id, handler_id)),
    ensures
        has_id(after, id),
{
    assert(after[before.len() as int].0 == id);
}

/// Two lists in delivery order with the same subscriptions are the same
/// list: the delivery order of a set of subscriptions is determined.
pub proof fn lemma_delivery_order_unique(a: Seq<SubscriptionView>, b: Seq<SubscriptionView>)
    requires
        strictly_sorted(a),
        strictly_sorted(b),
        forall|x: SubscriptionView|
            #![trigger a.contains(x)]
            #![trigger b.contains(x)]
            a.contains(x) <==> b.contains(x),
    ensures
        a == b,
    decreases a.len(),
{
    if a.len() == 0 {
        if b.len() > 0 {
            assert(b.contains(b[0]));
        }
        assert(a =~= b);
    } else {
        assert(a.contains(a[0]));
        assert(b.contains(a[0]));
        assert(b.len() > 0);
        assert(b.contains(b[0]));
        assert(a.contains(b[0]));
        let j = choose|j: int| 0 <= j < b.len() && b[j] == a[0];
        let i = choose|i: int| 0 <= i < a.len() && a[i] == b[0];
        if j > 0 {
            lemma_sub_lt_strict_total(b[0], b[j], b[0]);
            if i > 0 {
                lemma_sub_lt_strict_total(a[0], a[i], a[0]);
            }
        }
        assert(a[0] == b[0]);
        let a1 = a.drop_first();
        let b1 = b.drop_first();
        lemma_sorted_distinct(a);
        lemma_sorted_distinct(b);
        assert forall|x: SubscriptionView|
            #![trigger a1.contains(x)]
            #![trigger b1.contains(x)]
            a1.contains(x) <==> b1.contains(x) by {
            if a1.contains(x) {
                let p = choose|p: int| 0 <= p < a1.len() && a1[p] == x;
                assert(a[p + 1] == x);
                assert(a.contains(x));
                let q = choose|q: int| 0 <= q < b.len() && b[q] == x;
                if q == 0 {
                    assert(a[0] == a[p + 1]);
                }
                assert(b1[q - 1] == x);
            }
            if b1.contains(x) {
                let p = choose|p: int| 0 <= p < b1.len() && b1[p] == x;
                assert(b[p + 1] == x);
                assert(b.contains(x));
                let q = choose|q: int| 0 <= q < a.len() && a[q] == x;
                if q == 0 {
                    assert(b[0] == b[p + 1]);
                }
                assert(a1[q - 1] == x);
            }
        }
        assert forall|i: int, j: int| 0 <= i < j < a1.len() implies sub_lt(#[trigger] a1[i], #[trigger] a1[j]) by {
            assert(a1[i] == a[i + 1] && a1[j] == a[j + 1]);
        }
        assert forall|i: int, j: int| 0 <= i < j < b1.len() implies sub_lt(#[trigger] b1[i], #[trigger] b1[j]) by {
            assert(b1[i] == b[i + 1] && b1[j] == b[j + 1]);
        }
        lemma_delivery_order_unique(a1, b1);
        assert(a =~= b) by {
            assert forall|k: int| 0 <= k < a.len() implies a[k] == b[k] by {
                if k > 0 {
                    assert(a[k] == a1[k - 1]);
                    assert(b[k] == b1[k - 1]);
                }
            }
        }
    }
}

/// Of three subscriptions matching a topic, one of priority 10 and two of
/// priority 5, the higher priority comes first and the two others follow in
/// the order of their patterns.
pub proof fn lemma_priority_then_pattern_order(
    h1: SubscriptionView,
    h2: SubscriptionView,
    h3: SubscriptionView,
    list: Seq<SubscriptionView>,
)
    requires
        h1.priority == 5,
        h2.priority == 10,
        h3.priority == 5,
        crate::subscription::bytes_lt(h3.pattern, h1.pattern),
        strictly_sorted(list),
        forall|x: SubscriptionView| #[trigger] list.contains(x) <==> x == h1 || x == h2 || x == h3,
    ensures
        list == seq![h2, h3, h1],
{
    let expected = seq![h2, h3, h1];
    assert(sub_lt(h2, h3));
    assert(sub_lt(h3, h1));
    assert(sub_lt(h2, h1));
    assert forall|x: SubscriptionView| #[trigger] expected.contains(x) <==> list.contains(x) by {
        if x == h2 {
            assert(expected[0] == x);
        }
        if x == h3 {
            assert(expected[1] == x);
        }
        if x == h1 {
            assert(expected[2] == x);
        }
    }
    lemma_delivery_order_unique(list, expected);
}

} // verus!
