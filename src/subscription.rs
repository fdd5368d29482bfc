//! Subscriptions and their delivery order: higher priority first, then the
//! pattern, then the handler identifier, both compared byte by byte.
use vstd::prelude::*;
use vstd::string::StringSliceAdditionalSpecFns;

use crate::handler::ShareableMessageHandler;
use crate::identifiers::{MStr, Pattern};

verus! {

/// What a subscription is to the bus.
pub struct SubscriptionView {
    pub priority: u8,
    pub pattern: Seq<u8>,
    pub handler_id: Seq<u8>,
}

/// A handler subscribed to a pattern with a priority (0 unless given).
pub struct Subscription<H> {
    pub handler: ShareableMessageHandler<H>,
    pub handler_id: &'static str,
    pub pattern: MStr<Pattern>,
    pub priority: u8,
}

impl<H> View for Subscription<H> {
    type V = SubscriptionView;

    open spec fn view(&self) -> SubscriptionView {
        SubscriptionView {
            priority: self.priority,
            pattern: self.pattern@,
            handler_id: self.handler_id.spec_bytes(),
        }
    }
}

/// Two subscriptions are the same subscription when pattern and handler agree.
pub open spec fn same_key(a: SubscriptionView, b: SubscriptionView) -> bool {
    a.pattern == b.pattern && a.handler_id == b.handler_id
}

/// Byte-wise lexicographic order from position `i` on, `a` and `b` agreeing before it.
pub open spec fn lex_lt_from(a: Seq<u8>, b: Seq<u8>, i: int) -> bool
    decreases a.len() - i,
{
    if i < 0 {
        false
    } else if i >= a.len() {
        i < b.len()
    } else if i >= b.len() {
        false
    } else if a[i] != b[i] {
        a[i] < b[i]
    } else {
        lex_lt_from(a, b, i + 1)
    }
}

/// The order of `str`: byte-wise lexicographic.
pub open spec fn bytes_lt(a: Seq<u8>, b: Seq<u8>) -> bool {
    lex_lt_from(a, b, 0)
}

/// `a` is delivered before `b`.
pub open spec fn sub_lt(a: SubscriptionView, b: SubscriptionView) -> bool {
    a.priority > b.priority || (a.priority == b.priority && (bytes_lt(a.pattern, b.pattern) || (
    a.pattern == b.pattern && bytes_lt(a.handler_id, b.handler_id))))
}

pub open spec fn strictly_sorted(s: Seq<SubscriptionView>) -> bool {
    forall|i: int, j: int| 0 <= i < j < s.len() ==> sub_lt(#[trigger] s[i], #[trigger] s[j])
}

pub open spec fn views<H>(s: Seq<Subscription<H>>) -> Seq<SubscriptionView> {
    s.map_values(|x: Subscription<H>| x@)
}

proof fn lemma_lex_irreflexive(a: Seq<u8>, i: int)
    ensures
        !lex_lt_from(a, a, i),
    decreases a.len() - i,
{
    if 0 <= i < a.len() {
        lemma_lex_irreflexive(a, i + 1);
    }
}

proof fn lemma_lex_asymmetric(a: Seq<u8>, b: Seq<u8>, i: int)
    requires
        lex_lt_from(a, b, i),
    ensures
        !lex_lt_from(b, a, i),
    decreases a.len() - i,
{
    if 0 <= i < a.len() && i < b.len() && a[i] == b[i] {
        lemma_lex_asymmetric(a, b, i + 1);
    }
}

proof fn lemma_lex_transitive(a: Seq<u8>, b: Seq<u8>, c: Seq<u8>, i: int)
    requires
        lex_lt_from(a, b, i),
        lex_lt_from(b, c, i),
    ensures
        lex_lt_from(a, c, i),
    decreases a.len() - i,
{
    if 0 <= i < a.len() && i < b.len() && i < c.len() && a[i] == b[i] && b[i] == c[i] {
        lemma_lex_transitive(a, b, c, i + 1);
    }
}

proof fn lemma_lex_total(a: Seq<u8>, b: Seq<u8>, i: int)
    requires
        0 <= i <= a.len(),
        i <= b.len(),
        a.subrange(0, i) == b.subrange(0, i),
        !lex_lt_from(a, b, i),
        !lex_lt_from(b, a, i),
    ensures
        a == b,
    decreases a.len() - i,
{
    if i >= a.len() || i >= b.len() {
        assert(a =~= a.subrange(0, i));
        assert(b =~= b.subrange(0, i));
    } else {
        assert(a.subrange(0, i + 1) =~= a.subrange(0, i).push(a[i]));
        assert(b.subrange(0, i + 1) =~= b.subrange(0, i).push(b[i]));
        lemma_lex_total(a, b, i + 1);
    }
}

/// Delivery order is a strict total order on subscriptions.
pub proof fn lemma_sub_lt_strict_total(a: SubscriptionView, b: SubscriptionView, c: SubscriptionView)
    ensures
        !sub_lt(a, a),
        sub_lt(a, b) ==> !sub_lt(b, a),
        sub_lt(a, b) && sub_lt(b, c) ==> sub_lt(a, c),
        a != b ==> sub_lt(a, b) || sub_lt(b, a),
{
    lemma_lex_irreflexive(a.pattern, 0);
    lemma_lex_irreflexive(a.handler_id, 0);
    if bytes_lt(a.pattern, b.pattern) {
        lemma_lex_asymmetric(a.pattern, b.pattern, 0);
    }
    if bytes_lt(b.pattern, a.pattern) {
        lemma_lex_asymmetric(b.pattern, a.pattern, 0);
    }
    if bytes_lt(a.handler_id, b.handler_id) {
        lemma_lex_asymmetric(a.handler_id, b.handler_id, 0);
    }
    if bytes_lt(a.pattern, b.pattern) && bytes_lt(b.pattern, c.pattern) {
        lemma_lex_transitive(a.pattern, b.pattern, c.pattern, 0);
    }
    if bytes_lt(a.handler_id, b.handler_id) && bytes_lt(b.handler_id, c.handler_id) {
        lemma_lex_transitive(a.handler_id, b.handler_id, c.handler_id, 0);
    }
    assert(a.pattern.subrange(0, 0) =~= b.pattern.subrange(0, 0));
    assert(a.handler_id.subrange(0, 0) =~= b.handler_id.subrange(0, 0));
    if !bytes_lt(a.pattern, b.pattern) && !bytes_lt(b.pattern, a.pattern) {
        lemma_lex_total(a.pattern, b.pattern, 0);
    }
    if !bytes_lt(a.handler_id, b.handler_id) && !bytes_lt(b.handler_id, a.handler_id) {
        lemma_lex_total(a.handler_id, b.handler_id, 0);
    }
}

/// Whether `a` sorts before `b` byte-wise.
pub fn bytes_less(a: &[u8], b: &[u8]) -> (r: bool)
    ensures
        r == bytes_lt(a@, b@),
{
    let mut i: usize = 0;
    while i < a.len() && i < b.len()
        invariant
            i <= a@.len(),
            i <= b@.len(),
            lex_lt_from(a@, b@, 0) == lex_lt_from(a@, b@, i as int),
        decreases a@.len() - i,
    {
        if a[i] != b[i] {
            return a[i] < b[i];
        }
        i += 1;
    }
    i < b.len()
}

/// Whether `a` and `b` hold the same bytes.
pub fn bytes_equal(a: &[u8], b: &[u8]) -> (r: bool)
    ensures
        r == (a@ == b@),
{
    if a.len() != b.len() {
        return false;
    }
    let mut i: usize = 0;
    while i < a.len()
        invariant
            a@.len() == b@.len(),
            i <= a@.len(),
            forall|j: int| 0 <= j < i ==> a@[j] == b@[j],
        decreases a@.len() - i,
    {
        if a[i] != b[i] {
            return false;
        }
        i += 1;
    }
    assert(a@ =~= b@);
    true
}

impl<H> Subscription<H> {
    /// Subscribes `handler` to `pattern` with `priority`, or 0 when none is given.
    pub fn new(pattern: MStr<Pattern>, handler: ShareableMessageHandler<H>, priority: Option<u8>) -> (r:
        Self)
        ensures
            r@ == (SubscriptionView {
                priority: match priority {
                    Some(p) => p,
                    None => 0,
                },
                pattern: pattern@,
                handler_id: handler.spec_id(),
            }),
            r.handler.spec_id() == handler.spec_id(),
    {
        let p = match priority {
            Some(p) => p,
            None => 0,
        };
        Subscription { handler_id: handler.id(), handler, pattern, priority: p }
    }

    /// Whether `self` and `other` are the same subscription.
    pub fn same_subscription(&self, other: &Subscription<H>) -> (r: bool)
        ensures
            r == same_key(self@, other@),
    {
        bytes_equal(self.pattern.as_bytes(), other.pattern.as_bytes()) && bytes_equal(
            self.handler_id.as_bytes(),
            other.handler_id.as_bytes(),
        )
    }

    /// Whether `self` is delivered before `other`.
    pub fn precedes(&self, other: &Subscription<H>) -> (r: bool)
        ensures
            r == sub_lt(self@, other@),
    {
        if self.priority != other.priority {
            return self.priority > other.priority;
        }
        let p = self.pattern.as_bytes();
        let q = other.pattern.as_bytes();
        if bytes_less(p, q) {
            return true;
        }
        if !bytes_equal(p, q) {
            return false;
        }
        bytes_less(self.handler_id.as_bytes(), other.handler_id.as_bytes())
    }
}

impl<H> PartialEq for Subscription<H> {
    /// Same pattern and same handler, whatever the priorities.
    fn eq(&self, other: &Subscription<H>) -> (r: bool) {
        self.same_subscription(other)
    }
}

impl<H> vstd::std_specs::cmp::PartialEqSpecImpl for Subscription<H> {
    open spec fn obeys_eq_spec() -> bool {
        true
    }

    open spec fn eq_spec(&self, other: &Subscription<H>) -> bool {
        same_key(self@, other@)
    }
}

impl<H> Eq for Subscription<H> {

}

impl<H: Clone> Clone for Subscription<H> {
    fn clone(&self) -> (r: Self)
        ensures
            r@ == self@,
            r.handler.spec_id() == self.handler.spec_id(),
    {
        Subscription {
            handler: self.handler.clone(),
            handler_id: self.handler_id,
            pattern: self.pattern,
            priority: self.priority,
        }
    }
}

/// The position of the subscription `key` is the same subscription as, if any.
pub fn position_of<H>(subs: &Vec<Subscription<H>>, key: &Subscription<H>) -> (r: Option<usize>)
    ensures
        r is Some ==> r->Some_0 < subs@.len() && same_key(subs@[r->Some_0 as int]@, key@),
        r is None ==> forall|k: int| 0 <= k < subs@.len() ==> !same_key(#[trigger] subs@[k]@, key@),
{
    let mut i: usize = 0;
    while i < subs.len()
        invariant
            i <= subs@.len(),
            forall|k: int| 0 <= k < i ==> !same_key(#[trigger] subs@[k]@, key@),
        decreases subs@.len() - i,
    {
        if subs[i].same_subscription(key) {
            return Some(i);
        }
        i += 1;
    }
    None
}

/// Inserts `sub` into `subs`, which is kept in strict delivery order.
pub fn insert_sorted<H>(subs: &mut Vec<Subscription<H>>, sub: Subscription<H>)
    requires
        strictly_sorted(views(old(subs)@)),
        !views(old(subs)@).contains(sub@),
    ensures
        strictly_sorted(views(final(subs)@)),
        exists|k: int| 0 <= k <= old(subs)@.len() && final(subs)@ == old(subs)@.insert(k, sub),
{
    let ghost old_subs = subs@;
    let mut k: usize = 0;
    while k < subs.len() && !sub.precedes(&subs[k])
        invariant
            subs@ == old_subs,
            k <= subs@.len(),
            strictly_sorted(views(old_subs)),
            !views(old_subs).contains(sub@),
            forall|j: int| 0 <= j < k ==> sub_lt(#[trigger] subs@[j]@, sub@),
        decreases subs@.len() - k,
    {
        proof {
            lemma_sub_lt_strict_total(sub@, subs@[k as int]@, sub@);
            assert(views(old_subs)[k as int] == subs@[k as int]@);
            if sub@ == subs@[k as int]@ {
                assert(views(old_subs).contains(sub@));
            }
        }
        k += 1;
    }
    subs.insert(k, sub);
    proof {
        let s = views(subs@);
        let o = views(old_subs);
        assert forall|i: int, j: int| 0 <= i < j < s.len() implies sub_lt(#[trigger] s[i], #[trigger] s[j]) by {
            assert(s[i] == subs@[i]@);
            assert(s[j] == subs@[j]@);
            if j < k {
                assert(o[i] == old_subs[i]@);
                assert(o[j] == old_subs[j]@);
            } else if j == k {
            } else if i < k {
                assert(o[j - 1] == old_subs[j - 1]@);
                assert(subs@[i]@ == old_subs[i]@);
                if k < old_subs.len() {
                    assert(o[k as int] == old_subs[k as int]@);
                    if (k as int) < j - 1 {
                        lemma_sub_lt_strict_total(old_subs[i]@, sub@, old_subs[k as int]@);
                        lemma_sub_lt_strict_total(old_subs[i]@, old_subs[k as int]@, old_subs[j - 1]@);
                    } else {
                        lemma_sub_lt_strict_total(old_subs[i]@, sub@, old_subs[j - 1]@);
                    }
                }
            } else if i == k {
                assert(o[j - 1] == old_subs[j - 1]@);
                assert(o[k as int] == old_subs[k as int]@);
                if (k as int) < j - 1 {
                    lemma_sub_lt_strict_total(sub@, old_subs[k as int]@, old_subs[j - 1]@);
                }
            } else {
                assert(o[i - 1] == old_subs[i - 1]@);
                assert(o[j - 1] == old_subs[j - 1]@);
            }
        }
        assert(subs@ == old_subs.insert(k as int, sub));
    }
}

} // verus!
