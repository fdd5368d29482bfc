//! A registry of actors keyed by identifier. Access to an actor goes through
//! the registry, so an exclusive borrow of one is checked by the compiler
//! rather than promised by the caller.
use vstd::prelude::*;
use vstd::string::StringSliceAdditionalSpecFns;

use crate::identifiers::intern;
use crate::subscription::bytes_equal;

verus! {

pub struct ActorEntry<A> {
    pub id: &'static str,
    pub actor: A,
}

pub struct ActorRegistry<A> {
    pub(crate) actors: Vec<ActorEntry<A>>,
}

impl<A> ActorRegistry<A> {
    /// The identifiers and actors, in order of first registration.
    pub open(crate) spec fn entries(&self) -> Seq<(Seq<u8>, A)> {
        self.actors@.map_values(|e: ActorEntry<A>| (e.id.spec_bytes(), e.actor))
    }

    /// No identifier is registered twice.
    pub open(crate) spec fn wf(&self) -> bool {
        forall|i: int, j: int|
            0 <= i < j < self.actors@.len() ==> #[trigger] self.actors@[i].id.spec_bytes()
                != #[trigger] self.actors@[j].id.spec_bytes()
    }

    /// Some actor is registered under `id`.
    pub open(crate) spec fn spec_contains(&self, id: Seq<u8>) -> bool {
        exists|k: int| 0 <= k < self.entries().len() && (#[trigger] self.entries()[k]).0 == id
    }

    pub fn new() -> (r: Self)
        ensures
            r.wf(),
            r.entries().len() == 0,
    {
        ActorRegistry { actors: Vec::new() }
    }

    fn position(&self, id: &str) -> (r: Option<usize>)
        ensures
            r is Some ==> r->Some_0 < self.entries().len() && self.entries()[r->Some_0 as int].0 == id.spec_bytes(),
            r is None ==> !self.spec_contains(id.spec_bytes()),
    {
        let mut i: usize = 0;
        while i < self.actors.len()
            invariant
                i <= self.actors@.len(),
                forall|k: int| 0 <= k < i ==> (#[trigger] self.entries()[k]).0 != id.spec_bytes(),
            decreases self.actors@.len() - i,
        {
            if bytes_equal(self.actors[i].id.as_bytes(), id.as_bytes()) {
                return Some(i);
            }
            i += 1;
        }
        None
    }

    /// Registers `actor` under `id`, replacing (in place) an actor already
    /// registered under it.
    pub fn insert(&mut self, id: &str, actor: A)
        requires
            old(self).wf(),
        ensures
            final(self).wf(),
            forall|k: int| 0 <= k < old(self).entries().len() && (#[trigger] old(self).entries()[k]).0 == id.spec_bytes()
                ==> final(self).entries() == old(self).entries().update(k, (id.spec_bytes(), actor)),
            !old(self).spec_contains(id.spec_bytes()) ==> final(self).entries() == old(self).entries().push(
                (id.spec_bytes(), actor),
            ),
    {
        let ghost before = self.actors@;
        match self.position(id) {
            Some(k) => {
                let key = self.actors[k].id;
                self.actors.set(k, ActorEntry { id: key, actor });
                proof {
                    assert(self.entries() =~= old(self).entries().update(k as int, (id.spec_bytes(), actor)));
                    assert forall|i: int, j: int| 0 <= i < j < self.actors@.len() implies #[trigger] self.actors@[i].id.spec_bytes()
                        != #[trigger] self.actors@[j].id.spec_bytes() by {
                        assert(old(self).entries()[i].0 == before[i].id.spec_bytes());
                        assert(old(self).entries()[j].0 == before[j].id.spec_bytes());
                    }
                    assert forall|q: int| 0 <= q < old(self).entries().len() && old(self).entries()[q].0 == id.spec_bytes()
                        implies q == k by {
                        assert(old(self).entries()[q].0 == before[q].id.spec_bytes());
                        assert(old(self).entries()[k as int].0 == before[k as int].id.spec_bytes());
                    }
                }
            },
            None => {
                self.actors.push(ActorEntry { id: intern(id), actor });
                proof {
                    assert(self.entries() =~= old(self).entries().push((id.spec_bytes(), actor)));
                    assert forall|i: int, j: int| 0 <= i < j < self.actors@.len() implies #[trigger] self.actors@[i].id.spec_bytes()
                        != #[trigger] self.actors@[j].id.spec_bytes() by {
                        if j == before.len() {
                            assert(old(self).entries()[i].0 == before[i].id.spec_bytes());
                        }
                    }
                }
            },
        }
    }

    /// The actor registered under `id`, if any.
    pub fn get(&self, id: &str) -> (r: Option<&A>)
        ensures
            r is Some <==> self.spec_contains(id.spec_bytes()),
            r is Some ==> exists|k: int|
                0 <= k < self.entries().len() && #[trigger] self.entries()[k] == (id.spec_bytes(), *r->Some_0),
    {
        match self.position(id) {
            Some(k) => Some(&self.actors[k].actor),
            None => None,
        }
    }

    /// Exclusive access to the actor registered under `id`, which must be there.
    pub fn get_mut(&mut self, id: &str) -> (r: &mut A)
        requires
            old(self).spec_contains(id.spec_bytes()),
        ensures
            exists|k: int|
                0 <= k < old(self).entries().len() && old(self).entries()[k] == (id.spec_bytes(), *r)
                    && final(self).entries() == old(self).entries().update(k, (id.spec_bytes(), *final(r))),
    {
        let k = match self.position(id) {
            Some(k) => k,
            None => {
                proof {
                    assert(false);
                }
                0
            },
        };
        &mut self.actors[k].actor
    }

    /// The number of registered actors.
    pub fn len(&self) -> (r: usize)
        ensures
            r == self.entries().len(),
    {
        self.actors.len()
    }

    pub fn is_empty(&self) -> (r: bool)
        ensures
            r == (self.entries().len() == 0),
    {
        self.actors.len() == 0
    }

    /// Removes and returns the actor registered under `id`, keeping the order
    /// of the others.
    pub fn remove(&mut self, id: &str) -> (r: Option<A>)
        requires
            old(self).wf(),
        ensures
            final(self).wf(),
            r is None <==> !old(self).spec_contains(id.spec_bytes()),
            r is None ==> final(self).entries() == old(self).entries(),
            r is Some ==> exists|k: int|
                0 <= k < old(self).entries().len() && old(self).entries()[k] == (id.spec_bytes(), r->Some_0)
                    && final(self).entries() == old(self).entries().remove(k),
            !final(self).spec_contains(id.spec_bytes()),
    {
        let ghost before = self.actors@;
        match self.position(id) {
            Some(k) => {
                let entry = self.actors.remove(k);
                proof {
                    assert(self.entries() =~= old(self).entries().remove(k as int));
                    assert forall|i: int, j: int| 0 <= i < j < self.actors@.len() implies #[trigger] self.actors@[i].id.spec_bytes()
                        != #[trigger] self.actors@[j].id.spec_bytes() by {
                        let a = if i < k { i } else { i + 1 };
                        let b = if j < k { j } else { j + 1 };
                        assert(self.actors@[i] == before[a]);
                        assert(self.actors@[j] == before[b]);
                    }
                    if self.spec_contains(id.spec_bytes()) {
                        let q = choose|q: int| 0 <= q < self.entries().len() && (#[trigger] self.entries()[q]).0 == id.spec_bytes();
                        let p = if q < k { q } else { q + 1 };
                        assert(self.actors@[q] == before[p]);
                        assert(old(self).entries()[k as int].0 == before[k as int].id.spec_bytes());
                    }
                }
                Some(entry.actor)
            },
            None => None,
        }
    }

    /// Whether an actor is registered under `id`.
    pub fn contains(&self, id: &str) -> (r: bool)
        ensures
            r == self.spec_contains(id.spec_bytes()),
    {
        self.position(id).is_some()
    }

    /// Removes every actor.
    pub fn clear(&mut self)
        ensures
            final(self).wf(),
            final(self).entries().len() == 0,
    {
        self.actors.clear();
    }
}

/// Registers `actor` under `id` in `registry`.
pub fn register_actor<A>(registry: &mut ActorRegistry<A>, id: &str, actor: A)
    requires
        old(registry).wf(),
    ensures
        final(registry).wf(),
        final(registry).spec_contains(id.spec_bytes()),
        forall|k: int| 0 <= k < old(registry).entries().len() && (#[trigger] old(registry).entries()[k]).0 == id.spec_bytes()
            ==> final(registry).entries() == old(registry).entries().update(k, (id.spec_bytes(), actor)),
        !old(registry).spec_contains(id.spec_bytes()) ==> final(registry).entries() == old(registry).entries().push(
            (id.spec_bytes(), actor),
        ),
{
    registry.insert(id, actor);
    proof {
        if old(registry).spec_contains(id.spec_bytes()) {
            let k = choose|k: int| 0 <= k < old(registry).entries().len() && (#[trigger] old(registry).entries()[k]).0 == id.spec_bytes();
            assert(registry.entries()[k].0 == id.spec_bytes());
        } else {
            assert(registry.entries()[old(registry).entries().len() as int].0 == id.spec_bytes());
        }
    }
}

/// The actor registered under `id`, if any.
pub fn get_actor<'a, A>(registry: &'a ActorRegistry<A>, id: &str) -> (r: Option<&'a A>)
    ensures
        r is Some <==> registry.spec_contains(id.spec_bytes()),
        r is Some ==> exists|k: int|
            0 <= k < registry.entries().len() && #[trigger] registry.entries()[k] == (id.spec_bytes(), *r->Some_0),
{
    registry.get(id)
}

/// Exclusive access to the actor registered under `id`, which must be there.
pub fn get_actor_unchecked<'a, A>(registry: &'a mut ActorRegistry<A>, id: &str) -> (r: &'a mut A)
    requires
        old(registry).spec_contains(id.spec_bytes()),
    ensures
        exists|k: int|
            0 <= k < old(registry).entries().len() && old(registry).entries()[k] == (id.spec_bytes(), *r)
                && final(registry).entries() == old(registry).entries().update(k, (id.spec_bytes(), *final(r))),
{
    registry.get_mut(id)
}

/// Whether an actor is registered under `id`.
pub fn actor_exists<A>(registry: &ActorRegistry<A>, id: &str) -> (r: bool)
    ensures
        r == registry.spec_contains(id.spec_bytes()),
{
    registry.contains(id)
}

/// The number of registered actors.
pub fn actor_count<A>(registry: &ActorRegistry<A>) -> (r: usize)
    ensures
        r == registry.entries().len(),
{
    registry.len()
}

/// Removes every actor from `registry`.
pub fn clear_actor_registry<A>(registry: &mut ActorRegistry<A>)
    ensures
        final(registry).wf(),
        final(registry).entries().len() == 0,
{
    registry.clear();
}

/// Exclusive access to the actor registered under `id`, or `None` when there
/// is none.
pub fn try_get_actor_unchecked<'a, A>(registry: &'a mut ActorRegistry<A>, id: &str) -> (r: Option<&'a mut A>)
    ensures
        r is None <==> !old(registry).spec_contains(id.spec_bytes()),
        r is None ==> final(registry).entries() == old(registry).entries(),
        r is Some ==> exists|k: int|
            0 <= k < old(registry).entries().len() && old(registry).entries()[k] == (id.spec_bytes(), *r->Some_0)
                && final(registry).entries() == old(registry).entries().update(k, (id.spec_bytes(), *final(r->Some_0))),
{
    if registry.contains(id) {
        Some(registry.get_mut(id))
    } else {
        None
    }
}

} // verus!
