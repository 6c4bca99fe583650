//! Entities that know the space they are in.
//!
//! A space owns its entities; an entity holds a link back to its space. The
//! space lets an entity go when it is asked for the one a given link leads
//! to: what counts is which entity it is, not what it holds.
//!
//! Which entity it is, is its place in its heap. A space whose entities are
//! all of one heap names each of them once, and stays so as long as what it
//! takes over comes from that heap: then a link leads to one entity of the
//! space at most, and an entity that has left is not found again.

use vstd::prelude::*;
use std::collections::VecDeque;
use crate::entities::grenade::Grenade;
use crate::links::{Heap, Link, Owned, Slot};

pub mod grenade;
pub mod presets;

verus! {

/// Whether `i` is the first place at which `members` names `id`.
pub open spec fn is_first_at(members: Seq<nat>, id: nat, i: int) -> bool {
    &&& 0 <= i < members.len()
    &&& members[i] == id
    &&& forall|j: int| 0 <= j < i ==> members[j] != id
}

/// The first place at which `members` names `id`, where it does.
pub open spec fn first_at(members: Seq<nat>, id: nat) -> int {
    choose|i: int| is_first_at(members, id, i)
}

/// What `members` is without the first naming of what `tore` leads to; the
/// same where the link leads nowhere or to nothing in `members`.
pub open spec fn without<Obj>(members: Seq<nat>, tore: Link<Obj>) -> Seq<nat> {
    match tore.target() {
        Some(id) => if members.contains(id) {
            members.remove(first_at(members, id))
        } else {
            members
        },
        None => members,
    }
}

/// Only one place is the first.
pub proof fn lemma_first_at_unique(members: Seq<nat>, id: nat, i: int)
    requires
        is_first_at(members, id, i),
    ensures
        first_at(members, id) == i,
        members.contains(id),
{
    let k = first_at(members, id);
    assert(is_first_at(members, id, k));
}

/// What is named at all is named at a first place.
pub proof fn lemma_first_at_exists(members: Seq<nat>, id: nat, n: int)
    requires
        0 <= n < members.len(),
        members[n] == id,
    ensures
        is_first_at(members, id, first_at(members, id)),
    decreases n,
{
    if exists|j: int| 0 <= j < n && members[j] == id {
        let j = choose|j: int| 0 <= j < n && members[j] == id;
        lemma_first_at_exists(members, id, j);
    } else {
        assert(is_first_at(members, id, n));
    }
}

/// Whether `members` names no entity twice.
pub open spec fn distinct(members: Seq<nat>) -> bool {
    forall|i: int, j: int| 0 <= i < j < members.len() ==> members[i] != members[j]
}

/// Whether every entity that `members` names has its place among the first
/// `count` places of a heap.
pub open spec fn housed(members: Seq<nat>, count: nat) -> bool {
    forall|i: int| 0 <= i < members.len() ==> members[i] < count
}

/// Entities that are named once each are still named once each when one
/// joins them that was not named before.
pub proof fn lemma_push_distinct(members: Seq<nat>, id: nat)
    requires
        distinct(members),
        !members.contains(id),
    ensures
        distinct(members.push(id)),
{
    let more = members.push(id);
    assert forall|i: int, j: int| 0 <= i < j < more.len() implies more[i] != more[j] by {
        if j == members.len() {
            assert(members[i] == more[i]);
            assert(members.contains(more[i]));
        }
    }
}

/// A heap's next place is the place of none of the entities that are housed
/// in the heap, and they are all housed in the heap once it has grown.
pub proof fn lemma_housed_push(members: Seq<nat>, count: nat)
    requires
        housed(members, count),
    ensures
        !members.contains(count),
        housed(members.push(count), count + 1),
{
    if members.contains(count) {
        let i = choose|i: int| 0 <= i < members.len() && members[i] == count;
        assert(members[i] < count);
    }
}

/// Letting go of an entity brings in none from elsewhere: the entities that
/// stay are housed where they were.
pub proof fn lemma_without_housed<Obj>(members: Seq<nat>, tore: Link<Obj>, count: nat)
    requires
        housed(members, count),
    ensures
        housed(without(members, tore), count),
{
    let rest = without(members, tore);
    if rest != members {
        let id = tore.target().unwrap();
        let n = choose|n: int| 0 <= n < members.len() && members[n] == id;
        lemma_first_at_exists(members, id, n);
        let k = first_at(members, id);
        assert forall|i: int| 0 <= i < rest.len() implies rest[i] < count by {
            let before = if i < k {
                i
            } else {
                i + 1
            };
            assert(rest[i] == members[before]);
        }
    }
}

/// Where no entity is named twice, letting go of the one that a link leads
/// to takes out just that one: the others stay, in their order, each still
/// named once, and the one that left is named no more. Asking for it again
/// changes nothing.
pub proof fn lemma_without_distinct<Obj>(members: Seq<nat>, tore: Link<Obj>)
    requires
        distinct(members),
    ensures
        distinct(without(members, tore)),
        tore.target() matches Some(id) ==> !without(members, tore).contains(id),
        without(without(members, tore), tore) == without(members, tore),
        forall|i: int|
            0 <= i < members.len() && Some(#[trigger] members[i]) == tore.target() ==> without(
                members,
                tore,
            ) == members.remove(i),
{
    let rest = without(members, tore);
    if let Some(id) = tore.target() {
        if members.contains(id) {
            let n = choose|n: int| 0 <= n < members.len() && members[n] == id;
            lemma_first_at_exists(members, id, n);
            let k = first_at(members, id);
            assert forall|i: int| 0 <= i < members.len() && members[i] == id implies i == k by {
                if i < k {
                    assert(members[i] != members[k]);
                }
                if k < i {
                    assert(members[k] != members[i]);
                }
            }
            assert forall|i: int, j: int| 0 <= i < j < rest.len() implies rest[i] != rest[j] by {
                let before_i = if i < k {
                    i
                } else {
                    i + 1
                };
                let before_j = if j < k {
                    j
                } else {
                    j + 1
                };
                assert(rest[i] == members[before_i]);
                assert(rest[j] == members[before_j]);
            }
            if rest.contains(id) {
                let i = choose|i: int| 0 <= i < rest.len() && rest[i] == id;
                let before = if i < k {
                    i
                } else {
                    i + 1
                };
                assert(rest[i] == members[before]);
            }
        }
    }
}

/// Something that owns entities of kind `Obj`.
pub trait Container<Obj> {
    /// The entities of kind `Obj` that the container owns, each named by its
    /// place in the heap, in the order in which they came.
    spec fn members(&self) -> Seq<nat>;

    /// Takes over an entity. The entities stay named once each where the
    /// new one was not among them.
    fn add_entity(&mut self, toad: Owned<Obj>)
        ensures
            final(self).members() == old(self).members().push(toad.id()),
            distinct(old(self).members()) && !old(self).members().contains(toad.id())
                ==> distinct(final(self).members()),
    ;

    /// Lets go of the entity that `tore` leads to and hands it back, if the
    /// container owns it. That it does not is no fault: it may have let the
    /// entity go before. Where no entity was named twice, the one that left
    /// is named no more, so that asking for it again finds nothing.
    fn remove_entity(&mut self, tore: &Link<Obj>) -> (removed: Option<Owned<Obj>>)
        ensures
            final(self).members() == without(old(self).members(), *tore),
            removed matches Some(owned) ==> Some(owned.id()) == tore.target() && old(
                self,
            ).members().contains(owned.id()),
            removed.is_none() ==> !(tore.target() matches Some(id) && old(
                self,
            ).members().contains(id)),
            removed.is_none() ==> final(self).members() == old(self).members(),
            distinct(old(self).members()) ==> distinct(final(self).members()) && !(
            tore.target() matches Some(id) && final(self).members().contains(id)),
    ;

    /// Puts a value into the heap, takes it over, and hands back a link to
    /// it that can be used at once. A container whose entities are all of
    /// that heap, and named once each, stays so.
    fn add_value(&mut self, heap: &mut Heap<Obj>, toad: Obj) -> (link: Link<Obj>)
        ensures
            link.target() == Some(old(heap)@.len()),
            final(heap)@ == old(heap)@.push(Slot::fresh(toad)),
            final(self).members() == old(self).members().push(old(heap)@.len()),
            distinct(old(self).members()) && housed(old(self).members(), old(heap)@.len())
                ==> distinct(final(self).members()) && housed(
                final(self).members(),
                final(heap)@.len(),
            ),
    {
        proof {
            if housed(self.members(), heap@.len()) {
                lemma_housed_push(self.members(), heap@.len());
            }
        }
        let toad = Owned::new(heap, toad);
        let result = toad.share();
        self.add_entity(toad);
        result
    }
}

/// A space of grenades.
pub struct Space {
    pub nades: VecDeque<Owned<Grenade>>,
}

impl Container<Grenade> for Space {
    open spec fn members(&self) -> Seq<nat> {
        self.nades@.map_values(|owned: Owned<Grenade>| owned.id())
    }

    fn add_entity(&mut self, toad: Owned<Grenade>)
        ensures
            final(self).nades@ == old(self).nades@.push(toad),
    {
        proof {
            if distinct(self.members()) && !self.members().contains(toad.id()) {
                lemma_push_distinct(self.members(), toad.id());
            }
        }
        self.nades.push_back(toad);
        assert(self.members() == old(self).members().push(toad.id()));
    }

    fn remove_entity(&mut self, tore: &Link<Grenade>) -> (removed: Option<Owned<Grenade>>)
        ensures
            removed.is_none() ==> final(self).nades@ == old(self).nades@,
            removed matches Some(owned) ==> {
                let at = first_at(old(self).members(), owned.id());
                &&& is_first_at(old(self).members(), owned.id(), at)
                &&& old(self).nades@[at] == owned
                &&& final(self).nades@ == old(self).nades@.remove(at)
            },
    {
        proof {
            if distinct(self.members()) {
                lemma_without_distinct(self.members(), *tore);
            }
        }
        let mut result: Option<usize> = None;
        let mut i: usize = 0;
        while i < self.nades.len()
            invariant_except_break
                i <= self.nades.len(),
                result.is_none(),
                forall|j: int| 0 <= j < i ==> Some(self.members()[j]) != tore.target(),
            invariant
                *self == *old(self),
            ensures
                *self == *old(self),
                result matches Some(at) ==> tore.target() matches Some(id) && is_first_at(
                    self.members(),
                    id,
                    at as int,
                ),
                result.is_none() ==> forall|j: int|
                    0 <= j < self.members().len() ==> Some(self.members()[j]) != tore.target(),
            decreases self.nades.len() - i,
        {
            if self.nades[i].is(tore) {
                result = Some(i);
                break ;
            }
            i = i + 1;
        }
        match result {
            Some(at) => {
                proof {
                    lemma_first_at_unique(self.members(), tore.target().unwrap(), at as int);
                }
                let removed = self.nades.remove(at);
                assert(self.members() == old(self).members().remove(at as int));
                assert(is_first_at(old(self).members(), tore.target().unwrap(), at as int));
                removed
            },
            None => {
                proof {
                    if let Some(id) = tore.target() {
                        if self.members().contains(id) {
                            let j = choose|j: int|
                                0 <= j < self.members().len() && self.members()[j] == id;
                            assert(Some(self.members()[j]) != tore.target());
                        }
                    }
                }
                None
            },
        }
    }

    fn add_value(&mut self, heap: &mut Heap<Grenade>, toad: Grenade) -> (link: Link<Grenade>)
        ensures
            final(self).nades@ == old(self).nades@.push(Owned::<Grenade>::at(old(heap)@.len())),
    {
        proof {
            if housed(self.members(), heap@.len()) {
                lemma_housed_push(self.members(), heap@.len());
            }
        }
        let toad = Owned::new(heap, toad);
        let result = toad.share();
        self.add_entity(toad);
        result
    }
}

impl Space {
    pub fn new() -> (space: Space)
        ensures
            space.nades@ == Seq::<Owned<Grenade>>::empty(),
            space.members() == Seq::<nat>::empty(),
    {
        let space = Space { nades: VecDeque::new() };
        assert(space.members() == Seq::<nat>::empty());
        space
    }
}

/// Letting go is by identity. Take a space that owns two different entities.
/// Asked for the first, it lets go of that one and keeps the other; asked
/// again, it has nothing to let go of and stays as it is.
pub proof fn lemma_removal_by_identity<Obj>(a: Link<Obj>, b: Link<Obj>)
    requires
        a.target().is_some(),
        b.target().is_some(),
        a.target() != b.target(),
    ensures
        ({
            let both = seq![a.target().unwrap(), b.target().unwrap()];
            let once = without(both, a);
            let twice = without(once, a);
            &&& both.contains(a.target().unwrap())
            &&& once == seq![b.target().unwrap()]
            &&& once.contains(b.target().unwrap())
            &&& !once.contains(a.target().unwrap())
            &&& twice == once
        }),
{
    let ida = a.target().unwrap();
    let idb = b.target().unwrap();
    let both = seq![ida, idb];
    assert(both[0] == ida);
    assert(both[1] == idb);
    assert(is_first_at(both, ida, 0));
    lemma_first_at_unique(both, ida, 0);
    let once = without(both, a);
    assert(once == seq![idb]);
    assert(once[0] == idb);
}

} // verus!
