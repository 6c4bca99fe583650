//! A space that owns entities of several kinds.
//!
//! The space keeps the owning handles of its entities in the order in which
//! they came, each under the tag of its kind. It lets an entity go when it
//! is asked for the one of a kind that a given link leads to.

use vstd::prelude::*;
use std::collections::VecDeque;
use crate::entities::{
    distinct, housed, is_first_at, lemma_first_at_unique, lemma_housed_push, lemma_push_distinct,
    lemma_without_distinct, Container,
};
use crate::forms::effects::{Bolt, Smoke};
use crate::links::{Heap, Link, Owned};

verus! {

/// The owning handle of an entity, under the tag of its kind.
pub enum Entity {
    Bolt(Owned<Bolt>),
    Smoke(Owned<Smoke>),
}

/// A kind of entity: how the handle of a value of the kind is tagged, and
/// how it is had back from a tagged one.
pub trait AsEntity: Sized {
    /// The handle under the tag of this kind.
    spec fn wrap(owned: Owned<Self>) -> Entity;

    /// Whether `ent` is tagged with this kind.
    spec fn holds(ent: Entity) -> bool;

    /// The handle that `ent` holds, where it is tagged with this kind.
    spec fn held(ent: Entity) -> Owned<Self>;

    /// A handle tagged with this kind is the tagged handle of what it holds.
    proof fn lemma_kind(ent: Entity, owned: Owned<Self>)
        ensures
            Self::holds(ent) ==> Self::wrap(Self::held(ent)) == ent,
            Self::holds(Self::wrap(owned)),
            Self::held(Self::wrap(owned)) == owned,
    ;

    fn as_entity(owned: Owned<Self>) -> (ent: Entity)
        ensures
            ent == Self::wrap(owned),
    ;

    fn downcast(ent: Entity) -> (found: Result<Owned<Self>, Entity>)
        ensures
            Self::holds(ent) ==> found == Ok::<Owned<Self>, Entity>(Self::held(ent)),
            !Self::holds(ent) ==> found == Err::<Owned<Self>, Entity>(ent),
    ;

    fn downcast_ref(ent: &Entity) -> (found: Option<&Owned<Self>>)
        ensures
            Self::holds(*ent) ==> found == Some(&Self::held(*ent)),
            !Self::holds(*ent) ==> found.is_none(),
    ;
}

impl AsEntity for Bolt {
    open spec fn wrap(owned: Owned<Bolt>) -> Entity {
        Entity::Bolt(owned)
    }

    open spec fn holds(ent: Entity) -> bool {
        ent is Bolt
    }

    open spec fn held(ent: Entity) -> Owned<Bolt> {
        ent->Bolt_0
    }

    proof fn lemma_kind(ent: Entity, owned: Owned<Bolt>) {
    }

    fn as_entity(owned: Owned<Bolt>) -> (ent: Entity) {
        Entity::Bolt(owned)
    }

    fn downcast(ent: Entity) -> (found: Result<Owned<Bolt>, Entity>) {
        if let Entity::Bolt(owned) = ent {
            Ok(owned)
        } else {
            Err(ent)
        }
    }

    fn downcast_ref(ent: &Entity) -> (found: Option<&Owned<Bolt>>) {
        if let Entity::Bolt(owned_ref) = ent {
            Some(owned_ref)
        } else {
            None
        }
    }
}

impl AsEntity for Smoke {
    open spec fn wrap(owned: Owned<Smoke>) -> Entity {
        Entity::Smoke(owned)
    }

    open spec fn holds(ent: Entity) -> bool {
        ent is Smoke
    }

    open spec fn held(ent: Entity) -> Owned<Smoke> {
        ent->Smoke_0
    }

    proof fn lemma_kind(ent: Entity, owned: Owned<Smoke>) {
    }

    fn as_entity(owned: Owned<Smoke>) -> (ent: Entity) {
        Entity::Smoke(owned)
    }

    fn downcast(ent: Entity) -> (found: Result<Owned<Smoke>, Entity>) {
        if let Entity::Smoke(owned) = ent {
            Ok(owned)
        } else {
            Err(ent)
        }
    }

    fn downcast_ref(ent: &Entity) -> (found: Option<&Owned<Smoke>>) {
        if let Entity::Smoke(owned_ref) = ent {
            Some(owned_ref)
        } else {
            None
        }
    }
}

/// The entities of kind `Obj` among `ents`, each named by its place in the
/// heap, in the order of `ents`.
pub open spec fn of_kind<Obj: AsEntity>(ents: Seq<Entity>) -> Seq<nat>
    decreases ents.len(),
{
    if ents.len() == 0 {
        Seq::empty()
    } else if Obj::holds(ents.last()) {
        of_kind::<Obj>(ents.drop_last()).push(Obj::held(ents.last()).id())
    } else {
        of_kind::<Obj>(ents.drop_last())
    }
}

/// Whether `ents` holds, at `i`, the entity of kind `Obj` at `id`.
pub open spec fn is_at<Obj: AsEntity>(ents: Seq<Entity>, id: nat, i: int) -> bool {
    0 <= i < ents.len() && Obj::holds(ents[i]) && Obj::held(ents[i]).id() == id
}

/// Whether `ents` holds, at `i`, the entity of kind `Obj` that `tore` leads to.
pub open spec fn is_led_to<Obj: AsEntity>(ents: Seq<Entity>, tore: Link<Obj>, i: int) -> bool {
    tore.target() matches Some(id) && is_at::<Obj>(ents, id, i)
}

/// Whether `i` is the first place at which `ents` holds the entity of kind
/// `Obj` that `tore` leads to.
pub open spec fn is_first_led_to<Obj: AsEntity>(ents: Seq<Entity>, tore: Link<Obj>, i: int) -> bool {
    &&& is_led_to::<Obj>(ents, tore, i)
    &&& forall|j: int| 0 <= j < i ==> !is_led_to::<Obj>(ents, tore, j)
}

/// The first place at which `ents` holds the entity of kind `Obj` that
/// `tore` leads to, where it holds it.
pub open spec fn first_led_to<Obj: AsEntity>(ents: Seq<Entity>, tore: Link<Obj>) -> int {
    choose|i: int| is_first_led_to::<Obj>(ents, tore, i)
}

/// Only one place is the first.
pub proof fn lemma_first_led_to_unique<Obj: AsEntity>(ents: Seq<Entity>, tore: Link<Obj>, i: int)
    requires
        is_first_led_to::<Obj>(ents, tore, i),
    ensures
        first_led_to::<Obj>(ents, tore) == i,
{
    let k = first_led_to::<Obj>(ents, tore);
    assert(is_first_led_to::<Obj>(ents, tore, k));
    if k < i {
        assert(!is_led_to::<Obj>(ents, tore, k));
    }
    if i < k {
        assert(!is_led_to::<Obj>(ents, tore, i));
    }
}

/// What is named among the entities of a kind is held at some place.
pub proof fn lemma_of_kind_contains<Obj: AsEntity>(ents: Seq<Entity>, id: nat)
    ensures
        of_kind::<Obj>(ents).contains(id) <==> exists|i: int| is_at::<Obj>(ents, id, i),
    decreases ents.len(),
{
    let named = of_kind::<Obj>(ents);
    if ents.len() > 0 {
        let rest = ents.drop_last();
        lemma_of_kind_contains::<Obj>(rest, id);
        if named.contains(id) {
            let k = choose|k: int| 0 <= k < named.len() && named[k] == id;
            if Obj::holds(ents.last()) && k == named.len() - 1 {
                assert(is_at::<Obj>(ents, id, ents.len() - 1));
            } else {
                assert(of_kind::<Obj>(rest)[k] == id);
                assert(of_kind::<Obj>(rest).contains(id));
                let i = choose|i: int| is_at::<Obj>(rest, id, i);
                assert(is_at::<Obj>(ents, id, i));
            }
        }
        if exists|i: int| is_at::<Obj>(ents, id, i) {
            let i = choose|i: int| is_at::<Obj>(ents, id, i);
            if i == ents.len() - 1 {
                assert(named[named.len() - 1] == id);
            } else {
                assert(is_at::<Obj>(rest, id, i));
                let k = choose|k: int|
                    0 <= k < of_kind::<Obj>(rest).len() && of_kind::<Obj>(rest)[k] == id;
                assert(named[k] == id);
            }
        }
    }
}

/// Taking out the first entity of a kind at `id` takes its first naming out
/// of the entities of that kind, and nothing else.
pub proof fn lemma_of_kind_remove<Obj: AsEntity>(ents: Seq<Entity>, id: nat, at: int)
    requires
        is_at::<Obj>(ents, id, at),
        forall|j: int| 0 <= j < at ==> !is_at::<Obj>(ents, id, j),
    ensures
        of_kind::<Obj>(ents).contains(id),
        of_kind::<Obj>(ents.remove(at)) == of_kind::<Obj>(ents).remove(
            crate::entities::first_at(of_kind::<Obj>(ents), id),
        ),
    decreases ents.len(),
{
    let rest = ents.drop_last();
    let named = of_kind::<Obj>(ents);
    let before = of_kind::<Obj>(rest);
    if at == ents.len() - 1 {
        assert(ents.remove(at) =~= rest);
        lemma_of_kind_contains::<Obj>(rest, id);
        assert(!before.contains(id)) by {
            if before.contains(id) {
                let i = choose|i: int| is_at::<Obj>(rest, id, i);
                assert(is_at::<Obj>(ents, id, i));
            }
        }
        assert(is_first_at(named, id, named.len() - 1)) by {
            assert forall|j: int| 0 <= j < named.len() - 1 implies named[j] != id by {
                assert(before[j] == named[j]);
            }
        }
        lemma_first_at_unique(named, id, named.len() - 1);
        assert(named.remove(named.len() - 1) =~= before);
    } else {
        assert(is_at::<Obj>(rest, id, at));
        assert forall|j: int| 0 <= j < at implies !is_at::<Obj>(rest, id, j) by {
            assert(!is_at::<Obj>(ents, id, j));
        }
        lemma_of_kind_remove::<Obj>(rest, id, at);
        let k = crate::entities::first_at(before, id);
        crate::entities::lemma_first_at_exists(
            before,
            id,
            choose|n: int| 0 <= n < before.len() && before[n] == id,
        );
        assert(is_first_at(named, id, k)) by {
            assert(named[k] == before[k]);
            assert forall|j: int| 0 <= j < k implies named[j] != id by {
                assert(named[j] == before[j]);
            }
        }
        lemma_first_at_unique(named, id, k);
        assert(ents.remove(at).drop_last() =~= rest.remove(at));
        assert(ents.remove(at).last() == ents.last());
        if Obj::holds(ents.last()) {
            assert(before.remove(k).push(Obj::held(ents.last()).id()) =~= named.remove(k));
        }
    }
}

pub struct Space {
    pub ents: VecDeque<Entity>,
}

impl<Obj> Container<Obj> for Space where Obj: AsEntity {
    open spec fn members(&self) -> Seq<nat> {
        of_kind::<Obj>(self.ents@)
    }

    fn add_entity(&mut self, toad: Owned<Obj>)
        ensures
            final(self).ents@ == old(self).ents@.push(Obj::wrap(toad)),
    {
        proof {
            if distinct(of_kind::<Obj>(self.ents@)) && !of_kind::<Obj>(self.ents@).contains(
                toad.id(),
            ) {
                lemma_push_distinct(of_kind::<Obj>(self.ents@), toad.id());
            }
        }
        let ent = Obj::as_entity(toad);
        self.ents.push_back(ent);
        proof {
            Obj::lemma_kind(ent, toad);
            assert(self.ents@.drop_last() =~= old(self).ents@);
        }
    }

    fn remove_entity(&mut self, tore: &Link<Obj>) -> (removed: Option<Owned<Obj>>)
        ensures
            removed.is_some() == exists|i: int| is_led_to::<Obj>(old(self).ents@, *tore, i),
            removed.is_none() ==> final(self).ents@ == old(self).ents@,
            removed matches Some(owned) ==> {
                let at = first_led_to::<Obj>(old(self).ents@, *tore);
                &&& is_first_led_to::<Obj>(old(self).ents@, *tore, at)
                &&& old(self).ents@[at] == Obj::wrap(owned)
                &&& final(self).ents@ == old(self).ents@.remove(at)
            },
    {
        proof {
            if distinct(of_kind::<Obj>(self.ents@)) {
                lemma_without_distinct(of_kind::<Obj>(self.ents@), *tore);
            }
        }
        let mut result: Option<usize> = None;
        let mut i: usize = 0;
        while i < self.ents.len()
            invariant_except_break
                i <= self.ents.len(),
                result.is_none(),
                forall|j: int| 0 <= j < i ==> !is_led_to::<Obj>(self.ents@, *tore, j),
            invariant
                *self == *old(self),
            ensures
                *self == *old(self),
                result matches Some(at) ==> is_led_to::<Obj>(self.ents@, *tore, at as int)
                    && forall|j: int| 0 <= j < at ==> !is_led_to::<Obj>(self.ents@, *tore, j),
                result.is_none() ==> forall|j: int|
                    0 <= j < self.ents@.len() ==> !is_led_to::<Obj>(self.ents@, *tore, j),
            decreases self.ents.len() - i,
        {
            if let Some(item) = Obj::downcast_ref(&self.ents[i]) {
                if item.is(tore) {
                    result = Some(i);
                    break ;
                }
            }
            i = i + 1;
        }

        if let Some(at) = result {
            proof {
                let id = tore.target().unwrap();
                assert forall|j: int| 0 <= j < at implies !is_at::<Obj>(self.ents@, id, j) by {
                    assert(!is_led_to::<Obj>(self.ents@, *tore, j));
                }
                lemma_of_kind_remove::<Obj>(self.ents@, id, at as int);
                Obj::lemma_kind(self.ents@[at as int], Obj::held(self.ents@[at as int]));
            }
            proof {
                lemma_first_led_to_unique::<Obj>(self.ents@, *tore, at as int);
            }
            match self.ents.remove(at) {
                Some(ent) => match Obj::downcast(ent) {
                    Ok(item) => Some(item),
                    Err(_) => unreached(),
                },
                None => unreached(),
            }
        } else {
            proof {
                if let Some(id) = tore.target() {
                    lemma_of_kind_contains::<Obj>(self.ents@, id);
                    if exists|j: int| is_at::<Obj>(self.ents@, id, j) {
                        let j = choose|j: int| is_at::<Obj>(self.ents@, id, j);
                        assert(is_led_to::<Obj>(self.ents@, *tore, j));
                    }
                }
            }
            None
        }
    }

    fn add_value(&mut self, heap: &mut Heap<Obj>, toad: Obj) -> (link: Link<Obj>)
        ensures
            final(self).ents@ == old(self).ents@.push(
                Obj::wrap(Owned::<Obj>::at(old(heap)@.len())),
            ),
    {
        proof {
            if housed(of_kind::<Obj>(self.ents@), heap@.len()) {
                lemma_housed_push(of_kind::<Obj>(self.ents@), heap@.len());
            }
        }
        let toad = Owned::new(heap, toad);
        let result = toad.share();
        self.add_entity(toad);
        result
    }
}

impl Space {
    pub fn new() -> (space: Space)
        ensures
            space.ents@ == Seq::<Entity>::empty(),
    {
        Space { ents: VecDeque::new() }
    }
}

} // verus!
