//! The entities of a space, each kept under an id of its own.
//!
//! A space maps ids to entities. An entity is one of a closed set of kinds;
//! code that expects a kind asks for it and gets the entity back unchanged
//! where it is of another. An id is handed out when an entity enters and is
//! free again once the entity has left.

use vstd::prelude::*;
use vstd::set_lib::{lemma_int_range, lemma_len_subset, lemma_map_size_bound, set_int_range};
use std::collections::HashMap;
use crate::forms::effects::{Bolt, Smoke};

verus! {

broadcast use vstd::std_specs::hash::group_hash_axioms;

pub type UID = u64;

pub type EntityHeap = HashMap<UID, Entity>;

pub enum Entity {
    Bolt(Bolt),
    Smoke(Smoke),
}

/// A kind of entity: how a value of the kind is made an entity, and how it
/// is had back from one.
pub trait AsEntity: Sized {
    /// The entity that holds `matter`.
    spec fn wrap(matter: Self) -> Entity;

    /// Whether `ent` holds a value of this kind.
    spec fn holds(ent: Entity) -> bool;

    /// The value that `ent` holds, where it holds one of this kind.
    spec fn held(ent: Entity) -> Self;

    /// An entity of this kind is the entity that holds what it holds, and no
    /// entity of another kind holds a value of this kind.
    proof fn lemma_kind(ent: Entity, matter: Self)
        ensures
            Self::holds(ent) ==> Self::wrap(Self::held(ent)) == ent,
            Self::holds(Self::wrap(matter)),
            Self::held(Self::wrap(matter)) == matter,
    ;

    fn as_entity(matter: Self) -> (ent: Entity)
        ensures
            ent == Self::wrap(matter),
    ;

    fn downcast(ent: Entity) -> (found: Result<Self, Entity>)
        ensures
            Self::holds(ent) ==> found == Ok::<Self, Entity>(Self::held(ent)),
            !Self::holds(ent) ==> found == Err::<Self, Entity>(ent),
    ;

    fn downcast_ref(ent: &Entity) -> (found: Option<&Self>)
        ensures
            Self::holds(*ent) ==> found == Some(&Self::held(*ent)),
            !Self::holds(*ent) ==> found.is_none(),
    ;

    fn downcast_mut(ent: &mut Entity) -> (found: Option<&mut Self>)
        ensures
            Self::holds(*old(ent)) ==> (found matches Some(matter) && *matter == Self::held(
                *old(ent),
            ) && *final(ent) == Self::wrap(*final(matter))),
            !Self::holds(*old(ent)) ==> found.is_none() && *final(ent) == *old(ent),
    ;
}

impl AsEntity for Bolt {
    open spec fn wrap(matter: Bolt) -> Entity {
        Entity::Bolt(matter)
    }

    open spec fn holds(ent: Entity) -> bool {
        ent is Bolt
    }

    open spec fn held(ent: Entity) -> Bolt {
        ent->Bolt_0
    }

    proof fn lemma_kind(ent: Entity, matter: Bolt) {
    }

    fn as_entity(matter: Bolt) -> (ent: Entity) {
        Entity::Bolt(matter)
    }

    fn downcast(ent: Entity) -> (found: Result<Bolt, Entity>) {
        if let Entity::Bolt(matter) = ent {
            Ok(matter)
        } else {
            Err(ent)
        }
    }

    fn downcast_ref(ent: &Entity) -> (found: Option<&Bolt>) {
        if let Entity::Bolt(matter) = ent {
            Some(matter)
        } else {
            None
        }
    }

    fn downcast_mut(ent: &mut Entity) -> (found: Option<&mut Bolt>) {
        match ent {
            Entity::Bolt(matter) => Some(matter),
            _ => None,
        }
    }
}

impl AsEntity for Smoke {
    open spec fn wrap(matter: Smoke) -> Entity {
        Entity::Smoke(matter)
    }

    open spec fn holds(ent: Entity) -> bool {
        ent is Smoke
    }

    open spec fn held(ent: Entity) -> Smoke {
        ent->Smoke_0
    }

    proof fn lemma_kind(ent: Entity, matter: Smoke) {
    }

    fn as_entity(matter: Smoke) -> (ent: Entity) {
        Entity::Smoke(matter)
    }

    fn downcast(ent: Entity) -> (found: Result<Smoke, Entity>) {
        if let Entity::Smoke(matter) = ent {
            Ok(matter)
        } else {
            Err(ent)
        }
    }

    fn downcast_ref(ent: &Entity) -> (found: Option<&Smoke>) {
        if let Entity::Smoke(matter) = ent {
            Some(matter)
        } else {
            None
        }
    }

    fn downcast_mut(ent: &mut Entity) -> (found: Option<&mut Smoke>) {
        match ent {
            Entity::Smoke(matter) => Some(matter),
            _ => None,
        }
    }
}

impl Entity {
    /// The value of kind `T` that this entity holds. To ask an entity for a
    /// kind it is not of is a fault of the caller; `err` says where.
    pub fn expect<T>(self, err: &str) -> (matter: T) where T: AsEntity
        requires
            T::holds(self),
        ensures
            matter == T::held(self),
            T::wrap(matter) == self,
    {
        proof {
            T::lemma_kind(self, T::held(self));
        }
        match T::downcast(self) {
            Ok(val) => val,
            Err(_) => unreached(),
        }
    }
}

/// Whether some id is free.
pub open spec fn has_room(space: Map<UID, Entity>) -> bool {
    exists|uid: UID| !space.contains_key(uid)
}

/// Whether every id from `low` up to `high`, `high` not included, is taken.
pub open spec fn taken(space: Map<UID, Entity>, low: int, high: int) -> bool {
    forall|v: UID| low <= v < high ==> space.contains_key(v)
}

/// Whether `uid` is the id the next entity gets: the first free one at or
/// above the number of entities or, where all of those are taken, the first
/// free one of all.
pub open spec fn is_fresh(space: Map<UID, Entity>, uid: UID) -> bool {
    &&& !space.contains_key(uid)
    &&& if uid >= space.len() {
        taken(space, space.len() as int, uid as int)
    } else {
        taken(space, space.len() as int, u64::MAX + 1) && taken(space, 0, uid as int)
    }
}

/// The id the next entity gets.
pub open spec fn fresh_uid(space: Map<UID, Entity>) -> UID {
    choose|uid: UID| is_fresh(space, uid)
}

/// Only one id is the next entity's.
pub proof fn lemma_fresh_unique(space: Map<UID, Entity>, uid: UID)
    requires
        is_fresh(space, uid),
    ensures
        fresh_uid(space) == uid,
{
    let other = fresh_uid(space);
    assert(is_fresh(space, other));
    if other != uid {
        assert(space.contains_key(other) || space.contains_key(uid));
    }
}

/// Where the ids from `low` up to `at` are taken and a free id lies at or
/// above `at`, there is a first free id at or above `low`.
proof fn lemma_first_free(space: Map<UID, Entity>, low: UID, at: UID, high: UID) -> (first: UID)
    requires
        low <= at <= high,
        !space.contains_key(high),
        taken(space, low as int, at as int),
    ensures
        low <= first <= high,
        !space.contains_key(first),
        taken(space, low as int, first as int),
    decreases high - at,
{
    if !space.contains_key(at) {
        at
    } else {
        lemma_first_free(space, low, (at + 1) as UID, high)
    }
}

/// In a space with room one id is the next entity's, and it is free.
pub proof fn lemma_fresh_exists(space: Map<UID, Entity>)
    requires
        has_room(space),
    ensures
        is_fresh(space, fresh_uid(space)),
        !space.contains_key(fresh_uid(space)),
{
    let free = choose|uid: UID| !space.contains_key(uid);
    if exists|uid: UID| uid >= space.len() && !space.contains_key(uid) {
        let high = choose|uid: UID| uid >= space.len() && !space.contains_key(uid);
        let first = lemma_first_free(space, space.len() as UID, space.len() as UID, high);
        assert(is_fresh(space, first));
    } else {
        let first = lemma_first_free(space, 0, 0, free);
        assert(is_fresh(space, first));
    }
}

/// There are more ids than a finite space of fewer than two to the
/// sixty-fourth entities can take.
pub proof fn lemma_has_room(space: Map<UID, Entity>)
    requires
        space.dom().finite(),
        space.len() <= u64::MAX,
    ensures
        has_room(space),
{
    if !has_room(space) {
        let number = |uid: UID| uid as int;
        let numbers = space.dom().map(number);
        let all = set_int_range(0, u64::MAX + 1);
        lemma_map_size_bound(space.dom(), numbers, number);
        lemma_int_range(0, u64::MAX + 1);
        assert forall|i: int| all.contains(i) implies numbers.contains(i) by {
            let uid = i as UID;
            assert(space.contains_key(uid));
            assert(space.dom().contains(uid) && number(uid) == i);
        }
        lemma_len_subset(all, numbers);
    }
}

/// Takes `matter` into the space as an entity of its kind and hands back the
/// id under which it is kept from now on.
pub fn new_entity<T>(space: &mut EntityHeap, matter: T) -> (uid: UID) where T: AsEntity
    ensures
        has_room(old(space)@),
        uid == fresh_uid(old(space)@),
        !old(space)@.contains_key(uid),
        final(space)@ == old(space)@.insert(uid, T::wrap(matter)),
{
    let start = space.len() as UID;
    proof {
        lemma_has_room(space@);
    }
    let mut uid = start;
    let mut wrapped = false;
    while space.contains_key(&uid)
        invariant
            space@ == old(space)@,
            start == space@.len(),
            has_room(space@),
            !wrapped ==> start <= uid && taken(space@, start as int, uid as int),
            wrapped ==> uid < start && taken(space@, start as int, u64::MAX + 1) && taken(
                space@,
                0,
                uid as int,
            ),
        decreases
                (if wrapped {
                    0int
                } else {
                    1int
                }),
                (if wrapped {
                    start - uid
                } else {
                    u64::MAX - uid
                }),
    {
        if !wrapped {
            if uid == u64::MAX {
                proof {
                    if start == 0 {
                        let free = choose|free: UID| !space@.contains_key(free);
                        assert(space@.contains_key(free));
                    }
                }
                uid = 0;
                wrapped = true;
            } else {
                uid = uid + 1;
            }
        } else {
            proof {
                if uid + 1 == start {
                    let free = choose|free: UID| !space@.contains_key(free);
                    assert(space@.contains_key(free));
                }
            }
            uid = uid + 1;
        }
    }
    proof {
        assert(is_fresh(space@, uid));
        lemma_fresh_unique(space@, uid);
    }
    let ent = T::as_entity(matter);
    space.insert(uid, ent);
    uid
}

} // verus!
