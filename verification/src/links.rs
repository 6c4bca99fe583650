//! One owner, many observers.
//!
//! A value that several parts of a program have to reach is kept in a heap.
//! Exactly one `Owned` handle owns it; any number of `Link` handles observe
//! it without keeping it alive. Whoever wants to read or change the value
//! borrows it through a link and gets a guard, if the value is still there
//! and not borrowed in a way that forbids it; the guard is handed back when
//! the access is over. The heap keeps, for every value, whether it is owned
//! and how it is borrowed, so a cycle of references is a cycle of numbers
//! and nothing more.
//!
//! A value lives as long as its owner or any guard on it does. Handles and
//! guards name a value by its place in the heap, and places are never used
//! twice: a link to a value that is gone stays a link to nothing.
//!
//! Nothing is released by itself. A guard that goes out of scope is not
//! handed back: `release` has to be called, on the guard and on the owning
//! handle alike. A shared guard that is dropped leaves its value lent for
//! reading for good; an exclusive guard that is dropped takes the value with
//! it and leaves its place busy for good.
//!
//! Nothing ties a handle to the heap it came from either. A handle names a
//! place, and means the value at that place in whichever heap it is used
//! with. Two values in two heaps can have the same place; whoever keeps
//! handles of more than one heap of the same kind has to keep them apart.

use vstd::prelude::*;
use core::marker::PhantomData;

verus! {

/// What a heap keeps for one value.
pub struct Slot<T> {
    /// The value, while it lives and is not lent out for change.
    pub value: Option<T>,
    /// Whether the owning handle still holds on to the value.
    pub owned: bool,
    /// How many shared guards are out.
    pub readers: usize,
    /// Whether the exclusive guard is out; it carries the value with it.
    pub writer: bool,
}

impl<T> Slot<T> {
    /// The value has not been destroyed: its owner or a guard holds on to it.
    pub open spec fn alive(self) -> bool {
        self.owned || self.readers > 0 || self.writer
    }

    /// What is kept agrees with itself: the exclusive guard excludes shared
    /// ones and has the value with it, and otherwise the value is there
    /// exactly while it is alive.
    pub open spec fn coherent(self) -> bool {
        &&& self.writer ==> self.readers == 0 && self.value.is_none()
        &&& !self.writer ==> (self.value.is_some() <==> self.alive())
    }

    /// Whether a shared guard can be given out.
    pub open spec fn lendable(self) -> bool {
        self.alive() && !self.writer && self.readers < usize::MAX
    }

    /// Whether the exclusive guard can be given out.
    pub open spec fn free(self) -> bool {
        self.alive() && !self.writer && self.readers == 0
    }

    /// The slot of a value that was just made.
    pub open spec fn fresh(value: T) -> Slot<T> {
        Slot { value: Some(value), owned: true, readers: 0, writer: false }
    }

    /// The slot after one more shared guard was given out.
    pub open spec fn lent(self) -> Slot<T> {
        Slot { readers: (self.readers + 1) as usize, ..self }
    }

    /// The slot after a shared guard was handed back. The value goes with
    /// the last guard where its owner has let go of it.
    pub open spec fn returned(self) -> Slot<T> {
        Slot {
            value: if self.readers == 1 && !self.owned {
                None
            } else {
                self.value
            },
            readers: (self.readers - 1) as usize,
            ..self
        }
    }

    /// The slot after the exclusive guard was given out.
    pub open spec fn taken(self) -> Slot<T> {
        Slot { value: None, writer: true, ..self }
    }

    /// The slot after the exclusive guard was handed back with `value`. The
    /// value goes with the guard where its owner has let go of it.
    pub open spec fn restored(self, value: T) -> Slot<T> {
        Slot {
            value: if self.owned {
                Some(value)
            } else {
                None
            },
            writer: false,
            ..self
        }
    }

    /// The slot after the owner let go. The value goes with the owner
    /// unless a guard still holds on to it.
    pub open spec fn disowned(self) -> Slot<T> {
        Slot {
            value: if self.readers == 0 {
                None
            } else {
                self.value
            },
            owned: false,
            ..self
        }
    }
}

/// Whether every slot agrees with itself.
pub open spec fn coherent<T>(slots: Seq<Slot<T>>) -> bool {
    forall|i: int| 0 <= i < slots.len() ==> (#[trigger] slots[i]).coherent()
}

/// Whether the value at `id` is still there.
pub open spec fn alive<T>(slots: Seq<Slot<T>>, id: nat) -> bool {
    id < slots.len() && slots[id as int].alive()
}

/// What an attempt to borrow the value at `target` for reading meets with:
/// `Missing` where there is no such value or it is gone, `Busy` where it is
/// lent out for change, nothing where the attempt succeeds.
pub open spec fn verdict_at<T>(slots: Seq<Slot<T>>, target: Option<nat>) -> Option<BorrowError> {
    match target {
        Some(id) => if !alive(slots, id) {
            Some(BorrowError::Missing)
        } else if !slots[id as int].lendable() {
            Some(BorrowError::Busy)
        } else {
            None
        },
        None => Some(BorrowError::Missing),
    }
}

/// What an attempt to borrow the value at `target` for change meets with:
/// `Missing` where there is no such value or it is gone, `Busy` where it is
/// lent out in any way, nothing where the attempt succeeds.
pub open spec fn verdict_mut_at<T>(slots: Seq<Slot<T>>, target: Option<nat>) -> Option<
    BorrowMutError,
> {
    match target {
        Some(id) => if !alive(slots, id) {
            Some(BorrowMutError::Missing)
        } else if !slots[id as int].free() {
            Some(BorrowMutError::Busy)
        } else {
            None
        },
        None => Some(BorrowMutError::Missing),
    }
}

/// Where the values live.
pub struct Heap<T> {
    slots: Vec<Slot<T>>,
}

impl<T> View for Heap<T> {
    type V = Seq<Slot<T>>;

    closed spec fn view(&self) -> Seq<Slot<T>> {
        self.slots@
    }
}

/// The handle that owns a value. There is one for every value, and the value
/// lives at least as long as it is held.
pub struct Owned<T> {
    index: usize,
    kind: PhantomData<T>,
}

/// A handle that observes a value without keeping it alive. It may be copied
/// at will and may outlive the value.
pub struct Link<T> {
    target: Option<usize>,
    kind: PhantomData<T>,
}

/// A guard for shared access. While it is out the value cannot be changed.
pub struct Ref<T> {
    index: usize,
    kind: PhantomData<T>,
}

/// The guard for exclusive access. It has the value with it; while it is out
/// nobody else can reach the value.
pub struct RefMut<T> {
    index: usize,
    value: T,
}

#[derive(Debug, PartialEq, Eq, Structural)]
pub enum BorrowError {
    /// The value has been destroyed, or the link never led anywhere.
    Missing,
    /// The value is lent out for change.
    Busy,
}

#[derive(Debug, PartialEq, Eq, Structural)]
pub enum BorrowMutError {
    /// The value has been destroyed, or the link never led anywhere.
    Missing,
    /// The value is lent out already.
    Busy,
}

impl<T> Heap<T> {
    #[verifier::type_invariant]
    closed spec fn well_formed(self) -> bool {
        coherent(self@)
    }

    /// A heap without values.
    pub fn new() -> (heap: Heap<T>)
        ensures
            heap@ == Seq::<Slot<T>>::empty(),
    {
        Heap { slots: Vec::new() }
    }

    /// How many values the heap has ever held.
    pub fn len(&self) -> (count: usize)
        ensures
            count == self@.len(),
            coherent(self@),
    {
        proof {
            use_type_invariant(self);
        }
        self.slots.len()
    }

    /// Replaces what is kept at `index`.
    fn put(&mut self, index: usize, slot: Slot<T>)
        requires
            index < old(self)@.len(),
            slot.coherent(),
        ensures
            final(self)@ == old(self)@.update(index as int, slot),
            coherent(final(self)@),
    {
        proof {
            use_type_invariant(&*self);
        }
        let mut slots = Vec::new();
        core::mem::swap(&mut self.slots, &mut slots);
        slots.set(index, slot);
        core::mem::swap(&mut self.slots, &mut slots);
    }

    /// Takes out what is kept at `index`, leaving the slot of a value that
    /// is gone.
    fn take(&mut self, index: usize) -> (slot: Slot<T>)
        requires
            index < old(self)@.len(),
        ensures
            slot == old(self)@[index as int],
            slot.coherent(),
            final(self)@ == old(self)@.update(
                index as int,
                Slot { value: None, owned: false, readers: 0, writer: false },
            ),
    {
        proof {
            use_type_invariant(&*self);
        }
        let mut slots = Vec::new();
        core::mem::swap(&mut self.slots, &mut slots);
        let mut slot = Slot { value: None, owned: false, readers: 0, writer: false };
        core::mem::swap(&mut slots[index], &mut slot);
        core::mem::swap(&mut self.slots, &mut slots);
        slot
    }
}

impl<T> Owned<T> {
    /// The place of the value in its heap.
    pub closed spec fn id(self) -> nat {
        self.index as nat
    }

    /// The handle that owns the value at `id`.
    pub closed spec fn at(id: nat) -> Owned<T> {
        Owned { index: id as usize, kind: PhantomData }
    }

    /// Puts `value` into the heap and hands back the handle that owns it.
    pub fn new(heap: &mut Heap<T>, value: T) -> (owned: Owned<T>)
        ensures
            owned.id() == old(heap)@.len(),
            owned == Owned::<T>::at(old(heap)@.len()),
            final(heap)@ == old(heap)@.push(Slot::fresh(value)),
            coherent(final(heap)@),
    {
        proof {
            use_type_invariant(&*heap);
        }
        let index = heap.slots.len();
        let mut slots = Vec::new();
        core::mem::swap(&mut heap.slots, &mut slots);
        slots.push(Slot { value: Some(value), owned: true, readers: 0, writer: false });
        core::mem::swap(&mut heap.slots, &mut slots);
        Owned { index, kind: PhantomData }
    }

    /// The link to the owned value, as a value.
    pub closed spec fn share_spec(self) -> Link<T> {
        Link { target: Some(self.index), kind: PhantomData }
    }

    /// A link to the owned value.
    pub fn share(&self) -> (link: Link<T>)
        ensures
            link.target() == Some(self.id()),
            link == self.share_spec(),
    {
        Link { target: Some(self.index), kind: PhantomData }
    }

    /// Whether the guard is on the value that this handle owns.
    pub fn ptr_eq(&self, other: &Ref<T>) -> (same: bool)
        ensures
            same == (self.id() == other.id()),
    {
        self.index == other.index
    }

    /// Whether the link leads to the value that this handle owns.
    pub fn is(&self, link: &Link<T>) -> (same: bool)
        ensures
            same == (link.target() == Some(self.id())),
    {
        match link.target {
            Some(index) => index == self.index,
            None => false,
        }
    }

    /// Lets go of the value. It is destroyed unless a guard still holds on
    /// to it; links to it lead nowhere from then on. The heap goes by the
    /// place that the handle names: nothing happens where the heap has no
    /// value at that place, or one that is gone or owned no more.
    pub fn release(self, heap: &mut Heap<T>)
        ensures
            alive(old(heap)@, self.id()) && old(heap)@[self.id() as int].owned ==> final(heap)@
                == old(heap)@.update(self.id() as int, old(heap)@[self.id() as int].disowned()),
            !(alive(old(heap)@, self.id()) && old(heap)@[self.id() as int].owned) ==> final(heap)@
                == old(heap)@,
            coherent(final(heap)@),
    {
        if self.index < heap.len() {
            let slot = heap.take(self.index);
            if slot.owned {
                let value = if slot.readers == 0 {
                    None
                } else {
                    slot.value
                };
                heap.put(
                    self.index,
                    Slot { value, owned: false, readers: slot.readers, writer: slot.writer },
                );
            } else {
                heap.put(self.index, slot);
                assert(heap@ == old(heap)@);
            }
        }
    }
}

impl<T> Clone for Link<T> {
    fn clone(&self) -> (link: Link<T>)
        ensures
            link == *self,
    {
        Link { target: self.target, kind: PhantomData }
    }
}

impl<T> Copy for Link<T> {

}

impl<T> Link<T> {
    /// The place of the value the link leads to, if it ever led anywhere.
    pub closed spec fn target(self) -> Option<nat> {
        match self.target {
            Some(index) => Some(index as nat),
            None => None,
        }
    }

    /// The link that leads to the value at `id`.
    pub closed spec fn to(id: nat) -> Link<T> {
        Link { target: Some(id as usize), kind: PhantomData }
    }

    /// Whether the value the link leads to is still there.
    pub open spec fn reaches(self, slots: Seq<Slot<T>>) -> bool {
        self.target() matches Some(id) && alive(slots, id)
    }

    /// What an attempt to borrow for reading meets with: nothing, where it
    /// succeeds, or the reason why it fails.
    pub open spec fn verdict(self, slots: Seq<Slot<T>>) -> Option<BorrowError> {
        verdict_at(slots, self.target())
    }

    /// What an attempt to borrow for change meets with: nothing, where it
    /// succeeds, or the reason why it fails.
    pub open spec fn verdict_mut(self, slots: Seq<Slot<T>>) -> Option<BorrowMutError> {
        verdict_mut_at(slots, self.target())
    }

    /// A link that leads nowhere, for a start.
    pub fn new() -> (link: Link<T>)
        ensures
            link.target().is_none(),
    {
        Link { target: None, kind: PhantomData }
    }

    /// Borrows the value for reading. Fails with `Missing` where the value
    /// is gone and with `Busy` where it is lent out for change.
    pub fn try_borrow(&self, heap: &mut Heap<T>) -> (borrowed: Result<Ref<T>, BorrowError>)
        ensures
            borrowed matches Err(reason) ==> self.verdict(old(heap)@) == Some(reason)
                && final(heap)@ == old(heap)@,
            borrowed.is_ok() ==> self.verdict(old(heap)@).is_none(),
            borrowed matches Ok(guard) ==> {
                &&& Some(guard.id()) == self.target()
                &&& final(heap)@ == old(heap)@.update(
                    guard.id() as int,
                    old(heap)@[guard.id() as int].lent(),
                )
            },
            coherent(final(heap)@),
    {
        let index = match self.target {
            Some(index) => index,
            None => {
                // the heap is left as it is, and is as coherent as ever
                let _ = heap.len();
                return Err(BorrowError::Missing);
            },
        };
        if index >= heap.len() {
            return Err(BorrowError::Missing);
        }
        let slot = heap.take(index);
        if !(slot.owned || slot.readers > 0 || slot.writer) {
            heap.put(index, slot);
            assert(heap@ == old(heap)@);
            return Err(BorrowError::Missing);
        }
        if slot.writer || slot.readers == usize::MAX {
            heap.put(index, slot);
            assert(heap@ == old(heap)@);
            return Err(BorrowError::Busy);
        }
        heap.put(
            index,
            Slot {
                value: slot.value,
                owned: slot.owned,
                readers: slot.readers + 1,
                writer: slot.writer,
            },
        );
        Ok(Ref { index, kind: PhantomData })
    }

    /// Borrows the value for change. Fails with `Missing` where the value is
    /// gone and with `Busy` where it is lent out in any way.
    pub fn try_borrow_mut(&self, heap: &mut Heap<T>) -> (borrowed: Result<
        RefMut<T>,
        BorrowMutError,
    >)
        ensures
            borrowed matches Err(reason) ==> self.verdict_mut(old(heap)@) == Some(reason)
                && final(heap)@ == old(heap)@,
            borrowed.is_ok() ==> self.verdict_mut(old(heap)@).is_none(),
            borrowed matches Ok(guard) ==> {
                &&& Some(guard.id()) == self.target()
                &&& Some(guard.content()) == old(heap)@[guard.id() as int].value
                &&& final(heap)@ == old(heap)@.update(
                    guard.id() as int,
                    old(heap)@[guard.id() as int].taken(),
                )
            },
            coherent(final(heap)@),
    {
        let index = match self.target {
            Some(index) => index,
            None => {
                // the heap is left as it is, and is as coherent as ever
                let _ = heap.len();
                return Err(BorrowMutError::Missing);
            },
        };
        if index >= heap.len() {
            return Err(BorrowMutError::Missing);
        }
        let slot = heap.take(index);
        if !(slot.owned || slot.readers > 0 || slot.writer) {
            heap.put(index, slot);
            assert(heap@ == old(heap)@);
            return Err(BorrowMutError::Missing);
        }
        if slot.writer || slot.readers > 0 {
            heap.put(index, slot);
            assert(heap@ == old(heap)@);
            return Err(BorrowMutError::Busy);
        }
        match slot.value {
            Some(value) => {
                heap.put(index, Slot { value: None, owned: slot.owned, readers: 0, writer: true });
                Ok(RefMut { index, value })
            },
            None => unreached(),
        }
    }
}

impl<T> Ref<T> {
    /// The place of the borrowed value in its heap.
    pub closed spec fn id(self) -> nat {
        self.index as nat
    }

    /// Whether the guard is out on `slots`: its value is lent for reading.
    pub open spec fn holds(self, slots: Seq<Slot<T>>) -> bool {
        self.id() < slots.len() && slots[self.id() as int].readers > 0
    }

    /// The borrowed value.
    pub fn deref<'a>(&self, heap: &'a Heap<T>) -> (value: &'a T)
        requires
            self.holds(heap@),
        ensures
            Some(*value) == heap@[self.id() as int].value,
    {
        proof {
            use_type_invariant(heap);
        }
        match &heap.slots[self.index].value {
            Some(value) => value,
            None => unreached(),
        }
    }

    /// Hands the guard back. The value is destroyed with the last guard
    /// where its owner has let go of it. The heap goes by the place that the
    /// guard names: nothing happens where the heap has no value at that
    /// place, or one that is not lent for reading.
    pub fn release(self, heap: &mut Heap<T>)
        ensures
            self.holds(old(heap)@) ==> final(heap)@ == old(heap)@.update(
                self.id() as int,
                old(heap)@[self.id() as int].returned(),
            ),
            !self.holds(old(heap)@) ==> final(heap)@ == old(heap)@,
            coherent(final(heap)@),
    {
        if self.index < heap.len() {
            let slot = heap.take(self.index);
            if slot.readers > 0 {
                let value = if slot.readers == 1 && !slot.owned {
                    None
                } else {
                    slot.value
                };
                heap.put(
                    self.index,
                    Slot {
                        value,
                        owned: slot.owned,
                        readers: slot.readers - 1,
                        writer: slot.writer,
                    },
                );
            } else {
                heap.put(self.index, slot);
                assert(heap@ == old(heap)@);
            }
        }
    }
}

impl<T> RefMut<T> {
    /// The place of the borrowed value in its heap.
    pub closed spec fn id(self) -> nat {
        self.index as nat
    }

    /// The borrowed value as it is now.
    pub closed spec fn content(self) -> T {
        self.value
    }

    /// Whether the guard is out on `slots`: its value is lent for change.
    pub open spec fn holds(self, slots: Seq<Slot<T>>) -> bool {
        self.id() < slots.len() && slots[self.id() as int].writer
    }

    /// The borrowed value.
    pub fn deref(&self) -> (value: &T)
        ensures
            *value == self.content(),
    {
        &self.value
    }

    /// The borrowed value, to be changed in place.
    pub fn deref_mut(&mut self) -> (value: &mut T)
        ensures
            *value == old(self).content(),
            final(self).content() == *final(value),
            final(self).id() == old(self).id(),
    {
        &mut self.value
    }

    /// Hands the guard back and the value with it. The value is destroyed
    /// where its owner has let go of it. The heap goes by the place that the
    /// guard names: nothing happens where the heap has no value at that
    /// place, or one that is not lent for change.
    pub fn release(self, heap: &mut Heap<T>)
        ensures
            self.holds(old(heap)@) ==> final(heap)@ == old(heap)@.update(
                self.id() as int,
                old(heap)@[self.id() as int].restored(self.content()),
            ),
            !self.holds(old(heap)@) ==> final(heap)@ == old(heap)@,
            coherent(final(heap)@),
    {
        if self.index < heap.len() {
            let slot = heap.take(self.index);
            if slot.writer {
                let value = if slot.owned {
                    Some(self.value)
                } else {
                    None
                };
                heap.put(
                    self.index,
                    Slot { value, owned: slot.owned, readers: slot.readers, writer: false },
                );
            } else {
                heap.put(self.index, slot);
                assert(heap@ == old(heap)@);
            }
        }
    }
}

/// The life of a borrow. Take a value that is owned and not lent out, and a
/// link to it. Once the owner lets go, borrowing through the link fails with
/// `Missing`, for reading and for change. While the exclusive guard is out,
/// borrowing fails with `Busy`, for reading and for change. Once that guard
/// is handed back, borrowing succeeds again, for reading and for change.
pub proof fn lemma_borrow_lifecycle<T>(slots: Seq<Slot<T>>, link: Link<T>, value: T)
    requires
        link.reaches(slots),
        slots[link.target().unwrap() as int].owned,
        slots[link.target().unwrap() as int].free(),
    ensures
        ({
            let id = link.target().unwrap() as int;
            let dropped = slots.update(id, slots[id].disowned());
            let lent = slots.update(id, slots[id].taken());
            let back = lent.update(id, lent[id].restored(value));
            &&& link.verdict(dropped) == Some(BorrowError::Missing)
            &&& link.verdict_mut(dropped) == Some(BorrowMutError::Missing)
            &&& link.verdict(lent) == Some(BorrowError::Busy)
            &&& link.verdict_mut(lent) == Some(BorrowMutError::Busy)
            &&& link.verdict(back).is_none()
            &&& link.verdict_mut(back).is_none()
        }),
{
}

/// A link is known by where it leads.
pub proof fn lemma_link_to<T>(link: Link<T>)
    ensures
        link.target() matches Some(id) ==> link == Link::<T>::to(id),
{
}

/// The link that leads to a place leads there.
pub proof fn lemma_link_to_target<T>(id: nat)
    requires
        id <= usize::MAX,
    ensures
        Link::<T>::to(id).target() == Some(id),
{
}

/// An owning handle is known by the place it names, and the handle that
/// owns the value at a place names that place.
pub proof fn lemma_owned_at<T>(owned: Owned<T>, id: nat)
    ensures
        owned == Owned::<T>::at(owned.id()),
        owned.id() <= usize::MAX,
        id <= usize::MAX ==> Owned::<T>::at(id).id() == id,
        id <= usize::MAX ==> Owned::<T>::at(id).share_spec() == Link::<T>::to(id),
{
}

/// A link that never led anywhere meets with `Missing`, whatever the heap
/// holds.
pub proof fn lemma_empty_link_is_missing<T>(slots: Seq<Slot<T>>, link: Link<T>)
    requires
        link.target().is_none(),
    ensures
        link.verdict(slots) == Some(BorrowError::Missing),
        link.verdict_mut(slots) == Some(BorrowMutError::Missing),
{
}

} // verus!
