//! The shutdown barrier: a count of live managers and one waiter slot.

use vstd::prelude::*;
use futures::task::AtomicWaker;
use std::task::Waker;

verus! {

#[verifier::external_type_specification]
#[verifier::external_body]
pub struct ExAtomicWaker(futures::task::AtomicWaker);

#[verifier::external_type_specification]
#[verifier::external_body]
pub struct ExWaker(std::task::Waker);

/// Whether a slot holds a waker. A slot is owned by one barrier and reached
/// only through an exclusive borrow, so no other party fills or empties it.
pub uninterp spec fn slot_filled(slot: AtomicWaker) -> bool;

/// `AtomicWaker::new`: a slot that holds no waker.
#[verifier::external_body]
fn empty_slot() -> (slot: AtomicWaker)
    ensures
        !slot_filled(slot),
{
    AtomicWaker::new()
}

/// `AtomicWaker::register`: afterwards the slot holds a waker that wakes the
/// task of `waker`, in place of whatever it held before. The caller holds the
/// slot exclusively, so no wake runs meanwhile.
#[verifier::external_body]
fn store_waker(slot: &mut AtomicWaker, waker: &Waker)
    ensures
        slot_filled(*final(slot)),
{
    slot.register(waker)
}

/// `AtomicWaker::wake`: takes the waker out of the slot and wakes it, if the
/// slot held one; afterwards the slot holds none.
#[verifier::external_body]
fn wake_stored(slot: &mut AtomicWaker)
    ensures
        !slot_filled(*final(slot)),
{
    slot.wake()
}

/// What a waiter is told when it asks whether the barrier has resolved.
#[derive(Clone, Copy, Debug, PartialEq, Eq, Structural)]
pub enum BarrierPoll {
    /// Some manager is still live: the waiter was stored and will be woken.
    Pending,
    /// No manager is live: the barrier has resolved.
    Ready,
}

/// The number of live managers and the waiter to wake when it reaches zero.
///
/// The slot holds at most one waiter: a later registration replaces an
/// earlier one.
pub struct ShutdownBarrier {
    live: usize,
    armed: bool,
    slot: AtomicWaker,
}

impl ShutdownBarrier {
    /// The number of managers that have started and not yet terminated.
    pub closed spec fn live(&self) -> nat {
        self.live as nat
    }

    /// Whether a waiter is stored that has not been woken.
    pub closed spec fn armed(&self) -> bool {
        self.armed
    }

    /// Whether the slot holds a waker.
    pub closed spec fn filled(&self) -> bool {
        slot_filled(self.slot)
    }

    /// The slot holds a waker exactly while a waiter is stored, and a
    /// resolved barrier never holds a waiter.
    pub open spec fn wf(&self) -> bool {
        &&& self.armed() == self.filled()
        &&& self.live() == 0 ==> !self.armed()
    }

    /// A barrier with no live manager and no waiter.
    pub fn new() -> (barrier: Self)
        ensures
            barrier.wf(),
            barrier.live() == 0,
            !barrier.armed(),
    {
        ShutdownBarrier { live: 0, armed: false, slot: empty_slot() }
    }

    /// The current count of live managers.
    pub fn count(&self) -> (n: usize)
        ensures
            n == self.live(),
    {
        self.live
    }

    /// Whether a waiter is stored that has not been woken.
    pub fn is_armed(&self) -> (armed: bool)
        ensures
            armed == self.armed(),
    {
        self.armed
    }

    /// Counts one more live manager.
    pub fn increment(&mut self)
        requires
            old(self).wf(),
            old(self).live() < usize::MAX,
        ensures
            final(self).wf(),
            final(self).live() == old(self).live() + 1,
            final(self).armed() == old(self).armed(),
    {
        self.live = self.live + 1;
    }

    /// Stores `waiter` if a manager is still live and reports `Pending`;
    /// reports `Ready`, storing nothing, if none is.
    pub fn register(&mut self, waiter: &Waker) -> (poll: BarrierPoll)
        requires
            old(self).wf(),
        ensures
            final(self).wf(),
            final(self).live() == old(self).live(),
            old(self).live() > 0 ==> poll == BarrierPoll::Pending && final(self).armed(),
            old(self).live() == 0 ==> poll == BarrierPoll::Ready && !final(self).armed(),
    {
        if self.live > 0 {
            store_waker(&mut self.slot, waiter);
            self.armed = true;
            BarrierPoll::Pending
        } else {
            BarrierPoll::Ready
        }
    }

    /// Counts one manager as terminated. If this drove the count to zero and
    /// a waiter was stored, the waiter is woken and `true` is returned. On a
    /// barrier that has already resolved nothing changes.
    pub fn decrement(&mut self) -> (woke: bool)
        requires
            old(self).wf(),
        ensures
            final(self).wf(),
            old(self).live() == 0 ==> final(self).live() == 0 && !woke,
            old(self).live() > 0 ==> final(self).live() == old(self).live() - 1,
            old(self).live() > 1 ==> !woke && final(self).armed() == old(self).armed(),
            old(self).live() == 1 ==> woke == old(self).armed(),
            old(self).live() <= 1 ==> !final(self).armed(),
    {
        if self.live == 0 {
            return false;
        }
        self.live = self.live - 1;
        if self.live == 0 && self.armed {
            wake_stored(&mut self.slot);
            self.armed = false;
            true
        } else {
            false
        }
    }
}

} // verus!
