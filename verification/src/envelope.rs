//! The transport wrapper and the command protocol of a manager's mailbox.
//!
//! An envelope holds its message by the message type `M` of the system, not
//! behind an erased unit of work: the handler to run is the one that the
//! actor type has for `M`.

use vstd::prelude::*;
use crate::actor::Handle;

verus! {

/// A message together with the identity it is addressed to.
pub struct Envelope<M> {
    pub destination: u64,
    pub payload: M,
}

/// What travels through a manager's mailbox.
pub enum MailboxCommand<M> {
    Dispatch(Envelope<M>),
    Shutdown,
}

impl<M> Envelope<M> {
    pub fn new(destination: u64, payload: M) -> (envelope: Self)
        ensures
            envelope.destination == destination,
            envelope.payload == payload,
    {
        Envelope { destination, payload }
    }

    /// The identity this envelope is addressed to.
    pub fn destination(&self) -> (id: u64)
        ensures
            id == self.destination,
    {
        self.destination
    }

    /// Runs the handler that matches the payload against `instance`.
    pub fn dispatch<A: Handle<M>>(self, instance: &mut A)
        ensures
            *final(instance) == old(instance).handled(self.payload),
    {
        instance.handle(self.payload);
    }
}

} // verus!
