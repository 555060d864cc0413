//! The contracts an application's actor types supply.
//!
//! One system carries one Rust type of actor and one Rust type of message: an
//! application with several actor types or message types gives each family
//! one enum. Identities are `u64`. A handler gets the instance and the
//! message, and nothing else.

use vstd::prelude::*;

verus! {

/// An actor type: state that is created lazily from an identity.
///
/// `kind` names the actor type inside a closed family of types that share one
/// Rust representation; `id` is the identity scoped to that kind.
pub trait Actor: Sized {
    /// The state a fresh instance starts in.
    spec fn activated(kind: u64, id: u64) -> Self;

    /// Builds the instance for `id`.
    fn activate(kind: u64, id: u64) -> (actor: Self)
        ensures
            actor == Self::activated(kind, id),
    ;
}

/// The reaction of an actor type to messages of type `M`.
pub trait Handle<M>: Actor {
    /// The state after `message` was handled in state `self`.
    spec fn handled(self, message: M) -> Self;

    /// Applies `message` to the instance.
    fn handle(&mut self, message: M)
        ensures
            *final(self) == old(self).handled(message),
    ;
}

} // verus!
