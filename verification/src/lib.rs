//! An actor runtime core.
//!
//! Actors are units of state that are identified by a value and changed only
//! by messages. Each actor type has one manager, which owns every live
//! instance of the type, activates an instance when the first message for its
//! identity arrives, and applies the commands of its mailbox strictly in
//! arrival order. A registry leads from each actor type to its manager and
//! creates the manager on first use. A barrier counts the managers that are
//! still running and wakes one waiter when the last of them terminates.
//!
//! The core is sequential: sending enqueues, and the managers apply their
//! mailboxes when they are run. Whoever embeds the core decides on which
//! tasks or threads that happens.

pub mod actor;
pub mod barrier;
pub mod envelope;
pub mod laws;
pub mod manager;
pub mod registry;
pub mod system;
