//! Pairing of anonymous participants into two-party chats, and the relay of
//! text between the two sides of a pair.
//!
//! Participants arrive one by one, and the pool gives each an id that no
//! other has. Who arrives while another waits becomes that one's partner,
//! first come first served; who finds nobody waiting waits. From then on
//! each side's text goes to the other side's mailbox, where it piles up
//! until the other side reads it, and the first side to leave takes the pair
//! down for both. Who leaves while it waits leaves the line.
//!
//! * [`model`] is the pool as a mathematical value with its transitions, and
//!   [`laws`] is what holds of every pool.
//! * [`pool`] is the pool itself: one shared structure, every operation one
//!   step under the pool's lock.
//! * [`lifecycle`] is the life of a session as a state machine, with what
//!   holds of every run, and [`session`] is the session itself: handshake,
//!   relay and teardown.
//! * [`queue`] is the waiting line, kept in the deque of `wtx`.
//!
//! Nothing here reads or writes a connection, takes a lock, suspends a task
//! or signals a wake handle. The functions decide and say what is to be done:
//! the text to write, the handle to signal, whether to suspend or to leave.
//! Their caller does it.

mod clock;
pub mod error;
pub mod laws;
pub mod lifecycle;
pub mod model;
pub mod pool;
pub mod queue;
pub mod session;
