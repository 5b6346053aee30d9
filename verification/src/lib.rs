//! Sleep-sort scheduling: a batch of delayed tasks, one per input value,
//! where each task invokes a callback after a delay proportional to its
//! value. This crate holds the verified core of the protocol: the batch
//! state machine that decides, on each timer elapse or cancellation
//! request, whether a callback fires, together with the laws that the
//! emergent ordering obeys. The host runtime's timer and join facilities
//! drive the machine from outside.

pub mod batch;
pub mod laws;

pub use batch::Batch;
pub use batch::Event;
pub use batch::Model;
pub use batch::Outcome;
