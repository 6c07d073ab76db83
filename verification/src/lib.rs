//! A small virtual processor core ("U032") that talks to an open-ended set of
//! peripheral buses over bounded, in-memory message queues, and that enforces a
//! privilege-masked partition of its 32-bit address space into a
//! network-visible half and a core-local half.
//!
//! The crate models the communication substrate only: address masking
//! ([`privilege::Privilege`]), the envelopes and endpoints that cross the bus
//! boundary ([`message`]), and the core itself with its bus-acquisition
//! protocol and message-dispatch loop ([`processor`]).

pub mod laws;
pub mod message;
pub mod privilege;
pub mod processor;

pub use message::Observation;
pub use message::SendError;
pub use message::SlotKind;
pub use message::StreamEndpoint;
pub use message::Violation;
pub use privilege::Privilege;
pub use processor::BusAcquirer;
pub use processor::CoreState;
pub use processor::StepOutcome;
pub use processor::U032;
pub use processor::U32Bus;
