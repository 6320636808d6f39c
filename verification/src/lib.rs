//! Core of a small endpoint-monitoring tool: an ordered registry of network
//! endpoints, validation of user input, classification of HTTP probe
//! outcomes, positional reconciliation of probe results, interval
//! scheduling decisions, and a round-tripping text format for persistence.
//!
//! All I/O (the network probes themselves, reading and writing the
//! configuration file, rendering a user interface) lives outside this
//! library; it hands the library plain values and takes plain values back.
//!
//! Known race, kept deliberately: probe results are reconciled onto the
//! live registry by positional index in the snapshot order, not by a
//! stable identity. When an endpoint is added or removed while a check
//! cycle is in flight, a result can land on the wrong (shifted) endpoint,
//! and a result past the shrunken end is dropped silently — reconciliation
//! guards out-of-range indices instead of faulting. `Registry::reconcile`
//! states this behavior exactly; reconciling by a generated unique
//! identifier would remove the race and is the improvement to make first.

pub mod codec;
pub mod registry;
pub mod scheduler;
pub mod server;
pub mod status;
pub mod text;

pub use codec::ParseError;
pub use registry::Registry;
pub use registry::ValidationError;
pub use scheduler::Scheduler;
pub use server::Server;
pub use status::ServerStatus;
