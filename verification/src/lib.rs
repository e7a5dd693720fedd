//! # slotbus
//!
//! Slotted request/response messaging over shared memory.
//!
//! Two processes share one mapping, the *control region*. It starts with a
//! header, goes on with a fixed number of slots and ends with the inline heap,
//! which is divided evenly among the slots. A slot carries one request and its
//! response and goes round `Free → Writing → Ready → Claimed → Done → Free`.
//! Bodies that do not fit in a slot's part of the heap spill to *overflow
//! regions*, mappings of their own.
//!
//! This crate decides what stands where in the region and what hub and worker do
//! next. It works on the bytes of a mapping as a slice and reaches the operating
//! system through functions that its callers hand in.
//!
//! - [`types`], [`region`]: layout of the control region.
//! - [`slots`]: writing and reading requests and responses.
//! - [`overflow`], [`backing`]: overflow regions and what dead processes leave.
//! - [`transport`], [`worker`]: hub side and worker side.
//! - [`routes`], [`hub`]: the HTTP hub in front of the workers.
//! - [`laws`]: what holds of several operations together.
//! - [`results`]: what single operations come to, in plain terms.

pub mod backing;
pub mod bytes;
pub mod codec;
pub mod config;
pub mod error;
pub mod events;
pub mod hub;
pub mod laws;
pub mod overflow;
pub mod region;
pub mod results;
pub mod routes;
pub mod slots;
pub mod table;
pub mod text;
pub mod transport;
pub mod types;
pub mod worker;

pub use config::{SlotBusConfig, SlotBusConfigBuilder};
pub use error::SlotBusError;
pub use transport::{SlotBus, SlotWorker};
