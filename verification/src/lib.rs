//! Message routing between live connections and application logic: frames
//! arriving from many connections are classified by the type tag they carry,
//! buffered per tag in arrival order, and handed to one consumer per tag.
//!
//! The transport is not part of this library. Whoever drives it polls the
//! transport and hands the events to a [`Dispatcher`], one by one with
//! [`Dispatcher::step`] or a whole cycle at once with
//! [`Dispatcher::run_cycle`]; consumers then drain the buffer of their tag.

pub mod dispatch;
pub mod envelope;
pub mod event;
pub mod guarantees;
pub mod json;
pub mod registry;
pub mod routing;
pub mod server;

pub use dispatch::{CycleState, Dispatcher, TypedMessage};
pub use envelope::{decode, encode, DecodeError, Envelope};
pub use event::{ConnectionHandle, NetworkEvent};
pub use registry::{RegistryError, TypeRegistry};
pub use routing::Routing;
pub use server::WebSocketServer;
