//! A local inter-plugin message bus: plugins connect to a central
//! switchboard, expose named remote procedures, and invoke each other's
//! procedures over an asynchronous byte-stream transport.
//!
//! This crate holds the verified core of the bus: the structured payload
//! model, the wire codec, the call and method registries, the dispatch
//! rules with ordered fallback, and the error taxonomy. Socket I/O and
//! threading live outside the library and drive these components.

pub mod call_registry;
pub mod client;
pub mod codec;
pub mod dispatch;
pub mod error;
pub mod message;
pub mod method_registry;
pub mod plugin_buffer;
pub mod value;
