//! A peer-to-peer overlay node that carries one text prompt and its generated
//! reply between two processes, directly or through a relay peer.
//!
//! The crate holds the decisions of the node: addresses and peer identifiers,
//! the relay reservation life cycle, request bookkeeping, liveness probing,
//! the interpretation of the text-generation backend's answers, and the node
//! controller that ties them together. Sockets, timers and the HTTP call live
//! outside; they hand events in and carry actions out.

pub mod address;
pub mod address_laws;
pub mod backend;
pub mod controller;
pub mod controller_laws;
pub mod error;
pub mod exchange;
pub mod identify;
pub mod identity;
pub mod liveness;
pub mod message;
pub mod mux;
pub mod relay;
pub mod text;

pub use crate::message::PromptRequest;
pub use crate::message::PromptResponse;
