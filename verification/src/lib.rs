//! Core of an in-process debugging backend for a script interpreter: how a
//! byte stream is cut into messages, how bytecode offsets map to source lines,
//! and what the dispatcher answers to each request of the debug client.

pub mod dispatcher;
pub mod framing;
pub mod protocol;
pub mod resolver;
