//! A flow-based execution engine: processes that wrap pluggable components
//! exchange packets over bounded, ordered connections, scheduled by a network
//! that detects termination and deadlock. A small content data model and the
//! interfaces of its stores sit beside it.

pub mod content;
pub mod error;
pub mod flow;
