//! A reference-counted object bridge between native values and an embedded
//! interpreter's object heap.
//!
//! The heap (`Runtime`) holds every foreign object together with its reference
//! count. Handles (`PyObjectRef`) own one reference each; the container adapters,
//! the value conversion protocol, the execution context and the coroutine driver
//! are all built on top of them.

pub mod runtime;
pub mod object;
pub mod dict;
pub mod tuple;
pub mod convert;
pub mod interpreter;
pub mod text;
pub mod coroutine;
pub mod backend;
pub mod module;
