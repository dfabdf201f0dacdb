//! Generational references: containers that hand out handles in place of
//! references, and tell a handle that still means what it meant from one
//! whose slot has since been reused, cleared or given other contents.
//!
//! - [`dynvec`]: the arena, a pool of reusable slots behind handles of
//!   index and generation.
//! - [`weak`]: a checked, short-lived reference built from such a handle.
//! - [`generational`]: the same protocol for a single slot.
//! - [`model`]: the arena as a mathematical value, and each operation as a
//!   function on it.
//! - [`laws`]: what follows for every arena and every sequence of
//!   operations.

pub mod dynvec;
pub mod generational;
pub mod laws;
pub mod model;
pub mod weak;
