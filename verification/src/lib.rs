//! An intrusive FIFO queue: elements are linked through a pointer-sized
//! "next" slot embedded inside each element at a fixed offset, so
//! enqueuing never allocates a node.
//!
//! Element storage is modelled by a caller-owned [`arena::Arena`]: an
//! address space of pointer-sized cells. An element is identified by its
//! non-null address in the arena, and the queue reads and writes only the
//! one cell at `address + offset` of each linked element.

pub mod arena;
pub mod idqueue;
pub mod ptr_math;
