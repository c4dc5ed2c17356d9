//! The reference backend: a free list over one shared-memory segment, and
//! the client that attaches to its segments.

pub mod free_list;
pub mod backend;
pub mod client;
