//! Shared-memory buffer provider: segments, chunk allocation, liveness
//! watchdogs, buffer headers, allocation policies and the wire format of the
//! descriptors that let another process attach to a buffer.

pub mod common;
pub mod chunk;
pub mod types;
pub mod segment;
pub mod seq_util;
pub mod text;
pub mod pool;
pub mod header;
pub mod watchdog;
pub mod backend;
pub mod posix;
pub mod buffer;
pub mod resources;
pub mod lifecycle;
pub mod provider;
pub mod policy;
pub mod builder;
pub mod reader;
pub mod codec;
pub mod establishment;
pub mod runtime;
pub mod link;
