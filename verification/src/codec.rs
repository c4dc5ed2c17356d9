//! The wire format of the descriptors: every integer is written in groups of
//! seven bits, lowest group first, each byte but the last with its highest
//! bit set. A 64-bit integer takes at most nine bytes; the ninth carries
//! eight bits.

pub mod zint;
pub mod shm;
