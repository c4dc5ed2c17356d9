//! The liveness protocol: every buffer owns one bit of a shared bitmap. Its
//! owner sets the bit again and again; a validator clears it and, when it
//! finds it already clear, declares the buffer abandoned.

pub mod descriptor;
pub mod storage;
pub mod confirmator;
pub mod validator;
