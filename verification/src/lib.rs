//! Verified guest-facing runtime of a high-level emulator.
pub mod environment;
pub mod frameworks;
pub mod libc;
pub mod mem;
pub mod objc;
pub mod window;
