//! The Objective-C runtime.
pub mod arc;
