//! `cxxabi.h`
//!
//! Resources:
//! - [Itanium C++ ABI](https://itanium-cxx-abi.github.io/cxx-abi/abi.html#dso-dtor-runtime-api)
use crate::environment::Environment;
use crate::mem::GuestAddr;
use vstd::prelude::*;

verus! {

/// Accepts a function to be called at exit. It is never called.
pub fn __cxa_atexit(env: &mut Environment, func: GuestAddr, p: GuestAddr, d: GuestAddr) -> (r: i32)
    ensures
        r == 0,
        *final(env) == *old(env),
{
    // TODO: when this is implemented, make sure it's properly compatible with
    // C atexit.
    0  // success
}

/// Calls none of the functions that were to be called at exit.
pub fn __cxa_finalize(env: &mut Environment, d: GuestAddr)
    ensures
        *final(env) == *old(env),
{
}

} // verus!
