//! Stack-protector runtime support: `__stack_chk_guard`.
//!
//! Code built with `-fstack-protector` (common in later SDKs / C++ apps) reads
//! the global canary `__stack_chk_guard` at function entry, stores it on the
//! stack, and re-checks it at exit, calling `__stack_chk_fail` on mismatch.
//!
//! `__stack_chk_guard` is bound to a stable nonzero canary. iOS randomizes the
//! real value, but correctness only requires that the value read at a
//! function's prologue equals the value read at its epilogue: a fixed constant
//! satisfies that for every call.
use crate::environment::Environment;
use crate::mem::{block_size, GuestAddr};
use vstd::prelude::*;

verus! {

/// Arbitrary nonzero canary value. The low null byte is that of a "terminator
/// canary" (stops string-overflow reads), though it isn't required here.
pub const STACK_CHK_GUARD: u32 = 0xDEAD_BE00;

/// Puts the canary on the heap and returns the address for `___stack_chk_guard`.
pub fn stack_chk_guard(env: &mut Environment) -> (r: GuestAddr)
    requires
        old(env).wf(),
        old(env).mem@.has_room(4, false),
    ensures
        final(env).wf(),
        old(env).mem@.gap(r as int, block_size(4), false),
        final(env).mem@ == old(env).mem@.with_block(r, block_size(4) as u32).write_u32(
            r as int,
            STACK_CHK_GUARD,
        ),
        final(env).mem@.u32_at(r as int) == STACK_CHK_GUARD,
        *final(env) == (Environment { mem: final(env).mem, ..*old(env) }),
{
    let r: u32 = env.mem.malloc(4);
    env.mem.write_u32(r, STACK_CHK_GUARD);
    r
}

} // verus!
