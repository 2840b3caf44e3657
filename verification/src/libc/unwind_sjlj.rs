//! Host-side implementation of the GCC **SjLj** (setjmp/longjmp) C++ exception
//! unwinder, plus the `_Unwind_*` accessor protocol the personality routine
//! calls back into.
//!
//! Background: 32-bit ARM iOS apps built with the SjLj exception model emit
//! `_Unwind_SjLj_Register`/`Unregister` at function entry/exit to maintain a
//! per-thread chain of `SjLj_Function_Context` records, and call
//! `_Unwind_SjLj_RaiseException` on `throw`. The unwind is driven from here:
//! walk the chain, invoke the guest personality routine to find/install the
//! handler, then `longjmp` into the landing pad. The personality routine is
//! guest code, so an unwind is a machine that says what to call and takes what
//! the call returned.
use crate::environment::{Environment, LibcState, ThreadId};
use crate::libc::text::{is_utf8, push_str};
use crate::mem::{
    le32_bytes, lemma_le32_frame, lemma_le32_roundtrip, GuestAddr, MemState, NULL,
};
use std::collections::HashMap;
use vstd::prelude::*;
use vstd::string::*;
use vstd::utf8::valid_utf8;

verus! {

broadcast use vstd::std_specs::hash::group_hash_axioms;

// `struct SjLj_Function_Context` field offsets (GCC unwind-sjlj.c).

pub const FC_PREV: u32 = 0;

pub const FC_CALL_SITE: u32 = 4;

pub const FC_DATA: u32 = 8;  // data[0..4] at 8,12,16,20

pub const FC_PERSONALITY: u32 = 24;

pub const FC_LSDA: u32 = 28;

// `__builtin_setjmp` buffer (void*[5]), with the layout that ARM is assumed to
// have.

pub const JBUF_FP: u32 = 32;  // [0] frame pointer

pub const JBUF_PC: u32 = 36;  // [1] resume address (landing pad)

pub const JBUF_SP: u32 = 40;  // [2] stack pointer

// _Unwind_Action

pub const _UA_SEARCH_PHASE: u32 = 1;

pub const _UA_CLEANUP_PHASE: u32 = 2;

pub const _UA_HANDLER_FRAME: u32 = 4;

// _Unwind_Reason_Code

pub const _URC_FATAL_PHASE2_ERROR: i32 = 2;

pub const _URC_FATAL_PHASE1_ERROR: i32 = 3;

pub const _URC_END_OF_STACK: i32 = 5;

pub const _URC_HANDLER_FOUND: i32 = 6;

pub const _URC_INSTALL_CONTEXT: i32 = 7;

pub const _URC_CONTINUE_UNWIND: i32 = 8;

// Core registers

pub const FRAME_POINTER: usize = 7;

pub const SP: usize = 13;

pub const LR: usize = 14;

/// Per-guest-thread head of the SjLj context chain.
pub struct State {
    heads: HashMap<ThreadId, u32>,
}

impl View for State {
    type V = Map<ThreadId, u32>;

    closed spec fn view(&self) -> Map<ThreadId, u32> {
        self.heads@
    }
}

impl Default for State {
    fn default() -> (r: State)
        ensures
            r@ == Map::<ThreadId, u32>::empty(),
    {
        State { heads: HashMap::new() }
    }
}

/// The head of the chain of a thread, null where it has none.
pub open spec fn head_of(heads: Map<ThreadId, u32>, t: ThreadId) -> u32 {
    if heads.contains_key(t) {
        heads[t]
    } else {
        NULL
    }
}

/// The head of the chain of the current thread.
pub open spec fn current_head(env: Environment) -> u32 {
    head_of(env.libc_state.unwind_sjlj@, env.current_thread)
}

/// The environment `pre` with other memory and other chain heads.
pub open spec fn with_heads(pre: Environment, post: Environment) -> Environment {
    Environment {
        mem: post.mem,
        libc_state: LibcState { unwind_sjlj: post.libc_state.unwind_sjlj, ..pre.libc_state },
        ..pre
    }
}

fn head(env: &Environment) -> (r: u32)
    ensures
        r == current_head(*env),
{
    match env.libc_state.unwind_sjlj.heads.get(&env.current_thread) {
        Some(fc) => *fc,
        None => NULL,
    }
}

fn set_head(env: &mut Environment, fc: u32)
    ensures
        final(env).libc_state.unwind_sjlj@ == old(env).libc_state.unwind_sjlj@.insert(
            old(env).current_thread,
            fc,
        ),
        final(env).mem == old(env).mem,
        *final(env) == with_heads(*old(env), *final(env)),
{
    let t: usize = env.current_thread;
    env.libc_state.unwind_sjlj.heads.insert(t, fc);
}

// Chain maintenance

#[allow(non_snake_case)]
pub fn _Unwind_SjLj_Register(env: &mut Environment, fc: GuestAddr)
    requires
        old(env).wf(),
        old(env).mem@.valid(fc + FC_PREV, 4),
    ensures
        final(env).wf(),
        final(env).mem@ == old(env).mem@.write_u32(fc + FC_PREV, current_head(*old(env))),
        final(env).libc_state.unwind_sjlj@ == old(env).libc_state.unwind_sjlj@.insert(
            old(env).current_thread,
            fc,
        ),
        *final(env) == with_heads(*old(env), *final(env)),
{
    let prev: u32 = head(env);
    env.mem.write_u32(fc + FC_PREV, prev);  // fc->prev = head
    set_head(env, fc);  // head = fc
}

#[allow(non_snake_case)]
pub fn _Unwind_SjLj_Unregister(env: &mut Environment, fc: GuestAddr)
    requires
        old(env).wf(),
        old(env).mem@.valid(fc + FC_PREV, 4),
    ensures
        final(env).wf(),
        final(env).libc_state.unwind_sjlj@ == old(env).libc_state.unwind_sjlj@.insert(
            old(env).current_thread,
            old(env).mem@.u32_at(fc + FC_PREV),
        ),
        final(env).mem == old(env).mem,
        *final(env) == with_heads(*old(env), *final(env)),
{
    let prev: u32 = env.mem.read_u32(fc + FC_PREV);
    set_head(env, prev);  // head = fc->prev
}

#[allow(non_snake_case)]
pub fn _Unwind_SjLj_GetContext(env: &Environment) -> (r: GuestAddr)
    ensures
        r == current_head(*env),
{
    head(env)
}

#[allow(non_snake_case)]
pub fn _Unwind_SjLj_SetContext(env: &mut Environment, fc: GuestAddr)
    ensures
        final(env).libc_state.unwind_sjlj@ == old(env).libc_state.unwind_sjlj@.insert(
            old(env).current_thread,
            fc,
        ),
        final(env).mem == old(env).mem,
        *final(env) == with_heads(*old(env), *final(env)),
{
    set_head(env, fc);
}

/// Unregistering a frame at its function's exit restores the head that its
/// registration at the entry found, whatever was registered in between, as long
/// as the frame's link is left alone.
pub proof fn law_register_unregister(
    heads: Map<ThreadId, u32>,
    t: ThreadId,
    mem: MemState,
    fc: GuestAddr,
    later: MemState,
)
    requires
        mem.wf(),
        mem.valid(fc + FC_PREV, 4),
        later.u32_at(fc + FC_PREV) == mem.write_u32(
            fc + FC_PREV,
            head_of(heads, t),
        ).u32_at(fc + FC_PREV),
    ensures
        head_of(heads.insert(t, fc).insert(t, later.u32_at(fc + FC_PREV)), t) == head_of(heads, t),
        forall|u: ThreadId|
            u != t ==> head_of(heads.insert(t, fc).insert(t, later.u32_at(fc + FC_PREV)), u)
                == head_of(heads, u),
{
    lemma_le32_roundtrip(mem.bytes, fc + FC_PREV, head_of(heads, t));
}

// Accessors called by the personality routine

#[allow(non_snake_case)]
pub fn _Unwind_GetLanguageSpecificData(env: &Environment, ctx: GuestAddr) -> (r: GuestAddr)
    requires
        env.wf(),
        env.mem@.valid(ctx + FC_LSDA, 4),
    ensures
        r == env.mem@.u32_at(ctx + FC_LSDA),
{
    env.mem.read_u32(ctx + FC_LSDA)
}

/// The instruction pointer of a context. GCC SjLj convention (unwind-sjlj.c): it
/// is the call site plus 1, which wraps around.
pub open spec fn ip_of(mem: MemState, ctx: GuestAddr) -> u32 {
    let call_site = mem.u32_at(ctx + FC_CALL_SITE);
    if call_site == u32::MAX {
        0
    } else {
        (call_site + 1) as u32
    }
}

/// Memory after a context's instruction pointer was set.
pub open spec fn with_ip(mem: MemState, ctx: GuestAddr, ip: u32) -> MemState {
    mem.write_u32(
        ctx + FC_CALL_SITE,
        if ip == 0 {
            u32::MAX
        } else {
            (ip - 1) as u32
        },
    )
}

#[allow(non_snake_case)]
pub fn _Unwind_GetIP(env: &Environment, ctx: GuestAddr) -> (r: u32)
    requires
        env.wf(),
        env.mem@.valid(ctx + FC_CALL_SITE, 4),
    ensures
        r == ip_of(env.mem@, ctx),
{
    env.mem.read_u32(ctx + FC_CALL_SITE).wrapping_add(1)
}

#[allow(non_snake_case)]
pub fn _Unwind_GetIPInfo(env: &mut Environment, ctx: GuestAddr, ip_before: GuestAddr) -> (r: u32)
    requires
        old(env).wf(),
        old(env).mem@.valid(ctx + FC_CALL_SITE, 4),
        ip_before == NULL || old(env).mem@.valid(ip_before as int, 4),
    ensures
        final(env).wf(),
        final(env).mem@ == if ip_before == NULL {
            old(env).mem@
        } else {
            old(env).mem@.write_u32(ip_before as int, 1)
        },
        r == ip_of(final(env).mem@, ctx),
        *final(env) == (Environment { mem: final(env).mem, ..*old(env) }),
{
    if ip_before != NULL {
        env.mem.write_u32(ip_before, 1);
    }
    env.mem.read_u32(ctx + FC_CALL_SITE).wrapping_add(1)
}

#[allow(non_snake_case)]
pub fn _Unwind_SetIP(env: &mut Environment, ctx: GuestAddr, ip: u32)
    requires
        old(env).wf(),
        old(env).mem@.valid(ctx + FC_CALL_SITE, 4),
    ensures
        final(env).wf(),
        final(env).mem@ == with_ip(old(env).mem@, ctx, ip),
        *final(env) == (Environment { mem: final(env).mem, ..*old(env) }),
{
    // GCC SjLj convention: the stored call_site is IP - 1.
    env.mem.write_u32(ctx + FC_CALL_SITE, ip.wrapping_sub(1));
}

/// Where a context holds the register with the given index.
pub open spec fn register_addr(ctx: GuestAddr, index: i32) -> int {
    ctx + FC_DATA + 4 * index
}

#[allow(non_snake_case)]
pub fn _Unwind_GetGR(env: &Environment, ctx: GuestAddr, index: i32) -> (r: u32)
    requires
        env.wf(),
        index >= 0,
        env.mem@.valid(register_addr(ctx, index), 4),
    ensures
        r == env.mem@.u32_at(register_addr(ctx, index)),
{
    env.mem.read_u32(ctx + FC_DATA + index as u32 * 4)
}

#[allow(non_snake_case)]
pub fn _Unwind_SetGR(env: &mut Environment, ctx: GuestAddr, index: i32, value: u32)
    requires
        old(env).wf(),
        index >= 0,
        old(env).mem@.valid(register_addr(ctx, index), 4),
    ensures
        final(env).wf(),
        final(env).mem@ == old(env).mem@.write_u32(register_addr(ctx, index), value),
        *final(env) == (Environment { mem: final(env).mem, ..*old(env) }),
{
    env.mem.write_u32(ctx + FC_DATA + index as u32 * 4, value);
}

/// The instruction pointer that was set is the one that is read.
pub proof fn law_ip_round_trip(mem: MemState, ctx: GuestAddr, ip: u32)
    requires
        mem.wf(),
        mem.valid(ctx + FC_CALL_SITE, 4),
    ensures
        ip_of(with_ip(mem, ctx, ip), ctx) == ip,
{
    let call_site: u32 = if ip == 0 {
        u32::MAX
    } else {
        (ip - 1) as u32
    };
    lemma_le32_roundtrip(mem.bytes, ctx + FC_CALL_SITE, call_site);
}

/// A register that was set reads as it was set, and no other changes.
pub proof fn law_register_round_trip(
    mem: MemState,
    ctx: GuestAddr,
    index: i32,
    value: u32,
    other: i32,
)
    requires
        mem.wf(),
        index >= 0,
        other >= 0,
        mem.valid(register_addr(ctx, index), 4),
        mem.valid(register_addr(ctx, other), 4),
    ensures
        mem.write_u32(register_addr(ctx, index), value).u32_at(register_addr(ctx, other)) == if other
            == index {
            value
        } else {
            mem.u32_at(register_addr(ctx, other))
        },
{
    let at = register_addr(ctx, index);
    lemma_le32_roundtrip(mem.bytes, at, value);
    if other != index {
        lemma_le32_frame(
            mem.bytes,
            at,
            crate::mem::le32_bytes(value),
            register_addr(ctx, other),
        );
    }
}

/// SjLj has no region start; call-site indices are absolute.
#[allow(non_snake_case)]
pub fn _Unwind_GetRegionStart(env: &Environment, ctx: GuestAddr) -> (r: u32)
    ensures
        r == 0,
{
    0
}

/// The stack pointer saved in the setjmp buffer (jbuf[2]).
#[allow(non_snake_case)]
pub fn _Unwind_GetCFA(env: &Environment, ctx: GuestAddr) -> (r: u32)
    requires
        env.wf(),
        env.mem@.valid(ctx + JBUF_SP, 4),
    ensures
        r == env.mem@.u32_at(ctx + JBUF_SP),
{
    env.mem.read_u32(ctx + JBUF_SP)
}

/// For SjLj the "data rel base" is data[0] (set up by the caller).
#[allow(non_snake_case)]
pub fn _Unwind_GetDataRelBase(env: &Environment, ctx: GuestAddr) -> (r: u32)
    requires
        env.wf(),
        env.mem@.valid(ctx + FC_DATA, 4),
    ensures
        r == env.mem@.u32_at(ctx + FC_DATA),
{
    env.mem.read_u32(ctx + FC_DATA)
}

#[allow(non_snake_case)]
pub fn _Unwind_GetTextRelBase(env: &Environment, ctx: GuestAddr) -> (r: u32)
    requires
        env.wf(),
        env.mem@.valid(ctx + FC_DATA + 4, 4),
    ensures
        r == env.mem@.u32_at(ctx + FC_DATA + 4),
{
    env.mem.read_u32(ctx + FC_DATA + 4)
}

/// The function that cleans an exception object up, if it has one. It is called
/// with a reason of 1 (_URC_FOREIGN_EXCEPTION_CAUGHT) and the object.
#[allow(non_snake_case)]
pub fn _Unwind_DeleteException(env: &Environment, exc: GuestAddr) -> (r: Option<GuestAddr>)
    requires
        env.wf(),
        env.mem@.valid(exc + 8, 4),
    ensures
        r == if env.mem@.u32_at(exc + 8) != 0 {
            Some(env.mem@.u32_at(exc + 8))
        } else {
            None
        },
{
    // exc->exception_cleanup is at offset 8 (after the 8-byte exception_class).
    let cleanup: u32 = env.mem.read_u32(exc + 8);
    if cleanup != 0 {
        Some(cleanup)
    } else {
        None
    }
}

// The unwinder

/// A call of a guest personality routine:
/// `_Unwind_Reason_Code (*)(int version, _Unwind_Action, uint64 exceptionClass,
///                          _Unwind_Exception*, _Unwind_Context*)`.
/// The version is 1. The 64-bit `exceptionClass` is passed as two u32s.
#[derive(Clone, Copy, Debug, PartialEq, Eq, Structural)]
pub struct PersonalityCall {
    pub personality: GuestAddr,
    pub actions: u32,
    pub class_low: u32,
    pub class_high: u32,
    pub exc: GuestAddr,
    pub ctx: GuestAddr,
}

/// What an unwind needs next.
#[derive(Clone, Copy, Debug, PartialEq, Eq, Structural)]
pub enum RaiseStep {
    /// Nothing: it goes on with the next frame.
    NextFrame,
    /// The result of a call of a personality routine.
    Call(PersonalityCall),
    /// It has failed, and returns this code.
    Failed(i32),
    /// It has succeeded: the handler's context is installed, and the guest goes
    /// on at this address.
    Resume(GuestAddr),
}

/// Where an unwind stands.
#[derive(Clone, Copy, Debug, PartialEq, Eq, Structural)]
pub enum RaisePhase {
    /// It looks for a frame whose personality claims the handler.
    Search,
    /// It runs cleanups, down to the frame with the handler.
    Cleanup { handler: GuestAddr },
}

/// An unwind under way.
#[derive(Clone, Copy, Debug, PartialEq, Eq, Structural)]
pub struct Raise {
    pub exc: GuestAddr,
    pub fc: GuestAddr,
    pub phase: RaisePhase,
}

pub open spec fn personality_of(mem: MemState, fc: GuestAddr) -> u32 {
    mem.u32_at(fc + FC_PERSONALITY)
}

pub open spec fn prev_of(mem: MemState, fc: GuestAddr) -> u32 {
    mem.u32_at(fc + FC_PREV)
}

/// Whether what an unwind looks at of its current frame can be read. The search
/// also looks at the language-specific data of a frame that has a personality
/// routine.
pub open spec fn frame_readable(mem: MemState, raise: Raise) -> bool {
    &&& mem.valid(raise.fc as int, FC_PERSONALITY + 4)
    &&& raise.phase is Search && personality_of(mem, raise.fc) != 0 ==> mem.valid(
        raise.fc as int,
        FC_LSDA + 4,
    )
}

/// Whether the current frame, if there is one, can be read, and the exception
/// object, if the frame has a personality routine to hand its class to.
pub open spec fn readable(mem: MemState, raise: Raise) -> bool {
    ||| raise.fc == NULL && raise.phase is Search
    ||| {
        &&& frame_readable(mem, raise)
        &&& personality_of(mem, raise.fc) != 0 ==> mem.valid(raise.exc as int, 8)
    }
}

/// What a personality routine is asked to do at a frame.
pub open spec fn actions_at(phase: RaisePhase, fc: GuestAddr) -> u32 {
    match phase {
        RaisePhase::Search => _UA_SEARCH_PHASE,
        RaisePhase::Cleanup { handler } => if fc == handler {
            6
        } else {
            _UA_CLEANUP_PHASE
        },
    }
}

/// What comes after a frame that had nothing to do, or answered that the unwind
/// should continue.
pub open spec fn passed_frame(mem: MemState, raise: Raise) -> (Raise, RaiseStep) {
    if raise.phase == (RaisePhase::Cleanup { handler: raise.fc }) {
        (raise, RaiseStep::Failed(_URC_FATAL_PHASE2_ERROR))
    } else {
        (Raise { fc: prev_of(mem, raise.fc), ..raise }, RaiseStep::NextFrame)
    }
}

/// What an unwind does at its current frame.
pub open spec fn at_frame(mem: MemState, raise: Raise) -> (Raise, RaiseStep) {
    if raise.phase is Search && raise.fc == NULL {
        (raise, RaiseStep::Failed(_URC_END_OF_STACK))
    } else if personality_of(mem, raise.fc) != 0 {
        (
            raise,
            RaiseStep::Call(
                PersonalityCall {
                    personality: personality_of(mem, raise.fc),
                    actions: actions_at(raise.phase, raise.fc),
                    class_low: mem.u32_at(raise.exc as int),
                    class_high: mem.u32_at(raise.exc + 4),
                    exc: raise.exc,
                    ctx: raise.fc,
                },
            ),
        )
    } else {
        passed_frame(mem, raise)
    }
}

/// What an unwind does once the personality routine of its current frame has
/// returned `code`. `head` is the chain's head.
pub open spec fn after_call(mem: MemState, head: GuestAddr, raise: Raise, code: i32) -> (
    Raise,
    RaiseStep,
) {
    if code == _URC_CONTINUE_UNWIND {
        passed_frame(mem, raise)
    } else if raise.phase is Search {
        if code == _URC_HANDLER_FOUND {
            (
                Raise { fc: head, phase: RaisePhase::Cleanup { handler: raise.fc }, ..raise },
                RaiseStep::NextFrame,
            )
        } else {
            (raise, RaiseStep::Failed(_URC_FATAL_PHASE1_ERROR))
        }
    } else {
        if code == _URC_INSTALL_CONTEXT {
            (raise, RaiseStep::Resume(mem.u32_at(raise.fc + JBUF_PC)))
        } else {
            (raise, RaiseStep::Failed(_URC_FATAL_PHASE2_ERROR))
        }
    }
}

/// The registers with which the guest goes on in the handler of `fc`, as after
/// `__builtin_longjmp(fc->jbuf, 1)`.
pub open spec fn installed_regs(mem: MemState, regs: Seq<u32>, fc: GuestAddr) -> Seq<u32> {
    regs.update(0, 1).update(FRAME_POINTER as int, mem.u32_at(fc + JBUF_FP)).update(
        SP as int,
        mem.u32_at(fc + JBUF_SP),
    ).update(LR as int, mem.u32_at(fc + JBUF_PC))
}

/// Restore the handler frame's saved context. Returns the resume address, to
/// which the guest must branch.
fn install_and_longjmp(env: &mut Environment, fc: GuestAddr) -> (r: GuestAddr)
    requires
        old(env).wf(),
        old(env).mem@.valid(fc as int, JBUF_SP + 4),
    ensures
        final(env).wf(),
        r == old(env).mem@.u32_at(fc + JBUF_PC),
        final(env).regs@ == installed_regs(old(env).mem@, old(env).regs@, fc),
        *final(env) == (Environment { regs: final(env).regs, ..*old(env) }),
{
    let new_fp: u32 = env.mem.read_u32(fc + JBUF_FP);
    let new_pc: u32 = env.mem.read_u32(fc + JBUF_PC);
    let new_sp: u32 = env.mem.read_u32(fc + JBUF_SP);
    env.regs[0] = 1;  // longjmp value
    env.regs[FRAME_POINTER] = new_fp;
    env.regs[SP] = new_sp;
    env.regs[LR] = new_pc;  // the return path branches to LR
    new_pc
}

/// `_Unwind_SjLj_RaiseException`: starts an unwind from the top of the chain.
#[allow(non_snake_case)]
pub fn _Unwind_SjLj_RaiseException(env: &Environment, exc: GuestAddr) -> (r: Raise)
    ensures
        r == (Raise { exc, fc: current_head(*env), phase: RaisePhase::Search }),
{
    Raise { exc, fc: head(env), phase: RaisePhase::Search }
}

/// `_Unwind_SjLj_Resume`: re-raise during two-phase cleanup (rethrow path). If
/// the unwind fails, there's no further handler; nothing safe to do.
#[allow(non_snake_case)]
pub fn _Unwind_SjLj_Resume(env: &Environment, exc: GuestAddr) -> (r: Raise)
    ensures
        r == (Raise { exc, fc: current_head(*env), phase: RaisePhase::Search }),
{
    _Unwind_SjLj_RaiseException(env, exc)
}

/// `_Unwind_SjLj_Resume_or_Rethrow`: called by libstdc++ when a catch block
/// decides to re-throw (or during forced unwind).
#[allow(non_snake_case)]
pub fn _Unwind_SjLj_Resume_or_Rethrow(env: &Environment, exc: GuestAddr) -> (r: Raise)
    ensures
        r == (Raise { exc, fc: current_head(*env), phase: RaisePhase::Search }),
{
    _Unwind_SjLj_RaiseException(env, exc)
}

/// Forced unwinds are not supported.
#[allow(non_snake_case)]
pub fn _Unwind_SjLj_ForcedUnwind(
    env: &Environment,
    exc: GuestAddr,
    stop: GuestAddr,
    stop_arg: GuestAddr,
) -> (r: i32)
    ensures
        r == _URC_END_OF_STACK,
{
    _URC_END_OF_STACK
}

impl Raise {
    fn pass_frame(&mut self, env: &Environment) -> (step: RaiseStep)
        requires
            env.wf(),
            frame_readable(env.mem@, *old(self)),
        ensures
            (*final(self), step) == passed_frame(env.mem@, *old(self)),
    {
        let last: bool = match self.phase {
            RaisePhase::Search => false,
            RaisePhase::Cleanup { handler } => handler == self.fc,
        };
        if last {
            return RaiseStep::Failed(_URC_FATAL_PHASE2_ERROR);
        }
        self.fc = env.mem.read_u32(self.fc + FC_PREV);
        RaiseStep::NextFrame
    }

    /// Does what is to be done at the current frame.
    pub fn step(&mut self, env: &Environment) -> (step: RaiseStep)
        requires
            env.wf(),
            readable(env.mem@, *old(self)),
        ensures
            (*final(self), step) == at_frame(env.mem@, *old(self)),
    {
        let actions: u32 = match self.phase {
            RaisePhase::Search => {
                if self.fc == NULL {
                    return RaiseStep::Failed(_URC_END_OF_STACK);
                }
                _UA_SEARCH_PHASE
            },
            RaisePhase::Cleanup { handler } => if self.fc == handler {
                _UA_CLEANUP_PHASE + _UA_HANDLER_FRAME
            } else {
                _UA_CLEANUP_PHASE
            },
        };
        let personality: u32 = env.mem.read_u32(self.fc + FC_PERSONALITY);
        if personality != 0 {
            RaiseStep::Call(
                PersonalityCall {
                    personality,
                    actions,
                    class_low: env.mem.read_u32(self.exc),
                    class_high: env.mem.read_u32(self.exc + 4),
                    exc: self.exc,
                    ctx: self.fc,
                },
            )
        } else {
            self.pass_frame(env)
        }
    }

    /// Takes what the personality routine that [Self::step] asked for returned.
    pub fn answer(&mut self, env: &mut Environment, code: i32) -> (step: RaiseStep)
        requires
            old(env).wf(),
            frame_readable(old(env).mem@, *old(self)),
            code == _URC_INSTALL_CONTEXT && old(self).phase !is Search ==> old(env).mem@.valid(
                old(self).fc as int,
                JBUF_SP + 4,
            ),
        ensures
            final(env).wf(),
            (*final(self), step) == after_call(
                old(env).mem@,
                current_head(*old(env)),
                *old(self),
                code,
            ),
            final(env).mem == old(env).mem,
            if step is Resume {
                &&& final(env).regs@ == installed_regs(old(env).mem@, old(env).regs@, old(self).fc)
                &&& final(env).libc_state.unwind_sjlj@ == old(env).libc_state.unwind_sjlj@.insert(
                    old(env).current_thread,
                    old(self).fc,
                )
                &&& *final(env) == (Environment {
                    regs: final(env).regs,
                    ..with_heads(*old(env), *final(env))
                })
            } else {
                *final(env) == *old(env)
            },
    {
        if code == _URC_CONTINUE_UNWIND {
            return self.pass_frame(env);
        }
        match self.phase {
            RaisePhase::Search => {
                if code == _URC_HANDLER_FOUND {
                    self.phase = RaisePhase::Cleanup { handler: self.fc };
                    self.fc = head(env);
                    RaiseStep::NextFrame
                } else {
                    RaiseStep::Failed(_URC_FATAL_PHASE1_ERROR)
                }
            },
            RaisePhase::Cleanup { .. } => {
                if code == _URC_INSTALL_CONTEXT {
                    _Unwind_SjLj_SetContext(env, self.fc);
                    let pc: u32 = install_and_longjmp(env, self.fc);
                    RaiseStep::Resume(pc)
                } else {
                    RaiseStep::Failed(_URC_FATAL_PHASE2_ERROR)
                }
            },
        }
    }
}

// What an unwind comes to

/// One frame of an unwind, where the personality routine of the frame `ctx`
/// answers `answers(ctx, actions)`.
pub open spec fn raise_round(
    mem: MemState,
    head: GuestAddr,
    raise: Raise,
    answers: spec_fn(u32, u32) -> i32,
) -> (Raise, RaiseStep) {
    match at_frame(mem, raise) {
        (r, RaiseStep::Call(call)) => after_call(mem, head, r, answers(call.ctx, call.actions)),
        other => other,
    }
}

/// At most `rounds` + 1 frames of an unwind.
pub open spec fn raise_run(
    mem: MemState,
    head: GuestAddr,
    raise: Raise,
    answers: spec_fn(u32, u32) -> i32,
    rounds: nat,
) -> (Raise, RaiseStep)
    decreases rounds,
{
    let (r, step) = raise_round(mem, head, raise, answers);
    if step is NextFrame && rounds > 0 {
        raise_run(mem, head, r, answers, (rounds - 1) as nat)
    } else {
        (r, step)
    }
}

/// Whether `frames` are the frames of a chain, from its head to its end.
pub open spec fn is_chain(mem: MemState, frames: Seq<u32>) -> bool {
    &&& frames.no_duplicates()
    &&& forall|i: int|
        0 <= i < frames.len() ==> {
            &&& #[trigger] frames[i] != NULL
            &&& prev_of(mem, frames[i]) == if i + 1 < frames.len() {
                frames[i + 1]
            } else {
                NULL
            }
        }
}

pub open spec fn chain_head(frames: Seq<u32>) -> u32 {
    if frames.len() > 0 {
        frames[0]
    } else {
        NULL
    }
}

/// Whether a frame lets an unwind pass: it has no personality routine, or that
/// answers that the unwind should continue.
pub open spec fn passes(
    mem: MemState,
    fc: u32,
    actions: u32,
    answers: spec_fn(u32, u32) -> i32,
) -> bool {
    personality_of(mem, fc) == 0 || answers(fc, actions) == _URC_CONTINUE_UNWIND
}

/// An unwind goes from a frame that lets it pass to the next.
proof fn lemma_pass(
    mem: MemState,
    head: GuestAddr,
    raise: Raise,
    answers: spec_fn(u32, u32) -> i32,
)
    requires
        raise.fc != NULL,
        passes(mem, raise.fc, actions_at(raise.phase, raise.fc), answers),
        raise.phase != (RaisePhase::Cleanup { handler: raise.fc }),
    ensures
        raise_round(mem, head, raise, answers) == (
            Raise { fc: prev_of(mem, raise.fc), ..raise },
            RaiseStep::NextFrame,
        ),
{
}

/// An unwind goes from frame to frame as long as they let it pass.
proof fn lemma_walk(
    mem: MemState,
    frames: Seq<u32>,
    raise: Raise,
    answers: spec_fn(u32, u32) -> i32,
    i: int,
    j: int,
    rounds: nat,
)
    requires
        is_chain(mem, frames),
        0 <= i <= j <= frames.len(),
        i < frames.len() ==> raise.fc == frames[i],
        i == frames.len() ==> raise.fc == NULL,
        forall|k: int|
            i <= k < j ==> passes(
                mem,
                #[trigger] frames[k],
                actions_at(raise.phase, frames[k]),
                answers,
            ),
        raise.phase matches RaisePhase::Cleanup { handler } ==> forall|k: int|
            i <= k < j ==> #[trigger] frames[k] != handler,
        rounds >= j - i,
    ensures
        ({
            let fc = if j < frames.len() {
                frames[j]
            } else {
                NULL
            };
            raise_run(mem, chain_head(frames), raise, answers, rounds) == raise_run(
                mem,
                chain_head(frames),
                Raise { fc, ..raise },
                answers,
                (rounds - (j - i)) as nat,
            )
        }),
    decreases j - i,
{
    if i < j {
        assert(passes(mem, frames[i], actions_at(raise.phase, frames[i]), answers));
        lemma_pass(mem, chain_head(frames), raise, answers);
        let next = Raise { fc: prev_of(mem, raise.fc), ..raise };
        lemma_walk(mem, frames, next, answers, i + 1, j, (rounds - 1) as nat);
    } else {
        assert((Raise { fc: raise.fc, ..raise }) == raise);
    }
}

/// Where every frame lets the search pass, no handler is found, and the unwind
/// ends with `_URC_END_OF_STACK`.
pub proof fn law_no_handler(
    mem: MemState,
    frames: Seq<u32>,
    exc: GuestAddr,
    answers: spec_fn(u32, u32) -> i32,
    rounds: nat,
)
    requires
        is_chain(mem, frames),
        forall|k: int|
            0 <= k < frames.len() ==> passes(
                mem,
                #[trigger] frames[k],
                _UA_SEARCH_PHASE,
                answers,
            ),
        rounds >= frames.len(),
    ensures
        raise_run(
            mem,
            chain_head(frames),
            Raise { exc, fc: chain_head(frames), phase: RaisePhase::Search },
            answers,
            rounds,
        ).1 == RaiseStep::Failed(_URC_END_OF_STACK),
{
    let raise = Raise { exc, fc: chain_head(frames), phase: RaisePhase::Search };
    lemma_walk(mem, frames, raise, answers, 0, frames.len() as int, rounds);
}

/// The first frame that does not let the search pass decides: where it does not
/// claim the handler, the unwind fails in its first phase.
pub proof fn law_search_error(
    mem: MemState,
    frames: Seq<u32>,
    exc: GuestAddr,
    answers: spec_fn(u32, u32) -> i32,
    n: int,
    rounds: nat,
)
    requires
        is_chain(mem, frames),
        0 <= n < frames.len(),
        forall|k: int|
            0 <= k < n ==> passes(mem, #[trigger] frames[k], _UA_SEARCH_PHASE, answers),
        !passes(mem, frames[n], _UA_SEARCH_PHASE, answers),
        answers(frames[n], _UA_SEARCH_PHASE) != _URC_HANDLER_FOUND,
        rounds >= n,
    ensures
        raise_run(
            mem,
            chain_head(frames),
            Raise { exc, fc: chain_head(frames), phase: RaisePhase::Search },
            answers,
            rounds,
        ).1 == RaiseStep::Failed(_URC_FATAL_PHASE1_ERROR),
{
    let raise = Raise { exc, fc: chain_head(frames), phase: RaisePhase::Search };
    lemma_walk(mem, frames, raise, answers, 0, n, rounds);
    assert(frames[n] != NULL);
}

/// The first frame that does not let the cleanup pass decides, at the latest the
/// one that claimed the handler: where it installs its context, the guest goes on
/// at the landing pad of just that frame, be it for a cleanup or for the handler,
/// and else the unwind fails in its second phase. Here the `n`th frame is the
/// first to claim the handler, and the `m`th is the one that decides.
pub proof fn law_cleanup_decides(
    mem: MemState,
    frames: Seq<u32>,
    exc: GuestAddr,
    answers: spec_fn(u32, u32) -> i32,
    n: int,
    m: int,
    rounds: nat,
)
    requires
        is_chain(mem, frames),
        0 <= m <= n < frames.len(),
        forall|k: int|
            0 <= k < n ==> passes(mem, #[trigger] frames[k], _UA_SEARCH_PHASE, answers),
        personality_of(mem, frames[n]) != 0,
        answers(frames[n], _UA_SEARCH_PHASE) == _URC_HANDLER_FOUND,
        forall|k: int|
            0 <= k < m ==> passes(mem, #[trigger] frames[k], _UA_CLEANUP_PHASE, answers),
        m < n ==> !passes(mem, frames[m], _UA_CLEANUP_PHASE, answers),
        rounds >= n + m + 1,
    ensures
        ({
            let phase = RaisePhase::Cleanup { handler: frames[n] };
            raise_run(
                mem,
                chain_head(frames),
                Raise { exc, fc: chain_head(frames), phase: RaisePhase::Search },
                answers,
                rounds,
            ) == (
                Raise { exc, fc: frames[m], phase },
                if answers(frames[m], actions_at(phase, frames[m])) == _URC_INSTALL_CONTEXT {
                    RaiseStep::Resume(mem.u32_at(frames[m] + JBUF_PC))
                } else {
                    RaiseStep::Failed(_URC_FATAL_PHASE2_ERROR)
                },
            )
        }),
{
    let search = Raise { exc, fc: chain_head(frames), phase: RaisePhase::Search };
    lemma_walk(mem, frames, search, answers, 0, n, rounds);
    assert(frames[n] != NULL);
    let phase = RaisePhase::Cleanup { handler: frames[n] };
    let cleanup = Raise { exc, fc: chain_head(frames), phase };
    assert(raise_round(mem, chain_head(frames), Raise { fc: frames[n], ..search }, answers) == (
        cleanup,
        RaiseStep::NextFrame,
    ));
    assert forall|k: int| 0 <= k < m implies #[trigger] frames[k] != frames[n] && passes(
        mem,
        frames[k],
        actions_at(phase, frames[k]),
        answers,
    ) by {
        assert(passes(mem, frames[k], _UA_CLEANUP_PHASE, answers));
    }
    lemma_walk(mem, frames, cleanup, answers, 0, m, (rounds - n - 1) as nat);
    assert(frames[m] != NULL);
}

/// The unwind reaches its handler: where the `n`th frame is the first to claim
/// the handler, the frames before it have nothing to catch, and it installs its
/// context, the guest goes on at the landing pad of just that frame.
pub proof fn law_handler_reached(
    mem: MemState,
    frames: Seq<u32>,
    exc: GuestAddr,
    answers: spec_fn(u32, u32) -> i32,
    n: int,
    rounds: nat,
)
    requires
        is_chain(mem, frames),
        0 <= n < frames.len(),
        forall|k: int|
            0 <= k < n ==> passes(mem, #[trigger] frames[k], _UA_SEARCH_PHASE, answers) && passes(
                mem,
                frames[k],
                _UA_CLEANUP_PHASE,
                answers,
            ),
        personality_of(mem, frames[n]) != 0,
        answers(frames[n], _UA_SEARCH_PHASE) == _URC_HANDLER_FOUND,
        answers(frames[n], actions_at(RaisePhase::Cleanup { handler: frames[n] }, frames[n]))
            == _URC_INSTALL_CONTEXT,
        rounds >= 2 * n + 1,
    ensures
        raise_run(
            mem,
            chain_head(frames),
            Raise { exc, fc: chain_head(frames), phase: RaisePhase::Search },
            answers,
            rounds,
        ) == (
            Raise { exc, fc: frames[n], phase: RaisePhase::Cleanup { handler: frames[n] } },
            RaiseStep::Resume(mem.u32_at(frames[n] + JBUF_PC)),
        ),
{
    law_cleanup_decides(mem, frames, exc, answers, n, n, rounds);
}

// Throwing

/// Memory after the header before a thrown object was filled in.
pub open spec fn thrown(mem: MemState, obj: GuestAddr, tinfo: GuestAddr, dtor: GuestAddr) -> MemState {
    mem.write_u32(obj - 0x40, tinfo).write_u32(obj - 0x3c, dtor).write_u32(
        obj - 0x14,
        0x4355_4e47,
    ).write_u32(obj - 0x10, 0x002b_2b43).write_u32(obj - 0x0c, 0).write_u32(
        obj - 0x08,
        0,
    ).write_u32(obj - 0x04, 0)
}

/// The first part of `__cxa_throw`, the C++ throw entry point: fills in the
/// object's header and starts an unwind.
///
/// `__cxa_exception` layout: `exceptionType @ obj-0x40`, `exceptionDestructor @
/// obj-0x3c`, and the `_Unwind_Exception` (unwindHeader) at `obj-0x14`
/// (`exception_class[8], cleanup, private_1, private_2`).
pub fn __cxa_throw(
    env: &mut Environment,
    thrown_object: GuestAddr,
    tinfo: GuestAddr,
    dtor: GuestAddr,
) -> (r: Raise)
    requires
        old(env).wf(),
        old(env).mem@.valid(thrown_object - 0x40, 0x40),
    ensures
        final(env).wf(),
        final(env).mem@ == thrown(old(env).mem@, thrown_object, tinfo, dtor),
        *final(env) == (Environment { mem: final(env).mem, ..*old(env) }),
        r == (Raise {
            exc: (thrown_object - 0x14) as u32,
            fc: current_head(*old(env)),
            phase: RaisePhase::Search,
        }),
{
    let obj: u32 = thrown_object;
    env.mem.write_u32(obj - 0x40, tinfo);  // exceptionType
    env.mem.write_u32(obj - 0x3c, dtor);  // exceptionDestructor
    env.mem.write_u32(obj - 0x14, 0x4355_4e47);  // exception_class lo = "GNUC"
    env.mem.write_u32(obj - 0x10, 0x002b_2b43);  // exception_class hi = "C++\0"
    env.mem.write_u32(obj - 0x0c, 0);  // exception_cleanup
    env.mem.write_u32(obj - 0x08, 0);  // private_1
    env.mem.write_u32(obj - 0x04, 0);  // private_2
    _Unwind_SjLj_RaiseException(env, obj - 0x14)
}

/// The (mangled) name of the type of a thrown object, by its `std::type_info`
/// (Itanium C++ ABI: vtable @ +0, `const char* __type_name` @ +4).
pub open spec fn shown_type_name(mem: MemState, tinfo: GuestAddr) -> Seq<u8> {
    if tinfo == NULL {
        "<no type_info (rethrow)>".spec_bytes()
    } else {
        let name = mem.u32_at(tinfo + 4);
        if name == 0 {
            "<null name>".spec_bytes()
        } else if !valid_utf8(mem.cstr(name as int)) {
            "<unreadable>".spec_bytes()
        } else {
            mem.cstr(name as int)
        }
    }
}

/// What to call the type of an exception that nothing caught.
pub fn uncaught_type_name(env: &Environment, tinfo: GuestAddr) -> (r: Vec<u8>)
    requires
        env.wf(),
        tinfo != NULL ==> {
            let name = env.mem@.u32_at(tinfo + 4);
            &&& env.mem@.valid(tinfo + 4, 4)
            &&& name == 0 || env.mem@.has_cstr(name as int)
        },
    ensures
        r@ == shown_type_name(env.mem@, tinfo),
{
    let mut r: Vec<u8> = Vec::new();
    if tinfo == NULL {
        push_str(&mut r, "<no type_info (rethrow)>");
        assert(r@ =~= "<no type_info (rethrow)>".spec_bytes());
        return r;
    }
    let name: u32 = env.mem.read_u32(tinfo + 4);
    if name == 0 {
        push_str(&mut r, "<null name>");
        assert(r@ =~= "<null name>".spec_bytes());
        return r;
    }
    let text: Vec<u8> = env.mem.cstr_at(name);
    if is_utf8(text.as_slice()) {
        text
    } else {
        push_str(&mut r, "<unreadable>");
        assert(r@ =~= "<unreadable>".spec_bytes());
        r
    }
}

/// The exception object that an unwind is started with has the exception class
/// "GNUCC++" and no cleanup function, and its header names the type and the
/// destructor.
pub proof fn law_thrown_header(mem: MemState, obj: GuestAddr, tinfo: GuestAddr, dtor: GuestAddr)
    requires
        mem.wf(),
        mem.valid(obj - 0x40, 0x40),
    ensures
        ({
            let post = thrown(mem, obj, tinfo, dtor);
            &&& post.u32_at(obj - 0x40) == tinfo
            &&& post.u32_at(obj - 0x3c) == dtor
            &&& post.u32_at(obj - 0x14) == 0x4355_4e47
            &&& post.u32_at(obj - 0x10) == 0x002b_2b43
            &&& post.u32_at(obj - 0x0c) == 0
        }),
{
    let m1 = mem.write_u32(obj - 0x40, tinfo);
    let m2 = m1.write_u32(obj - 0x3c, dtor);
    let m3 = m2.write_u32(obj - 0x14, 0x4355_4e47);
    let m4 = m3.write_u32(obj - 0x10, 0x002b_2b43);
    lemma_le32_roundtrip(mem.bytes, obj - 0x40, tinfo);
    lemma_le32_roundtrip(m1.bytes, obj - 0x3c, dtor);
    lemma_le32_roundtrip(m2.bytes, obj - 0x14, 0x4355_4e47);
    lemma_le32_roundtrip(m3.bytes, obj - 0x10, 0x002b_2b43);
    lemma_le32_roundtrip(m4.bytes, obj - 0x0c, 0);
}

/// A personality routine is handed the exception that is thrown and the frame that
/// it belongs to. The two halves of the exception class, in their order, are the
/// first eight bytes of the exception object, as they lie in memory. The routine is
/// the frame's own. In the search it is asked to search, and in the cleanup to clean
/// up, with the handler's frame told apart.
pub proof fn law_call_hands_over_the_exception(mem: MemState, raise: Raise)
    requires
        mem.wf(),
        readable(mem, raise),
        mem.valid(raise.exc as int, 8),
    ensures
        at_frame(mem, raise).1 matches RaiseStep::Call(call) ==> {
            &&& le32_bytes(call.class_low) + le32_bytes(call.class_high) == mem.bytes_at(
                raise.exc as int,
                8,
            )
            &&& call.exc == raise.exc
            &&& call.ctx == raise.fc
            &&& le32_bytes(call.personality) == mem.bytes_at(raise.fc + 24, 4)
            &&& call.personality != 0
            &&& call.actions == match raise.phase {
                RaisePhase::Search => 1u32,
                RaisePhase::Cleanup { handler } => if handler == raise.fc {
                    6u32
                } else {
                    2u32
                },
            }
            &&& at_frame(mem, raise).0 == raise
        },
        at_frame(mem, raise).1 is Call <==> mem.u32_at(raise.fc + 24) != 0 && !(raise.fc == 0
            && raise.phase is Search),
{
    if let RaiseStep::Call(call) = at_frame(mem, raise).1 {
        let exc = raise.exc as int;
        lemma_word_bytes(mem, exc);
        lemma_word_bytes(mem, exc + 4);
        lemma_word_bytes(mem, raise.fc + 24);
        assert(mem.bytes_at(exc, 8) =~= mem.bytes_at(exc, 4) + mem.bytes_at(exc + 4, 4));
    }
}

/// The bytes of a number that was read are those that are in memory.
proof fn lemma_word_bytes(mem: MemState, at: int)
    requires
        mem.wf(),
        mem.valid(at, 4),
    ensures
        le32_bytes(mem.u32_at(at)) == mem.bytes_at(at, 4),
{
    assert(le32_bytes(mem.u32_at(at)) =~= mem.bytes_at(at, 4));
}

/// An unwind is about one exception from its start to its end.
pub proof fn law_unwind_keeps_its_exception(
    mem: MemState,
    head: GuestAddr,
    raise: Raise,
    answers: spec_fn(u32, u32) -> i32,
    rounds: nat,
)
    ensures
        raise_round(mem, head, raise, answers).0.exc == raise.exc,
        raise_run(mem, head, raise, answers, rounds).0.exc == raise.exc,
    decreases rounds,
{
    if rounds > 0 {
        let next = raise_round(mem, head, raise, answers).0;
        law_unwind_keeps_its_exception(mem, head, next, answers, (rounds - 1) as nat);
    }
}

/// A thrown C++ exception is known as one: whatever frame an unwind with its object
/// has come to, and as long as the object's header is left alone, the class that is
/// handed over is the number whose bytes, from the lowest on, spell `GNUCC++` and a
/// zero.
pub proof fn law_thrown_exceptions_are_native(
    mem: MemState,
    obj: GuestAddr,
    tinfo: GuestAddr,
    dtor: GuestAddr,
    later: MemState,
    raise: Raise,
)
    requires
        mem.wf(),
        mem.valid(obj - 0x40, 0x40),
        later.wf(),
        later.null_size == mem.null_size,
        later.bytes.len() == mem.bytes.len(),
        later.bytes_at(obj - 0x14, 8) == thrown(mem, obj, tinfo, dtor).bytes_at(obj - 0x14, 8),
        raise.exc == obj - 0x14,
        readable(later, raise),
    ensures
        later.bytes_at(obj - 0x14, 8) == seq![
            0x47u8,
            0x4e,
            0x55,
            0x43,
            0x43,
            0x2b,
            0x2b,
            0x00,
        ],
        at_frame(later, raise).1 matches RaiseStep::Call(call) ==> {
            &&& call.class_low + 0x1_0000_0000 * call.class_high == 0x002b_2b43_4355_4e47
            &&& call.exc == obj - 0x14
        },
{
    let post = thrown(mem, obj, tinfo, dtor);
    law_thrown_header(mem, obj, tinfo, dtor);
    lemma_word_bytes(post, obj - 0x14);
    lemma_word_bytes(post, obj - 0x10);
    assert(post.bytes_at(obj - 0x14, 8) =~= post.bytes_at(obj - 0x14, 4) + post.bytes_at(
        obj - 0x10,
        4,
    ));
    let class = later.bytes_at(obj - 0x14, 8);
    assert(class =~= seq![0x47u8, 0x4e, 0x55, 0x43, 0x43, 0x2b, 0x2b, 0x00]);
    assert forall|i: int| 0 <= i < 8 implies later.bytes[obj - 0x14 + i] == #[trigger] class[i] by {}
    assert(later.bytes[obj - 0x14 + 0] == class[0]);
    assert(later.bytes[obj - 0x14 + 1] == class[1]);
    assert(later.bytes[obj - 0x14 + 2] == class[2]);
    assert(later.bytes[obj - 0x14 + 3] == class[3]);
    assert(later.bytes[obj - 0x14 + 4] == class[4]);
    assert(later.bytes[obj - 0x14 + 5] == class[5]);
    assert(later.bytes[obj - 0x14 + 6] == class[6]);
    assert(later.bytes[obj - 0x14 + 7] == class[7]);
}

/// A throw writes to the object's header only.
pub proof fn law_throw_keeps_the_rest(
    mem: MemState,
    obj: GuestAddr,
    tinfo: GuestAddr,
    dtor: GuestAddr,
    other: int,
)
    requires
        mem.wf(),
        mem.valid(obj - 0x40, 0x40),
        0 <= other < mem.bytes.len(),
        other < obj - 0x40 || obj <= other || obj - 0x38 <= other < obj - 0x14,
    ensures
        thrown(mem, obj, tinfo, dtor).bytes[other] == mem.bytes[other],
        thrown(mem, obj, tinfo, dtor).live == mem.live,
{
}

/// The handler is entered as from `longjmp` with the value 1: the frame pointer, the
/// stack pointer and the address to go on at are those that the frame had saved, and
/// every other register is left alone.
pub proof fn law_installed_context(mem: MemState, regs: Seq<u32>, fc: GuestAddr, i: int)
    requires
        regs.len() == 16,
        0 <= i < 16,
    ensures
        installed_regs(mem, regs, fc).len() == 16,
        installed_regs(mem, regs, fc)[i] == if i == 0 {
            1
        } else if i == 7 {
            mem.u32_at(fc + 32)
        } else if i == 13 {
            mem.u32_at(fc + 40)
        } else if i == 14 {
            mem.u32_at(fc + 36)
        } else {
            regs[i]
        },
{
}

/// A context holds its registers one after the other behind its call site, and its
/// instruction pointer is one more than the call site, which wraps around.
pub proof fn law_context_layout(mem: MemState, ctx: GuestAddr, index: i32, ip: u32)
    requires
        mem.wf(),
        mem.valid(ctx + 4, 4),
        index >= 0,
    ensures
        register_addr(ctx, 0) == ctx + 8,
        register_addr(ctx, index) - register_addr(ctx, 0) == 4 * index,
        (ip_of(mem, ctx) - mem.u32_at(ctx + 4)) % 0x1_0000_0000 == 1,
        (ip - with_ip(mem, ctx, ip).u32_at(ctx + 4)) % 0x1_0000_0000 == 1,
{
    let call_site: u32 = if ip == 0 {
        u32::MAX
    } else {
        (ip - 1) as u32
    };
    lemma_le32_roundtrip(mem.bytes, ctx + 4, call_site);
}

/// A type is shown by its name, as its `type_info` has it, whenever there is one
/// that can be shown.
pub proof fn law_type_name_is_shown(mem: MemState, tinfo: GuestAddr, name: u32, text: Seq<u8>)
    requires
        tinfo != NULL,
        name != 0,
        mem.u32_at(tinfo + 4) == name,
        mem.cstr(name as int) == text,
        valid_utf8(text),
    ensures
        shown_type_name(mem, tinfo) == text,
{
}

/// Every frame is asked, from the top of the chain down: an unwind that a frame lets
/// pass goes on with the frame that was registered before it, in either phase, and a
/// cleanup starts at the top again.
pub proof fn law_frames_are_asked_in_order(
    mem: MemState,
    head: GuestAddr,
    raise: Raise,
    code: i32,
)
    ensures
        code == 8 && raise.phase is Search ==> after_call(mem, head, raise, code) == (
            Raise { fc: mem.u32_at(raise.fc as int), ..raise },
            RaiseStep::NextFrame,
        ),
        code == 6 && raise.phase is Search ==> after_call(mem, head, raise, code) == (
            Raise { fc: head, phase: RaisePhase::Cleanup { handler: raise.fc }, ..raise },
            RaiseStep::NextFrame,
        ),
        forall|handler: u32|
            code == 8 && raise.phase == (RaisePhase::Cleanup { handler }) && handler != raise.fc
                ==> #[trigger] passed_to(after_call(mem, head, raise, code), handler) == Some(
                mem.u32_at(raise.fc as int),
            ),
{
}

/// The frame that a cleanup for `handler` has gone on to, if it has.
pub open spec fn passed_to(after: (Raise, RaiseStep), handler: u32) -> Option<u32> {
    if after.1 is NextFrame && after.0.phase == (RaisePhase::Cleanup { handler }) {
        Some(after.0.fc)
    } else {
        None
    }
}

/// What is done with chains leaves all else of the environment alone, but for memory.
pub proof fn law_chains_are_apart(pre: Environment, post: Environment)
    ensures
        ({
            let after = with_heads(pre, post);
            &&& after.mem == post.mem
            &&& after.libc_state.unwind_sjlj == post.libc_state.unwind_sjlj
            &&& after.libc_state.crypto == pre.libc_state.crypto
            &&& after.libc_state.stdlib == pre.libc_state.stdlib
            &&& after.libc_state.zlib == pre.libc_state.zlib
            &&& after.errno == pre.errno
            &&& after.env_vars == pre.env_vars
            &&& after.current_thread == pre.current_thread
            &&& after.regs == pre.regs
            &&& after.executable_path == pre.executable_path
            &&& after.ctype_locale == pre.ctype_locale
        }),
{
}

/// Whatever step an unwind takes, a call that it asks for is of the current frame's
/// own routine, with the class that the exception object starts with, byte for byte,
/// and the frame as its context.
pub proof fn law_step_asks_the_frame(env: Environment, step: RaiseStep)
    requires
        env.wf(),
    ensures
        forall|raise: &mut Raise|
            #[trigger] call_ensures(Raise::step, (raise, &env), step) && readable(env.mem@, *raise)
                ==> (step matches RaiseStep::Call(call) ==> {
                &&& le32_bytes(call.class_low) + le32_bytes(call.class_high) == env.mem@.bytes_at(
                    raise.exc as int,
                    8,
                )
                &&& le32_bytes(call.personality) == env.mem@.bytes_at(raise.fc + 24, 4)
                &&& call.exc == raise.exc
                &&& call.ctx == raise.fc
                &&& *final(raise) == *raise
            }),
{
    assert forall|raise: &mut Raise|
        #[trigger] call_ensures(Raise::step, (raise, &env), step) && readable(
            env.mem@,
            *raise,
        ) implies (step matches RaiseStep::Call(call) ==> {
        &&& le32_bytes(call.class_low) + le32_bytes(call.class_high) == env.mem@.bytes_at(
            raise.exc as int,
            8,
        )
        &&& le32_bytes(call.personality) == env.mem@.bytes_at(raise.fc + 24, 4)
        &&& call.exc == raise.exc
        &&& call.ctx == raise.fc
        &&& *final(raise) == *raise
    }) by {
        if step is Call {
            law_call_hands_over_the_exception(env.mem@, *raise);
        }
    }
}

/// What a personality routine answers is done: where it installs its context in the
/// cleanup, the guest goes on at the address that the frame had saved, with its frame
/// and stack pointers and the value 1, and the frame is the head of the chain. Any
/// other answer leaves the environment alone.
pub proof fn law_answers_are_followed(code: i32, step: RaiseStep)
    ensures
        forall|raise: &mut Raise, env: &mut Environment|
            #[trigger] call_ensures(Raise::answer, (raise, env, code), step) ==> {
                let installs = code == 7 && raise.phase is Cleanup;
                let fc = raise.fc;
                &&& step is Resume <==> installs
                &&& installs ==> {
                    &&& step == RaiseStep::Resume(env.mem@.u32_at(fc + 36))
                    &&& final(env).regs@[0] == 1
                    &&& final(env).regs@[7] == env.mem@.u32_at(fc + 32)
                    &&& final(env).regs@[13] == env.mem@.u32_at(fc + 40)
                    &&& final(env).regs@[14] == env.mem@.u32_at(fc + 36)
                    &&& current_head(*final(env)) == fc
                }
                &&& !installs ==> *final(env) == *env
                &&& final(env).mem == env.mem
                &&& final(raise).exc == raise.exc
            },
{
}

/// Registering a frame puts it at the head of the current thread's chain, in front of
/// what was there, and unregistering it takes it away again.
pub proof fn law_frames_are_registered(fc: GuestAddr, head: GuestAddr, after: Environment)
    requires
        call_ensures(_Unwind_SjLj_GetContext, (&after,), head),
    ensures
        forall|x: &mut Environment|
            #[trigger] call_ensures(_Unwind_SjLj_Register, (x, fc), ()) && x.wf() && x.mem@.valid(
                fc as int,
                4,
            ) && *final(x) == after ==> head == fc && after.mem@.u32_at(fc as int) == current_head(
                *x,
            ),
        forall|x: &mut Environment|
            #[trigger] call_ensures(_Unwind_SjLj_Unregister, (x, fc), ()) && *final(x) == after
                ==> head == x.mem@.u32_at(fc as int) && after.mem@ == x.mem@,
        forall|x: &mut Environment|
            #[trigger] call_ensures(_Unwind_SjLj_SetContext, (x, fc), ()) && *final(x) == after
                ==> head == fc && after.mem@ == x.mem@,
{
    assert forall|x: &mut Environment|
        #[trigger] call_ensures(_Unwind_SjLj_Register, (x, fc), ()) && x.wf() && x.mem@.valid(
            fc as int,
            4,
        ) && *final(x) == after implies head == fc && after.mem@.u32_at(fc as int) == current_head(
        *x,
    ) by {
        lemma_le32_roundtrip(x.mem@.bytes, fc as int, current_head(*x));
    }
}

} // verus!
