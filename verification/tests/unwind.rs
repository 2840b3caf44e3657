//! The exception unwinder.
use touchhle::environment::Environment;
use touchhle::libc::unwind_sjlj::{
    _Unwind_DeleteException, _Unwind_GetCFA, _Unwind_GetDataRelBase, _Unwind_GetGR, _Unwind_GetIP,
    _Unwind_GetIPInfo, _Unwind_GetLanguageSpecificData, _Unwind_GetRegionStart,
    _Unwind_GetTextRelBase, _Unwind_SetGR, _Unwind_SetIP, _Unwind_SjLj_ForcedUnwind,
    _Unwind_SjLj_GetContext, _Unwind_SjLj_RaiseException, _Unwind_SjLj_Register,
    _Unwind_SjLj_Resume, _Unwind_SjLj_Resume_or_Rethrow, _Unwind_SjLj_SetContext,
    _Unwind_SjLj_Unregister, __cxa_throw, uncaught_type_name, Raise, RaisePhase, RaiseStep,
};
use touchhle::mem::Mem;

const A: u32 = 0x1100;
const B: u32 = 0x1200;
const C: u32 = 0x1300;
const EXC: u32 = 0x1400;

fn environment() -> Environment {
    Environment::new(Mem::new(0x10000, 0x1000, 0x8000), Vec::new())
}

/// A chain of C, B and A, from the top. B has no personality routine.
fn chain() -> Environment {
    let mut env = environment();
    _Unwind_SjLj_Register(&mut env, A);
    _Unwind_SjLj_Register(&mut env, B);
    _Unwind_SjLj_Register(&mut env, C);
    env.mem.write_u32(A + 24, 0xa0);
    env.mem.write_u32(C + 24, 0xc0);
    env.mem.write_u32(A + 32, 0x77);
    env.mem.write_u32(A + 36, 0x8888);
    env.mem.write_u32(A + 40, 0x9990);
    env.mem.write_u32(EXC, 0x4355_4e47);
    env.mem.write_u32(EXC + 4, 0x002b_2b43);
    env
}

/// Drives an unwind to its end. Returns it with the calls that it made.
fn run(env: &mut Environment, mut raise: Raise, answer: fn(u32, u32) -> i32) -> (RaiseStep, Vec<(u32, u32)>) {
    let mut calls = Vec::new();
    loop {
        let mut step = raise.step(env);
        if let RaiseStep::Call(call) = step {
            calls.push((call.ctx, call.actions));
            step = raise.answer(env, answer(call.ctx, call.actions));
        }
        match step {
            RaiseStep::NextFrame => {}
            step => return (step, calls),
        }
    }
}

#[test]
fn the_chain_is_kept_per_thread() {
    let mut env = environment();
    assert_eq!(_Unwind_SjLj_GetContext(&env), 0);
    _Unwind_SjLj_Register(&mut env, A);
    _Unwind_SjLj_Register(&mut env, B);
    assert_eq!(_Unwind_SjLj_GetContext(&env), B);
    assert_eq!(env.mem.read_u32(B), A);
    env.current_thread = 1;
    assert_eq!(_Unwind_SjLj_GetContext(&env), 0);
    _Unwind_SjLj_SetContext(&mut env, C);
    env.current_thread = 0;
    _Unwind_SjLj_Unregister(&mut env, B);
    assert_eq!(_Unwind_SjLj_GetContext(&env), A);
    _Unwind_SjLj_Unregister(&mut env, A);
    assert_eq!(_Unwind_SjLj_GetContext(&env), 0);
    env.current_thread = 1;
    assert_eq!(_Unwind_SjLj_GetContext(&env), C);
}

#[test]
fn contexts_are_read_and_written() {
    let mut env = environment();
    env.mem.write_u32(A + 4, 6);
    env.mem.write_u32(A + 28, 0x1500);
    env.mem.write_u32(A + 40, 0x3000);
    assert_eq!(_Unwind_GetIP(&env, A), 7);
    assert_eq!(_Unwind_GetIPInfo(&mut env, A, 0x1600), 7);
    assert_eq!(env.mem.read_u32(0x1600), 1);
    assert_eq!(_Unwind_GetIPInfo(&mut env, A, 0), 7);
    _Unwind_SetIP(&mut env, A, 3);
    assert_eq!(env.mem.read_u32(A + 4), 2);
    assert_eq!(_Unwind_GetIP(&env, A), 3);
    _Unwind_SetIP(&mut env, A, 0);
    assert_eq!(env.mem.read_u32(A + 4), u32::MAX);
    assert_eq!(_Unwind_GetIP(&env, A), 0);
    _Unwind_SetGR(&mut env, A, 0, 11);
    _Unwind_SetGR(&mut env, A, 1, 12);
    assert_eq!(_Unwind_GetGR(&env, A, 0), 11);
    assert_eq!(_Unwind_GetGR(&env, A, 1), 12);
    assert_eq!(_Unwind_GetDataRelBase(&env, A), 11);
    assert_eq!(_Unwind_GetTextRelBase(&env, A), 12);
    assert_eq!(_Unwind_GetLanguageSpecificData(&env, A), 0x1500);
    assert_eq!(_Unwind_GetCFA(&env, A), 0x3000);
    assert_eq!(_Unwind_GetRegionStart(&env, A), 0);
}

#[test]
fn a_handler_is_found_and_installed() {
    let mut env = chain();
    let raise = _Unwind_SjLj_RaiseException(&env, EXC);
    let (step, calls) = run(&mut env, raise, |ctx, actions| match (ctx, actions) {
        (A, 1) => 6,
        (A, 6) => 7,
        _ => 8,
    });
    assert_eq!(step, RaiseStep::Resume(0x8888));
    assert_eq!(calls, vec![(C, 1), (A, 1), (C, 2), (A, 6)]);
    assert_eq!(_Unwind_SjLj_GetContext(&env), A);
    assert_eq!(env.regs[0], 1);
    assert_eq!(env.regs[7], 0x77);
    assert_eq!(env.regs[13], 0x9990);
    assert_eq!(env.regs[14], 0x8888);
    assert_eq!(env.regs[1], 0);
}

#[test]
fn a_cleanup_may_take_over() {
    let mut env = chain();
    env.mem.write_u32(C + 36, 0x5554);
    let raise = _Unwind_SjLj_Resume(&env, EXC);
    let (step, calls) = run(&mut env, raise, |ctx, actions| match (ctx, actions) {
        (A, 1) => 6,
        (C, 2) => 7,
        _ => 8,
    });
    assert_eq!(step, RaiseStep::Resume(0x5554));
    assert_eq!(calls, vec![(C, 1), (A, 1), (C, 2)]);
    assert_eq!(_Unwind_SjLj_GetContext(&env), C);
}

#[test]
fn the_cleanup_may_fail() {
    let mut env = chain();
    let raise = _Unwind_SjLj_RaiseException(&env, EXC);
    // A frame before the handler answers neither to continue nor to install.
    let (step, calls) = run(&mut env, raise, |ctx, actions| match (ctx, actions) {
        (A, 1) => 6,
        (C, 2) => 3,
        _ => 8,
    });
    assert_eq!(step, RaiseStep::Failed(2));
    assert_eq!(calls, vec![(C, 1), (A, 1), (C, 2)]);
    // The frame that claimed the handler lets the cleanup pass.
    let raise = _Unwind_SjLj_RaiseException(&env, EXC);
    let (step, calls) = run(&mut env, raise, |ctx, actions| match (ctx, actions) {
        (A, 1) => 6,
        _ => 8,
    });
    assert_eq!(step, RaiseStep::Failed(2));
    assert_eq!(calls, vec![(C, 1), (A, 1), (C, 2), (A, 6)]);
    assert_eq!(_Unwind_SjLj_GetContext(&env), C);
}

#[test]
fn frames_without_routines_need_no_exception_object() {
    let mut env = environment();
    let raise = _Unwind_SjLj_RaiseException(&env, 0);
    assert_eq!(run(&mut env, raise, |_, _| 8), (RaiseStep::Failed(5), Vec::new()));
    _Unwind_SjLj_Register(&mut env, B);
    let raise = _Unwind_SjLj_RaiseException(&env, 0);
    assert_eq!(run(&mut env, raise, |_, _| 8), (RaiseStep::Failed(5), Vec::new()));
    // Nor is anything of such a frame read that is behind the routine's address.
    let mut env = environment();
    _Unwind_SjLj_Register(&mut env, 0x10000 - 28);
    let raise = _Unwind_SjLj_RaiseException(&env, 0);
    assert_eq!(run(&mut env, raise, |_, _| 8), (RaiseStep::Failed(5), Vec::new()));
}

#[test]
fn without_a_handler_the_stack_ends() {
    let mut env = chain();
    let raise = _Unwind_SjLj_Resume_or_Rethrow(&env, EXC);
    assert_eq!(raise, Raise { exc: EXC, fc: C, phase: RaisePhase::Search });
    let (step, calls) = run(&mut env, raise, |_, _| 8);
    assert_eq!(step, RaiseStep::Failed(5));
    assert_eq!(calls, vec![(C, 1), (A, 1)]);
    assert_eq!(_Unwind_SjLj_GetContext(&env), C);
    let mut env = environment();
    let raise = _Unwind_SjLj_RaiseException(&env, EXC);
    assert_eq!(run(&mut env, raise, |_, _| 8).0, RaiseStep::Failed(5));
    assert_eq!(_Unwind_SjLj_ForcedUnwind(&env, EXC, 0, 0), 5);
}

#[test]
fn other_answers_are_fatal() {
    let mut env = chain();
    let raise = _Unwind_SjLj_RaiseException(&env, EXC);
    assert_eq!(run(&mut env, raise, |_, _| 0).0, RaiseStep::Failed(3));
    assert_eq!(
        run(&mut env, raise, |_, actions| if actions == 1 { 6 } else { 0 }).0,
        RaiseStep::Failed(2)
    );
    // The handler's frame must install its context.
    assert_eq!(
        run(&mut env, raise, |_, actions| if actions == 1 { 6 } else { 8 }).0,
        RaiseStep::Failed(2)
    );
}

#[test]
fn a_throw_fills_in_the_header() {
    let mut env = chain();
    let obj = 0x2000;
    let raise = __cxa_throw(&mut env, obj, 0x1700, 0x1801);
    assert_eq!(raise, Raise { exc: obj - 0x14, fc: C, phase: RaisePhase::Search });
    assert_eq!(env.mem.read_u32(obj - 0x40), 0x1700);
    assert_eq!(env.mem.read_u32(obj - 0x3c), 0x1801);
    assert_eq!(env.mem.bytes_at(obj - 0x14, 8), b"GNUCC++\0".to_vec());
    assert_eq!(env.mem.read_u32(obj - 0xc), 0);
    assert_eq!(_Unwind_DeleteException(&env, obj - 0x14), None);
    env.mem.write_u32(obj - 0xc, 0x4001);
    assert_eq!(_Unwind_DeleteException(&env, obj - 0x14), Some(0x4001));
}

#[test]
fn the_type_of_an_uncaught_exception() {
    let mut env = environment();
    assert_eq!(uncaught_type_name(&env, 0), b"<no type_info (rethrow)>".to_vec());
    assert_eq!(uncaught_type_name(&env, 0x1700), b"<null name>".to_vec());
    env.mem.write_u32(0x1704, 0x1800);
    env.mem.write_bytes(0x1800, &b"St9exception\0".to_vec());
    assert_eq!(uncaught_type_name(&env, 0x1700), b"St9exception".to_vec());
    env.mem.write_u8(0x1800, 0xff);
    assert_eq!(uncaught_type_name(&env, 0x1700), b"<unreadable>".to_vec());
}
