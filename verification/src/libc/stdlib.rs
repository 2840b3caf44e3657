//! `stdlib.h`
use crate::environment::{set_errno, Environment, LibcState};
use crate::libc::char_source::CStr;
use crate::libc::number_text::{
    all_digits, decimal_run, digits_value, float_end, from_digits, is_digit_in,
    law_float_text_is_whole, law_integer_text_is_whole, law_no_digits_no_number,
    law_written_number_is_found, lemma_scan_base, lemma_value_or_max, scan_int, space_end,
    value_or_max, IntScan,
};
use crate::libc::text::signed_decimal;
use crate::mem::{
    le32_bytes, moves_block, takes_block, takes_block_with, GuestAddr, GuestUSize, MemState, NULL,
};
use vstd::prelude::*;

pub use crate::libc::number_text::{
    atof_inner_generic, count_whitespace_generic, str_to_int_inner_generic,
};

verus! {

/// The seeds of the random number generators.
pub struct State {
    pub rand: u32,
    pub random: u32,
    pub arc4random: u32,
}

impl Default for State {
    fn default() -> (r: State)
        ensures
            r == (State { rand: 0, random: 0, arc4random: 0 }),
    {
        State { rand: 0, random: 0, arc4random: 0 }
    }
}

// Conversions of strings to integers

/// What a conversion finds in the string at `s`.
pub open spec fn cstr_scan(mem: MemState, s: int, base: int) -> IntScan {
    scan_int(mem.bytes.skip(s), 0, base, u32::MAX as int)
}

/// Whether the text at `s` can be converted: it does not run into the end of
/// memory, and the base is one that digits are known for.
pub open spec fn convertible(mem: MemState, s: int, base: int) -> bool {
    &&& mem.null_size <= s <= mem.bytes.len()
    &&& base >= 0
    &&& 2 <= cstr_scan(mem, s, base).base <= 36
    &&& !cstr_scan(mem, s, base).starved
}

/// The length of the number at `s` with the whitespace before it; 0 where there
/// is no number.
pub open spec fn number_len(mem: MemState, s: int, base: int) -> int {
    let scan = cstr_scan(mem, s, base);
    let whitespace = space_end(mem.bytes.skip(s), 0);
    if scan.len > scan.prefix {
        whitespace + scan.len
    } else if scan.base == 8 && scan.prefix > 0 {
        whitespace + scan.prefix
    } else {
        0
    }
}

/// The magnitude of the number in `scan`, at most `max`; 0 where there is no
/// number.
pub open spec fn magnitude(scan: IntScan, max: int) -> int {
    if scan.len > scan.prefix {
        value_or_max(scan.digits, scan.base, max)
    } else {
        0
    }
}

/// The number in `scan` as an unsigned type with greatest value `max` has it:
/// a minus sign wraps around.
pub open spec fn unsigned_value(scan: IntScan, max: int) -> int {
    let m = magnitude(scan, max);
    if scan.negative && m != 0 {
        max + 1 - m
    } else {
        m
    }
}

/// The number in `scan` as a signed type with greatest value `max` has it.
pub open spec fn signed_value(scan: IntScan, max: int) -> int {
    if scan.negative {
        -magnitude(scan, max)
    } else {
        magnitude(scan, max)
    }
}

/// Whether `endptr` can take an address, or is null.
pub open spec fn may_store(mem: MemState, endptr: GuestAddr) -> bool {
    endptr == NULL || mem.valid(endptr as int, 4)
}

/// Memory after the address `end` was stored at `endptr`, unless that is null.
pub open spec fn end_stored(mem: MemState, endptr: GuestAddr, end: int) -> MemState {
    if endptr == NULL {
        mem
    } else {
        mem.write_u32(endptr as int, end as u32)
    }
}

/// Stores the address of the `len`th character of `s` at `endptr`, unless that
/// is null.
pub fn store_end(env: &mut Environment, s: GuestAddr, endptr: GuestAddr, len: u32)
    requires
        old(env).wf(),
        may_store(old(env).mem@, endptr),
        s + len <= u32::MAX,
    ensures
        final(env).wf(),
        final(env).mem@ == end_stored(old(env).mem@, endptr, s + len),
        *final(env) == (Environment { mem: final(env).mem, ..*old(env) }),
{
    if endptr != NULL {
        env.mem.write_u32(endptr, s + len);
    }
}

/// Where the number ends is inside memory.
proof fn lemma_number_len(mem: MemState, s: int, base: int)
    requires
        mem.wf(),
        convertible(mem, s, base),
    ensures
        0 <= number_len(mem, s, base),
        s + number_len(mem, s, base) <= u32::MAX,
{
    let t = mem.bytes.skip(s);
    crate::libc::number_text::lemma_scan_extent(t, 0, base, u32::MAX as int);
}

/// Converts the string at `str` with the given callbacks.
fn convert<Q: Default, F3: Fn(&Vec<u8>, u32) -> Q, F4: Fn(Q) -> Q>(
    env: &Environment,
    str: GuestAddr,
    base: u32,
    from_str_radix_fn: F3,
    negation_fn: F4,
) -> (r: Result<(Q, u32), ()>)
    requires
        env.wf(),
        convertible(env.mem@, str as int, base as int),
        forall|digits: &Vec<u8>, b: u32|
            2 <= b <= 36 && all_digits(digits@, b as int) ==> #[trigger] call_requires(
                from_str_radix_fn,
                (digits, b),
            ),
        forall|q: Q| call_requires(negation_fn, (q,)),
    ensures
        crate::libc::number_text::converts_to(
            cstr_scan(env.mem@, str as int, base as int),
            space_end(env.mem@.bytes.skip(str as int), 0),
            from_str_radix_fn,
            negation_fn,
            r,
        ),
{
    let mut source = CStr { mem: &env.mem, start: str };
    str_to_int_inner_generic(
        &mut source,
        0,
        base,
        u32::MAX,
        from_str_radix_fn,
        negation_fn,
    )
}

fn u32_from_digits(digits: &Vec<u8>, base: u32) -> (q: u32)
    requires
        2 <= base <= 36,
        all_digits(digits@, base as int),
    ensures
        q == value_or_max(digits@, base as int, u32::MAX as int),
{
    from_digits(digits, base, u32::MAX as u64) as u32
}

fn u32_negate(num: u32) -> (q: u32)
    ensures
        q == if num == 0 {
            0
        } else {
            u32::MAX + 1 - num
        },
{
    0u32.wrapping_sub(num)
}

pub fn strtoul(env: &mut Environment, str: GuestAddr, endptr: GuestAddr, base: i32) -> (r: u32)
    requires
        old(env).wf(),
        convertible(old(env).mem@, str as int, base as int),
        may_store(old(env).mem@, endptr),
    ensures
        r == unsigned_value(cstr_scan(old(env).mem@, str as int, base as int), u32::MAX as int),
        final(env).wf(),
        final(env).mem@ == end_stored(
            old(env).mem@,
            endptr,
            str + number_len(old(env).mem@, str as int, base as int),
        ),
        *final(env) == (Environment { mem: final(env).mem, errno: 0, ..*old(env) }),
{
    set_errno(env, 0);
    proof {
        lemma_number_len(env.mem@, str as int, base as int);
    }
    let res = convert(env, str, base as u32, u32_from_digits, u32_negate);
    match res {
        Ok((value, len)) => {
            store_end(env, str, endptr, len);
            value
        },
        Err(_) => {
            store_end(env, str, endptr, 0);
            0
        },
    }
}


fn u64_from_digits(digits: &Vec<u8>, base: u32) -> (q: u64)
    requires
        2 <= base <= 36,
        all_digits(digits@, base as int),
    ensures
        q == value_or_max(digits@, base as int, u64::MAX as int),
{
    from_digits(digits, base, u64::MAX)
}

fn u64_negate(num: u64) -> (q: u64)
    ensures
        q == if num == 0 {
            0
        } else {
            u64::MAX + 1 - num
        },
{
    0u64.wrapping_sub(num)
}

pub fn strtoull(env: &mut Environment, str: GuestAddr, endptr: GuestAddr, base: i32) -> (r: u64)
    requires
        old(env).wf(),
        convertible(old(env).mem@, str as int, base as int),
        may_store(old(env).mem@, endptr),
    ensures
        r == unsigned_value(cstr_scan(old(env).mem@, str as int, base as int), u64::MAX as int),
        final(env).wf(),
        final(env).mem@ == end_stored(
            old(env).mem@,
            endptr,
            str + number_len(old(env).mem@, str as int, base as int),
        ),
        *final(env) == (Environment { mem: final(env).mem, errno: 0, ..*old(env) }),
{
    set_errno(env, 0);
    proof {
        lemma_number_len(env.mem@, str as int, base as int);
    }
    let res = convert(env, str, base as u32, u64_from_digits, u64_negate);
    match res {
        Ok((value, len)) => {
            store_end(env, str, endptr, len);
            value
        },
        Err(_) => {
            store_end(env, str, endptr, 0);
            0
        },
    }
}

fn i64_from_digits(digits: &Vec<u8>, base: u32) -> (q: i64)
    requires
        2 <= base <= 36,
        all_digits(digits@, base as int),
    ensures
        q == value_or_max(digits@, base as int, i64::MAX as int),
        q >= 0,
{
    proof {
        lemma_value_or_max(digits@, base as int, i64::MAX as int);
    }
    from_digits(digits, base, i64::MAX as u64) as i64
}

fn i64_negate(num: i64) -> (q: i64)
    ensures
        q == if num == i64::MIN {
            i64::MIN as int
        } else {
            -num
        },
{
    if num == i64::MIN {
        num
    } else {
        -num
    }
}

pub fn strtoll(env: &mut Environment, str: GuestAddr, endptr: GuestAddr, base: i32) -> (r: i64)
    requires
        old(env).wf(),
        convertible(old(env).mem@, str as int, base as int),
        may_store(old(env).mem@, endptr),
    ensures
        r == signed_value(cstr_scan(old(env).mem@, str as int, base as int), i64::MAX as int),
        final(env).wf(),
        final(env).mem@ == end_stored(
            old(env).mem@,
            endptr,
            str + number_len(old(env).mem@, str as int, base as int),
        ),
        *final(env) == (Environment { mem: final(env).mem, errno: 0, ..*old(env) }),
{
    set_errno(env, 0);
    proof {
        lemma_number_len(env.mem@, str as int, base as int);
    }
    let res = convert(env, str, base as u32, i64_from_digits, i64_negate);
    match res {
        Ok((value, len)) => {
            store_end(env, str, endptr, len);
            value
        },
        Err(_) => {
            store_end(env, str, endptr, 0);
            0
        },
    }
}

fn i32_from_digits(digits: &Vec<u8>, base: u32) -> (q: i32)
    requires
        2 <= base <= 36,
        all_digits(digits@, base as int),
    ensures
        q == value_or_max(digits@, base as int, i32::MAX as int),
        q >= 0,
{
    proof {
        lemma_value_or_max(digits@, base as int, i32::MAX as int);
    }
    from_digits(digits, base, i32::MAX as u64) as i32
}

fn i32_negate(num: i32) -> (q: i32)
    ensures
        q == if num == i32::MIN {
            i32::MIN as int
        } else {
            -num
        },
{
    if num == i32::MIN {
        num
    } else {
        -num
    }
}

/// Whether there is a number in `scan`.
pub open spec fn has_number(scan: IntScan) -> bool {
    scan.len > scan.prefix || (scan.base == 8 && scan.prefix > 0)
}

/// A simple wrapper around [str_to_int_inner_generic]
/// for the case of C string and i32.
pub fn strtol_inner(env: &Environment, str: GuestAddr, base: u32) -> (r: Result<(i32, u32), ()>)
    requires
        env.wf(),
        convertible(env.mem@, str as int, base as int),
    ensures
        ({
            let scan = cstr_scan(env.mem@, str as int, base as int);
            match r {
                Ok((value, len)) => {
                    &&& has_number(scan)
                    &&& value == signed_value(scan, i32::MAX as int)
                    &&& len == number_len(env.mem@, str as int, base as int)
                },
                Err(_) => !has_number(scan),
            }
        }),
{
    convert(env, str, base, i32_from_digits, i32_negate)
}

pub fn strtol(env: &mut Environment, str: GuestAddr, endptr: GuestAddr, base: i32) -> (r: i32)
    requires
        old(env).wf(),
        convertible(old(env).mem@, str as int, base as int),
        may_store(old(env).mem@, endptr),
    ensures
        r == signed_value(cstr_scan(old(env).mem@, str as int, base as int), i32::MAX as int),
        final(env).wf(),
        final(env).mem@ == end_stored(
            old(env).mem@,
            endptr,
            str + number_len(old(env).mem@, str as int, base as int),
        ),
        *final(env) == (Environment { mem: final(env).mem, errno: 0, ..*old(env) }),
{
    set_errno(env, 0);
    proof {
        lemma_number_len(env.mem@, str as int, base as int);
    }
    match strtol_inner(env, str, base as u32) {
        Ok((value, len)) => {
            store_end(env, str, endptr, len);
            value
        },
        Err(_) => {
            store_end(env, str, endptr, 0);
            0
        },
    }
}

pub fn atoi(env: &mut Environment, s: GuestAddr) -> (r: i32)
    requires
        old(env).wf(),
        convertible(old(env).mem@, s as int, 10),
    ensures
        r == signed_value(cstr_scan(old(env).mem@, s as int, 10), i32::MAX as int),
        *final(env) == (Environment { errno: 0, ..*old(env) }),
{
    set_errno(env, 0);
    // conveniently, overflow is undefined, so 0 is as valid a result as any
    match strtol_inner(env, s, 10) {
        Ok((value, _)) => value,
        Err(_) => 0,
    }
}

pub fn atol(env: &mut Environment, s: GuestAddr) -> (r: i32)
    requires
        old(env).wf(),
        convertible(old(env).mem@, s as int, 10),
    ensures
        r == signed_value(cstr_scan(old(env).mem@, s as int, 10), i32::MAX as int),
        *final(env) == (Environment { errno: 0, ..*old(env) }),
{
    atoi(env, s)
}

/// Whether the text at `s` can be read as a decimal number: it does not run
/// into the end of memory.
pub open spec fn float_readable(mem: MemState, s: int) -> bool {
    let t = mem.bytes.skip(s);
    mem.null_size <= s <= mem.bytes.len() && float_end(t, space_end(t, 0)) < t.len()
}

/// A simple wrapper around [atof_inner_generic] for the case of C string.
pub fn atof_inner(env: &Environment, s: GuestAddr) -> (r: (Vec<u8>, u32))
    requires
        env.wf(),
        float_readable(env.mem@, s as int),
    ensures
        ({
            let t = env.mem@.bytes.skip(s as int);
            let start = space_end(t, 0);
            &&& 0 <= start <= float_end(t, start) < t.len()
            &&& r.0@ == t.subrange(start, float_end(t, start))
            &&& r.1 == float_end(t, start)
        }),
{
    let mut source = CStr { mem: &env.mem, start: s };
    atof_inner_generic(&mut source, 0)
}

/// The first half of `strtod` and `strtof`: clears `errno` and finds the text of
/// the number. What the text stands for is for the caller to work out.
pub fn begin_strtod(env: &mut Environment, nptr: GuestAddr) -> (r: (Vec<u8>, u32))
    requires
        old(env).wf(),
        float_readable(old(env).mem@, nptr as int),
    ensures
        ({
            let t = old(env).mem@.bytes.skip(nptr as int);
            let start = space_end(t, 0);
            &&& 0 <= start <= float_end(t, start) < t.len()
            &&& r.0@ == t.subrange(start, float_end(t, start))
            &&& r.1 == float_end(t, start)
        }),
        *final(env) == (Environment { errno: 0, ..*old(env) }),
{
    set_errno(env, 0);
    atof_inner(env, nptr)
}

/// The second half of `strtod` and `strtof`: stores where the number ended. A
/// text that stands for no number has the length 0.
pub fn end_strtod(
    env: &mut Environment,
    nptr: GuestAddr,
    endptr: GuestAddr,
    parsed: bool,
    len: u32,
)
    requires
        old(env).wf(),
        may_store(old(env).mem@, endptr),
        nptr + len <= u32::MAX,
    ensures
        final(env).wf(),
        final(env).mem@ == end_stored(
            old(env).mem@,
            endptr,
            nptr + (if parsed {
                len as int
            } else {
                0
            }),
        ),
        *final(env) == (Environment { mem: final(env).mem, ..*old(env) }),
{
    store_end(
        env,
        nptr,
        endptr,
        if parsed {
            len
        } else {
            0
        },
    );
}


/// A number that was written in decimal is converted back to that number, where
/// it is in range. The least number of a signed type is not: its magnitude is
/// not in range.
pub proof fn law_conversion_undoes_writing(n: int, max: int)
    requires
        -max <= n <= max,
        signed_decimal(n).len() < u32::MAX,
    ensures
        ({
            let scan = scan_int(signed_decimal(n).push(0), 0, 10, u32::MAX as int);
            &&& signed_value(scan, max) == n
            &&& n >= 0 ==> unsigned_value(scan, max) == n
        }),
{
    law_written_number_is_found(n, u32::MAX as int);
}

/// The string at `s` is converted to the number that it is: behind whitespace up to
/// `p`, with a sign of length `sign`, and the digits from `d` up to `e`, behind `0x`
/// where that is there. The number ends at `e`. It is the greatest of its type where
/// the digits stand for a greater one. A minus sign negates it, and wraps around
/// where the type has no sign. `b` is the base that the number has.
pub proof fn law_string_is_converted(
    mem: MemState,
    s: int,
    p: int,
    sign: int,
    d: int,
    e: int,
    base: int,
    b: int,
    max: int,
)
    requires
        max >= 1,
        is_integer(mem, s, p, sign, d, e, base, b),
    ensures
        convertible(mem, s, base),
        number_len(mem, s, base) == e,
        has_number(cstr_scan(mem, s, base)),
        ({
            let t = mem.bytes.skip(s);
            let value = digits_value(t.subrange(d, e), b);
            let least = if value > max {
                max
            } else {
                value
            };
            let number = if t[p] == 0x2d {
                -least
            } else {
                least
            };
            let unsigned = unsigned_value(cstr_scan(mem, s, base), max);
            &&& signed_value(cstr_scan(mem, s, base), max) == number
            &&& 0 <= unsigned <= max
            &&& (unsigned - number) % (max + 1) == 0
        }),
{
    let t = mem.bytes.skip(s);
    law_integer_text_is_whole(t, 0, p, sign, d, e, base, u32::MAX as int);
    lemma_scan_base(t, 0, base, u32::MAX as int);
    let scan = cstr_scan(mem, s, base);
    lemma_value_or_max(scan.digits, b, max);
    let unsigned = unsigned_value(scan, max);
    let signed = signed_value(scan, max);
    assert(unsigned - signed == 0 || unsigned - signed == max + 1);
}

/// Where nothing is a digit behind whitespace and an optional sign, the number is 0,
/// and it ends where the string starts. In base 8 a sign alone is a number.
pub proof fn law_no_number_is_zero(mem: MemState, s: int, p: int, sign: int, base: int, max: int)
    requires
        mem.null_size <= s <= mem.bytes.len(),
        base == 0 || 2 <= base <= 36,
        sign == 0 || base != 8,
        ({
            let t = mem.bytes.skip(s);
            &&& 0 <= p && p + sign < t.len()
            &&& forall|i: int| 0 <= i < p ==> (#[trigger] t[i] == 0x20 || 0x09 <= t[i] <= 0x0d)
            &&& sign == 1 && (t[p] == 0x2b || t[p] == 0x2d) || sign == 0 && t[p] != 0x2b && t[p]
                != 0x2d && !(t[p] == 0x20 || 0x09 <= t[p] <= 0x0d)
            &&& t[p + sign] != 0x30
            &&& !is_digit_in(
                t[p + sign],
                if base == 0 {
                    10
                } else {
                    base
                },
            )
        }),
    ensures
        !has_number(cstr_scan(mem, s, base)),
        number_len(mem, s, base) == 0,
        signed_value(cstr_scan(mem, s, base), max) == 0,
        unsigned_value(cstr_scan(mem, s, base), max) == 0,
{
    law_no_digits_no_number(mem.bytes.skip(s), 0, p, sign, base, u32::MAX as int);
}

/// The end of a number is where its address is stored, if anywhere, and no other
/// part of memory changes.
pub proof fn law_end_is_stored(mem: MemState, endptr: GuestAddr, end: u32, other: int)
    requires
        mem.wf(),
        may_store(mem, endptr),
        0 <= other < mem.bytes.len(),
    ensures
        ({
            let after = end_stored(mem, endptr, end as int);
            &&& endptr != NULL ==> after.u32_at(endptr as int) == end
            &&& endptr == NULL || other < endptr || endptr + 4 <= other ==> after.bytes[other]
                == mem.bytes[other]
            &&& after.live == mem.live
        }),
{
    if endptr != NULL {
        crate::mem::lemma_le32_roundtrip(mem.bytes, endptr as int, end);
    }
}

// Memory

pub fn malloc(env: &mut Environment, size: GuestUSize) -> (r: GuestAddr)
    requires
        old(env).wf(),
        old(env).mem@.has_room(size as int, false),
    ensures
        final(env).wf(),
        takes_block(old(env).mem@, final(env).mem@, r, size as int, false),
        *final(env) == (Environment { mem: final(env).mem, errno: 0, ..*old(env) }),
{
    set_errno(env, 0);
    env.mem.malloc(size)
}

pub fn malloc_size(env: &Environment, ptr: GuestAddr) -> (r: GuestUSize)
    requires
        env.wf(),
        env.mem@.live.contains_key(ptr),
    ensures
        r == env.mem@.live[ptr],
{
    env.mem.malloc_size(ptr)
}

pub fn calloc(env: &mut Environment, count: GuestUSize, size: GuestUSize) -> (r: GuestAddr)
    requires
        old(env).wf(),
        size * count <= u32::MAX,
        old(env).mem@.has_room(size * count, false),
    ensures
        final(env).wf(),
        takes_block_with(
            old(env).mem@,
            final(env).mem@,
            r,
            Seq::new((size * count) as nat, |i: int| 0u8),
        ),
        *final(env) == (Environment { mem: final(env).mem, errno: 0, ..*old(env) }),
{
    set_errno(env, 0);
    let total: u32 = size * count;
    env.mem.calloc(total)
}

pub fn valloc(env: &mut Environment, size: GuestUSize) -> (r: GuestAddr)
    requires
        old(env).wf(),
        old(env).mem@.has_room(size as int, true),
    ensures
        final(env).wf(),
        takes_block(old(env).mem@, final(env).mem@, r, size as int, true),
        *final(env) == (Environment { mem: final(env).mem, errno: 0, ..*old(env) }),
{
    set_errno(env, 0);
    env.mem.valloc(size)
}

pub fn realloc(env: &mut Environment, ptr: GuestAddr, size: GuestUSize) -> (r: GuestAddr)
    requires
        old(env).wf(),
        ptr != NULL ==> old(env).mem@.live.contains_key(ptr),
        (ptr != NULL && old(env).mem@.live[ptr] >= size) || old(env).mem@.has_room(
            size as int,
            false,
        ),
    ensures
        final(env).wf(),
        if ptr == NULL {
            takes_block(old(env).mem@, final(env).mem@, r, size as int, false)
        } else {
            moves_block(old(env).mem@, final(env).mem@, ptr, size as int, r)
        },
        *final(env) == (Environment { mem: final(env).mem, errno: 0, ..*old(env) }),
{
    set_errno(env, 0);
    if ptr == NULL {
        return malloc(env, size);
    }
    env.mem.realloc(ptr, size)
}

/// What became of a request to free.
#[derive(Clone, Copy, Debug, PartialEq, Eq, Structural)]
pub enum FreeOutcome {
    /// The pointer is to an object, which must be deallocated as such.
    IsObject,
    /// The pointer is null.
    Nothing,
    /// The block was freed.
    Freed,
    /// The block was freed, and its address reads as text: some code is likely
    /// to have mistaken characters for a pointer.
    FreedTextLike,
}

/// Whether all four bytes of `ptr` are printable ASCII.
pub open spec fn reads_as_text(ptr: u32) -> bool {
    forall|i: int| 0 <= i < 4 ==> 0x20 <= #[trigger] le32_bytes(ptr)[i] < 0x7f
}

fn printable(c: u32) -> (r: bool)
    ensures
        r == (0x20 <= c < 0x7f),
{
    0x20 <= c && c < 0x7f
}

/// Frees the block at `ptr`. Whether that is an object, the caller knows.
pub fn free(env: &mut Environment, ptr: GuestAddr, is_object: bool) -> (r: FreeOutcome)
    requires
        old(env).wf(),
        is_object || ptr == NULL || old(env).mem@.live.contains_key(ptr),
    ensures
        final(env).wf(),
        r == if is_object {
            FreeOutcome::IsObject
        } else if ptr == NULL {
            FreeOutcome::Nothing
        } else if reads_as_text(ptr) {
            FreeOutcome::FreedTextLike
        } else {
            FreeOutcome::Freed
        },
        final(env).mem@ == if is_object || ptr == NULL {
            old(env).mem@
        } else {
            old(env).mem@.without_block(ptr)
        },
        *final(env) == (Environment {
            mem: final(env).mem,
            errno: if is_object {
                old(env).errno
            } else {
                0
            },
            ..*old(env)
        }),
{
    // We need to catch situations of freeing NSObjects early!
    if is_object {
        return FreeOutcome::IsObject;
    }
    set_errno(env, 0);
    if ptr == NULL {
        // "If ptr is a NULL pointer, no operation is performed."
        return FreeOutcome::Nothing;
    }
    env.mem.free(ptr);
    let text: bool = printable(ptr % 256) && printable(ptr / 256 % 256) && printable(
        ptr / 65536 % 256,
    ) && printable(ptr / 16777216);
    proof {
        let b = le32_bytes(ptr);
        assert(b[0] == ptr % 256 && b[1] == ptr / 256 % 256 && b[2] == ptr / 65536 % 256 && b[3]
            == ptr / 16777216);
    }
    if text {
        FreeOutcome::FreedTextLike
    } else {
        FreeOutcome::Freed
    }
}

/// Accepts a function to be called at exit. It is never called.
pub fn atexit(env: &mut Environment, func: GuestAddr) -> (r: i32)
    ensures
        r == 0,
        *final(env) == *old(env),
{
    0
}

// Random numbers

/// One step of the generator (xorshift32). A state of zero counts as one.
pub open spec fn prng_step(state: u32) -> u32 {
    let a: u32 = if state == 0 {
        1
    } else {
        state
    };
    let b: u32 = a ^ (a << 13);
    let c: u32 = b ^ (b >> 17);
    c ^ (c << 5)
}

/// The part of a random number that `rand` and `random` return: all bits but
/// the highest.
pub open spec fn rand_value(state: u32) -> int {
    state as int % 0x8000_0000
}

pub fn prng(state: u32) -> (r: u32)
    ensures
        r == prng_step(state),
{
    // The state must not be zero for this algorithm to work. This also makes
    // the default seed be 1, which matches the C standard.
    let mut state: u32 = if state == 0 {
        1
    } else {
        state
    };
    // https://en.wikipedia.org/wiki/Xorshift#Example_implementation
    // xorshift32 is not a good random number generator, but it is cute one!
    // It's not like anyone expects the C stdlib `rand()` to be good.
    state = state ^ (state << 13);
    state = state ^ (state >> 17);
    state ^ (state << 5)
}

pub const RAND_MAX: i32 = 0x7fff_ffff;

fn to_rand(state: u32) -> (r: i32)
    ensures
        r == rand_value(state),
        0 <= r <= RAND_MAX,
{
    (state % 0x8000_0000) as i32
}

pub fn srand(env: &mut Environment, seed: u32)
    ensures
        *final(env) == (Environment {
            libc_state: LibcState {
                stdlib: State { rand: seed, ..old(env).libc_state.stdlib },
                ..old(env).libc_state
            },
            ..*old(env)
        }),
{
    env.libc_state.stdlib.rand = seed;
}

/// The seed that a time in nanoseconds gives.
pub open spec fn time_seed(nanos: u128) -> u32 {
    #[verifier::truncate]
    ((nanos ^ (nanos >> 32)) as u32)
}

/// BSD's rand() seed function, given the time since 1970: good enough for games
/// that want fresh "fake" randomness each run.
pub fn sranddev(env: &mut Environment, nanos: u128)
    ensures
        *final(env) == (Environment {
            libc_state: LibcState {
                stdlib: State { rand: time_seed(nanos), ..old(env).libc_state.stdlib },
                ..old(env).libc_state
            },
            ..*old(env)
        }),
{
    let seed: u32 = #[verifier::truncate]
    ((nanos ^ (nanos >> 32)) as u32);
    env.libc_state.stdlib.rand = seed;
}

pub fn rand(env: &mut Environment) -> (r: i32)
    ensures
        r == rand_value(prng_step(old(env).libc_state.stdlib.rand)),
        *final(env) == (Environment {
            libc_state: LibcState {
                stdlib: State {
                    rand: prng_step(old(env).libc_state.stdlib.rand),
                    ..old(env).libc_state.stdlib
                },
                ..old(env).libc_state
            },
            ..*old(env)
        }),
{
    env.libc_state.stdlib.rand = prng(env.libc_state.stdlib.rand);
    to_rand(env.libc_state.stdlib.rand)
}

pub fn rand_r(env: &mut Environment, seed_ptr: GuestAddr) -> (r: i32)
    requires
        old(env).wf(),
        old(env).mem@.valid(seed_ptr as int, 4),
    ensures
        final(env).wf(),
        r == rand_value(prng_step(old(env).mem@.u32_at(seed_ptr as int))),
        final(env).mem@ == old(env).mem@.write_u32(
            seed_ptr as int,
            prng_step(old(env).mem@.u32_at(seed_ptr as int)),
        ),
        *final(env) == (Environment { mem: final(env).mem, ..*old(env) }),
{
    let seed: u32 = prng(env.mem.read_u32(seed_ptr));
    env.mem.write_u32(seed_ptr, seed);
    to_rand(seed)
}

// BSD's "better" random number generator, with an implementation that is not
// actually better.

pub fn srandom(env: &mut Environment, seed: u32)
    ensures
        *final(env) == (Environment {
            errno: 0,
            libc_state: LibcState {
                stdlib: State { random: seed, ..old(env).libc_state.stdlib },
                ..old(env).libc_state
            },
            ..*old(env)
        }),
{
    set_errno(env, 0);
    env.libc_state.stdlib.random = seed;
}

pub fn random(env: &mut Environment) -> (r: i32)
    ensures
        r == rand_value(prng_step(old(env).libc_state.stdlib.random)),
        *final(env) == (Environment {
            errno: 0,
            libc_state: LibcState {
                stdlib: State {
                    random: prng_step(old(env).libc_state.stdlib.random),
                    ..old(env).libc_state.stdlib
                },
                ..old(env).libc_state
            },
            ..*old(env)
        }),
{
    set_errno(env, 0);
    env.libc_state.stdlib.random = prng(env.libc_state.stdlib.random);
    to_rand(env.libc_state.stdlib.random)
}

pub fn arc4random(env: &mut Environment) -> (r: u32)
    ensures
        r == prng_step(old(env).libc_state.stdlib.arc4random),
        *final(env) == (Environment {
            libc_state: LibcState {
                stdlib: State {
                    arc4random: prng_step(old(env).libc_state.stdlib.arc4random),
                    ..old(env).libc_state.stdlib
                },
                ..old(env).libc_state
            },
            ..*old(env)
        }),
{
    env.libc_state.stdlib.arc4random = prng(env.libc_state.stdlib.arc4random);
    env.libc_state.stdlib.arc4random
}

/// The generator never reaches zero, so a run of it never falls back to the
/// default seed.
pub proof fn law_prng_nonzero(state: u32)
    ensures
        prng_step(state) != 0,
{
    let a: u32 = if state == 0 {
        1
    } else {
        state
    };
    assert(({
        let b: u32 = a ^ (a << 13);
        let c: u32 = b ^ (b >> 17);
        c ^ (c << 5)
    }) != 0) by (bit_vector)
        requires
            a != 0u32,
    ;
}

/// The default seed is 1.
pub proof fn law_prng_default_seed()
    ensures
        prng_step(0) == prng_step(1),
{
}

/// Two different states have two different successors: no part of the
/// generator's cycle is ever lost.
pub proof fn law_prng_injective(x: u32, y: u32)
    requires
        x != 0,
        y != 0,
        prng_step(x) == prng_step(y),
    ensures
        x == y,
{
    let x1: u32 = x ^ (x << 13);
    let x2: u32 = x1 ^ (x1 >> 17);
    let y1: u32 = y ^ (y << 13);
    let y2: u32 = y1 ^ (y1 >> 17);
    assert(x2 == y2) by (bit_vector)
        requires
            x2 ^ (x2 << 5) == y2 ^ (y2 << 5),
    ;
    assert(x1 == y1) by (bit_vector)
        requires
            x1 ^ (x1 >> 17) == y1 ^ (y1 >> 17),
    ;
    assert(x == y) by (bit_vector)
        requires
            x ^ (x << 13) == y ^ (y << 13),
    ;
}

/// The generator is linear: the successor of two states that are combined by
/// exclusive or is the combination of their successors.
pub proof fn law_prng_linear(x: u32, y: u32)
    requires
        x != 0,
        y != 0,
        x != y,
    ensures
        prng_step(x ^ y) == prng_step(x) ^ prng_step(y),
{
    assert(x ^ y != 0) by (bit_vector)
        requires
            x != y,
    ;
    assert(({
        let a: u32 = x ^ y;
        let b: u32 = a ^ (a << 13);
        let c: u32 = b ^ (b >> 17);
        c ^ (c << 5)
    }) == ({
        let b: u32 = x ^ (x << 13);
        let c: u32 = b ^ (b >> 17);
        c ^ (c << 5)
    }) ^ ({
        let b: u32 = y ^ (y << 13);
        let c: u32 = b ^ (b >> 17);
        c ^ (c << 5)
    })) by (bit_vector);
}

/// A random number is all of the state but its highest bit.
pub proof fn law_random_numbers_are_states(state: u32)
    ensures
        0 <= rand_value(state) <= RAND_MAX,
        rand_value(state) == state || rand_value(state) == state - 0x8000_0000,
        state <= RAND_MAX ==> rand_value(state) == state,
{
}

/// The shifts of the generator are by 13 to the left, 17 to the right and 5 to the
/// left: what is in a state's lowest four bits, and what is in the two bits from the
/// seventeenth on, turns up at just the places where these take it.
pub proof fn law_prng_shifts(low: u32, high: u32)
    requires
        0 < low < 16,
        0 < high < 4,
    ensures
        prng_step(low) == low + low * 0x20 + low * 0x2000 + low * 0x4_0000,
        prng_step((high * 0x2_0000) as u32) == high ^ (high << 5) ^ (high << 13) ^ (high << 17) ^ (
        high << 18) ^ (high << 22) ^ (high << 30),
{
    assert(({
        let b: u32 = low ^ (low << 13);
        let c: u32 = b ^ (b >> 17);
        c ^ (c << 5)
    }) == low + low * 0x20 + low * 0x2000 + low * 0x4_0000) by (bit_vector)
        requires
            low < 16u32,
    ;
    let state: u32 = (high * 0x2_0000) as u32;
    assert(state == high << 17) by (bit_vector)
        requires
            high < 4u32,
            state == high * 0x2_0000,
    ;
    assert(({
        let a: u32 = high << 17;
        let b: u32 = a ^ (a << 13);
        let c: u32 = b ^ (b >> 17);
        c ^ (c << 5)
    }) == high ^ (high << 5) ^ (high << 13) ^ (high << 17) ^ (high << 18) ^ (high << 22) ^ (high
        << 30)) by (bit_vector)
        requires
            high < 4u32,
    ;
}

/// The seed from a time is its low word, changed by the next word wherever that has
/// a bit.
pub proof fn law_time_seed(nanos: u128, high: u32, low: u32)
    requires
        nanos == high * 0x1_0000_0000 + low,
    ensures
        time_seed(nanos) == low ^ high,
{
    assert(#[verifier::truncate]
    ((nanos ^ (nanos >> 32)) as u32) == low ^ high) by (bit_vector)
        requires
            nanos == (high as u128) * 0x1_0000_0000 + (low as u128),
    ;
}

/// `atof`, `strtod` and `strtof` read all of a number as C writes it, and nothing
/// else: behind whitespace up to `p`, an optional sign, up to `digits`; digits, up to
/// `whole`; optionally a point and digits, up to `fraction`; and optionally an `e` or
/// `E`, a sign or none, up to `power`, and digits, up to `e`.
pub proof fn law_decimal_number_is_read(
    env: Environment,
    s: GuestAddr,
    p: int,
    digits: int,
    whole: int,
    fraction: int,
    power: int,
    e: int,
    r: (Vec<u8>, u32),
)
    requires
        env.wf(),
        env.mem@.null_size <= s <= env.mem@.bytes.len(),
        call_ensures(atof_inner, (&env, s), r),
        ({
            let t = env.mem@.bytes.skip(s as int);
            &&& 0 <= p <= digits <= whole <= fraction <= power <= e < t.len()
            &&& forall|i: int| 0 <= i < p ==> (#[trigger] t[i] == 0x20 || 0x09 <= t[i] <= 0x0d)
            &&& !(t[p] == 0x20 || 0x09 <= t[p] <= 0x0d)
            &&& digits == p + 1 && (t[p] == 0x2b || t[p] == 0x2d) || digits == p && t[p] != 0x2b
                && t[p] != 0x2d
            &&& decimal_run(t, digits, whole)
            &&& whole < fraction ==> t[whole] == 0x2e && decimal_run(t, whole + 1, fraction)
            &&& fraction < e ==> {
                &&& t[fraction] == 0x65 || t[fraction] == 0x45
                &&& power < e
                &&& power == fraction + 1 || power == fraction + 2 && (t[fraction + 1] == 0x2b
                    || t[fraction + 1] == 0x2d)
                &&& decimal_run(t, power, e)
            }
            &&& !(0x30 <= t[e] <= 0x39)
            &&& whole == e ==> t[e] != 0x2e
            &&& fraction == e ==> t[e] != 0x65 && t[e] != 0x45
        }),
    ensures
        float_readable(env.mem@, s as int),
        r.0@ == env.mem@.bytes.subrange(s + p, s + e),
        r.1 == e,
{
    let t = env.mem@.bytes.skip(s as int);
    law_float_text_is_whole(t, 0, p, digits, whole, fraction, power, e);
    assert(t.subrange(p, e) =~= env.mem@.bytes.subrange(s + p, s + e));
}

/// The generators are one: after a seed was set, `rand` gives what `random` gives
/// after it was set there, and what `rand_r` gives of a seed in memory.
pub proof fn law_generators_agree(seed: u32, at: GuestAddr, a: i32, b: i32, c: i32, d: u32)
    ensures
        forall|x: &mut Environment, y: &mut Environment|
            #[trigger] call_ensures(rand, (x,), a) && #[trigger] call_ensures(random, (y,), b)
                && x.libc_state.stdlib.rand == y.libc_state.stdlib.random ==> a == b
                && final(x).libc_state.stdlib.rand == final(y).libc_state.stdlib.random,
        forall|x: &mut Environment, y: &mut Environment|
            #[trigger] call_ensures(rand, (x,), a) && #[trigger] call_ensures(rand_r, (y, at), c)
                && x.libc_state.stdlib.rand == y.mem@.u32_at(at as int) && y.wf() && y.mem@.valid(
                at as int,
                4,
            ) ==> a == c && final(y).mem@.u32_at(at as int) == final(x).libc_state.stdlib.rand,
        forall|x: &mut Environment, y: &mut Environment|
            #[trigger] call_ensures(rand, (x,), a) && #[trigger] call_ensures(arc4random, (y,), d)
                && x.libc_state.stdlib.rand == y.libc_state.stdlib.arc4random ==> a == d
                % 0x8000_0000 && final(x).libc_state.stdlib.rand
                == final(y).libc_state.stdlib.arc4random,
        forall|x: &mut Environment|
            #[trigger] call_ensures(srand, (x, seed), ()) ==> final(x).libc_state.stdlib.rand
                == seed && final(x).libc_state.stdlib.random == x.libc_state.stdlib.random,
        forall|x: &mut Environment|
            #[trigger] call_ensures(srandom, (x, seed), ()) ==> final(x).libc_state.stdlib.random
                == seed && final(x).libc_state.stdlib.rand == x.libc_state.stdlib.rand,
{
    assert forall|x: &mut Environment, y: &mut Environment|
        #[trigger] call_ensures(rand, (x,), a) && #[trigger] call_ensures(rand_r, (y, at), c)
            && x.libc_state.stdlib.rand == y.mem@.u32_at(at as int) && y.wf() && y.mem@.valid(
            at as int,
            4,
        ) implies a == c && final(y).mem@.u32_at(at as int) == final(x).libc_state.stdlib.rand by {
        crate::mem::lemma_le32_roundtrip(
            y.mem@.bytes,
            at as int,
            final(x).libc_state.stdlib.rand,
        );
    }
}

/// Whether the string at `s` is an integer: whitespace up to `p`, a sign of length
/// `sign`, `0x` or `0X` where the base `b` is 16 and that is there, and digits of the
/// base from `d` up to `e`, where something else is. A `base` of 0 leaves it to the
/// text what `b` is. A zero alone in base 16 is not counted as one.
pub open spec fn is_integer(
    mem: MemState,
    s: int,
    p: int,
    sign: int,
    d: int,
    e: int,
    base: int,
    b: int,
) -> bool {
    let t = mem.bytes.skip(s);
    let at = p + sign;
    let prefixed = b == 16 && t[at] == 0x30 && (t[at + 1] == 0x78 || t[at + 1] == 0x58);
    &&& mem.null_size <= s <= mem.bytes.len()
    &&& 0 <= p <= d < e < t.len()
    &&& e < u32::MAX
    &&& forall|i: int| 0 <= i < p ==> (#[trigger] t[i] == 0x20 || 0x09 <= t[i] <= 0x0d)
    &&& sign == 1 && (t[p] == 0x2b || t[p] == 0x2d) || sign == 0 && t[p] != 0x2b && t[p] != 0x2d
        && !(t[p] == 0x20 || 0x09 <= t[p] <= 0x0d)
    &&& 2 <= b <= 36
    &&& base == b || base == 0 && b == if t[at] != 0x30 {
        10
    } else if t[at + 1] == 0x78 || t[at + 1] == 0x58 {
        16
    } else {
        8int
    }
    &&& d == if prefixed {
        at + 2
    } else {
        at
    }
    &&& forall|i: int| d <= i < e ==> is_digit_in(#[trigger] t[i], b)
    &&& !is_digit_in(t[e], b)
    &&& !(b == 16 && !prefixed && t[d] == 0x30 && e == d + 1)
}

/// The number of the given magnitude, which is `max` at most, and sign.
pub open spec fn clamped(value: int, negative: bool, max: int) -> int {
    let least = if value > max {
        max
    } else {
        value
    };
    if negative {
        -least
    } else {
        least
    }
}

/// Every function that converts a string gives the number that the string is, as far
/// as its type goes, and tells where the number ends. `atoi` and `atol` take it to be
/// decimal.
pub proof fn law_strings_are_converted_alike(
    mem: MemState,
    s: GuestAddr,
    endptr: GuestAddr,
    p: int,
    sign: int,
    d: int,
    e: int,
    base: i32,
    b: int,
    as_u32: u32,
    as_u64: u64,
    as_i32: i32,
    as_i64: i64,
)
    requires
        mem.wf(),
        is_integer(mem, s as int, p, sign, d, e, base as int, b),
        endptr != NULL,
        mem.valid(endptr as int, 4),
    ensures
        ({
            let t = mem.bytes.skip(s as int);
            let value = digits_value(t.subrange(d, e), b);
            let negative = t[p] == 0x2d;
            &&& forall|x: &mut Environment|
                x.mem@ == mem && #[trigger] call_ensures(strtol, (x, s, endptr, base), as_i32)
                    ==> as_i32 == clamped(value, negative, i32::MAX as int) && final(x).mem@.u32_at(
                    endptr as int,
                ) == s + e
            &&& forall|x: &mut Environment|
                x.mem@ == mem && #[trigger] call_ensures(strtoll, (x, s, endptr, base), as_i64)
                    ==> as_i64 == clamped(value, negative, i64::MAX as int) && final(x).mem@.u32_at(
                    endptr as int,
                ) == s + e
            &&& forall|x: &mut Environment|
                x.mem@ == mem && #[trigger] call_ensures(strtoul, (x, s, endptr, base), as_u32)
                    ==> final(x).mem@.u32_at(endptr as int) == s + e && (as_u32
                    - clamped(value, negative, u32::MAX as int)) % 0x1_0000_0000 == 0
            &&& forall|x: &mut Environment|
                x.mem@ == mem && #[trigger] call_ensures(strtoull, (x, s, endptr, base), as_u64)
                    ==> final(x).mem@.u32_at(endptr as int) == s + e && (as_u64
                    - clamped(value, negative, u64::MAX as int)) % 0x1_0000_0000_0000_0000 == 0
            &&& forall|x: &mut Environment|
                x.mem@ == mem && b == 10 && #[trigger] call_ensures(atoi, (x, s), as_i32) ==> as_i32
                    == clamped(value, negative, i32::MAX as int) && final(x).mem@ == mem
            &&& forall|x: &mut Environment|
                x.mem@ == mem && b == 10 && #[trigger] call_ensures(atol, (x, s), as_i32) ==> as_i32
                    == clamped(value, negative, i32::MAX as int) && final(x).mem@ == mem
        }),
{
    law_string_is_converted(mem, s as int, p, sign, d, e, base as int, b, i32::MAX as int);
    law_string_is_converted(mem, s as int, p, sign, d, e, base as int, b, i64::MAX as int);
    law_string_is_converted(mem, s as int, p, sign, d, e, base as int, b, u32::MAX as int);
    law_string_is_converted(mem, s as int, p, sign, d, e, base as int, b, u64::MAX as int);
    if b == 10 {
        law_string_is_converted(mem, s as int, p, sign, d, e, 10, b, i32::MAX as int);
    }
    law_end_is_stored(mem, endptr, (s + e) as u32, 0);
}

/// Memory that is asked for is there: `malloc` and `valloc` give a block of its own
/// that is large enough, `calloc` one full of zeros, and `realloc` of nothing one as
/// `malloc` does. Nothing else of the environment changes but `errno`.
pub proof fn law_allocations(size: GuestUSize, count: GuestUSize, r: GuestAddr, i: int)
    ensures
        forall|x: &mut Environment|
            #[trigger] call_ensures(malloc, (x, size), r) ==> {
                &&& final(x).mem@.live.contains_key(r)
                &&& final(x).mem@.live[r] >= size
                &&& final(x).mem@.bytes == x.mem@.bytes
                &&& r != 0
                &&& final(x).errno == 0
                &&& final(x).regs == x.regs
            },
        forall|x: &mut Environment|
            #[trigger] call_ensures(valloc, (x, size), r) ==> {
                &&& final(x).mem@.live.contains_key(r)
                &&& final(x).mem@.live[r] >= size
                &&& r % 4096 == 0
                &&& r != 0
            },
        forall|x: &mut Environment|
            #[trigger] call_ensures(calloc, (x, count, size), r) && x.wf() ==> {
                &&& final(x).mem@.live.contains_key(r)
                &&& final(x).mem@.live[r] >= size * count
                &&& 0 <= i < size * count ==> final(x).mem@.bytes[r + i] == 0
            },
        forall|x: &mut Environment|
            #[trigger] call_ensures(realloc, (x, NULL, size), r) ==> {
                &&& final(x).mem@.live.contains_key(r)
                &&& final(x).mem@.live[r] >= size
            },
{
}

} // verus!
