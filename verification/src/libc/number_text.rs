//! How C reads a number from text: which characters belong to it, in which
//! base, and where it ends.
use crate::libc::char_source::CharSource;
use crate::libc::text::{decimal, signed_decimal};
use crate::mem::GuestUSize;
use vstd::prelude::*;

verus! {

/// C's definition of whitespace.
pub open spec fn is_space(c: u8) -> bool {
    c == 0x20 || c == 0x09 || c == 0x0a || c == 0x0b || c == 0x0c || c == 0x0d
}

/// The value of a character as a digit; 36 where it is no digit in any base.
pub open spec fn digit_value(c: u8) -> int {
    if 0x30 <= c <= 0x39 {
        c - 0x30
    } else if 0x61 <= c <= 0x7a {
        c - 0x61 + 10
    } else if 0x41 <= c <= 0x5a {
        c - 0x41 + 10
    } else {
        36
    }
}

pub open spec fn is_digit_in(c: u8, base: int) -> bool {
    digit_value(c) < base
}

pub open spec fn is_sign(c: u8) -> bool {
    c == 0x2b || c == 0x2d
}

pub open spec fn is_x(c: u8) -> bool {
    c == 0x78 || c == 0x58
}

/// The end of the run of whitespace that starts at `p`.
pub open spec fn space_end(t: Seq<u8>, p: int) -> int
    decreases t.len() - p,
{
    if 0 <= p < t.len() && is_space(t[p]) {
        space_end(t, p + 1)
    } else {
        p
    }
}

/// The end of the run of digits that starts at `p`.
pub open spec fn digit_end(t: Seq<u8>, p: int, base: int) -> int
    decreases t.len() - p,
{
    if 0 <= p < t.len() && is_digit_in(t[p], base) {
        digit_end(t, p + 1, base)
    } else {
        p
    }
}

pub proof fn lemma_space_end(t: Seq<u8>, p: int)
    requires
        0 <= p <= t.len(),
    ensures
        p <= space_end(t, p) <= t.len(),
        forall|i: int| p <= i < space_end(t, p) ==> is_space(#[trigger] t[i]),
        space_end(t, p) < t.len() ==> !is_space(t[space_end(t, p)]),
    decreases t.len() - p,
{
    if p < t.len() && is_space(t[p]) {
        lemma_space_end(t, p + 1);
    }
}

pub proof fn lemma_digit_end(t: Seq<u8>, p: int, base: int)
    requires
        0 <= p <= t.len(),
    ensures
        p <= digit_end(t, p, base) <= t.len(),
        forall|i: int| p <= i < digit_end(t, p, base) ==> is_digit_in(#[trigger] t[i], base),
        digit_end(t, p, base) < t.len() ==> !is_digit_in(t[digit_end(t, p, base)], base),
    decreases t.len() - p,
{
    if p < t.len() && is_digit_in(t[p], base) {
        lemma_digit_end(t, p + 1, base);
    }
}

/// What a conversion to an integer finds in a text.
#[verifier::ext_equal]
pub struct IntScan {
    /// The base, detected where that was asked for; 0 where the text ended
    /// before it could be.
    pub base: int,
    /// Whether there is a minus sign.
    pub negative: bool,
    /// The length of the sign and of the base's prefix.
    pub prefix: int,
    /// The length of all that was taken, the prefix among it.
    pub len: int,
    pub digits: Seq<u8>,
    /// Where reading stopped.
    pub end: int,
    /// Whether the text ended where another character was wanted.
    pub starved: bool,
}

/// The digits from `p` on. `taken` characters were taken before them; once
/// `max` are, where that is not 0, reading stops.
pub open spec fn scan_digits(
    t: Seq<u8>,
    p: int,
    negative: bool,
    base: int,
    taken: int,
    max: int,
) -> IntScan {
    let run = digit_end(t, p, base) - p;
    let full = max > 0 && run >= max - taken;
    let n = if full {
        max - taken
    } else {
        run
    };
    IntScan {
        base,
        negative,
        prefix: taken,
        len: taken + n,
        digits: t.subrange(p, p + n),
        end: p + n,
        starved: !full && p + n >= t.len(),
    }
}

/// The prefix and the digits from `p` on, behind a sign of length `sign`. A limit
/// just behind the zero of a hexadecimal number, or behind its `x`, leaves the
/// number zero.
pub open spec fn scan_magnitude(
    t: Seq<u8>,
    p: int,
    negative: bool,
    sign: int,
    base: int,
    max: int,
) -> IntScan {
    let stop = |prefix: int, len: int, digits: Seq<u8>, starved: bool|
        IntScan { base, negative, prefix, len, digits, end: p + len - sign, starved };
    if base != 8 && base != 16 {
        scan_digits(t, p, negative, base, sign, max)
    } else if p >= t.len() {
        stop(sign, sign, seq![], true)
    } else if t[p] != 0x30 {
        scan_digits(t, p, negative, base, sign, max)
    } else if base == 8 && sign + 1 == max {
        stop(sign + 1, sign + 1, seq![], false)
    } else if base == 8 {
        scan_digits(t, p + 1, negative, base, sign + 1, max)
    } else if sign + 1 == max {
        stop(sign, sign + 1, seq![0x30], false)
    } else if p + 1 >= t.len() {
        stop(sign + 1, sign + 1, seq![], true)
    } else if !is_x(t[p + 1]) {
        scan_digits(t, p + 1, negative, base, sign + 1, max)
    } else if sign + 2 == max {
        stop(sign + 1, sign + 2, seq![0x30], false)
    } else {
        scan_digits(t, p + 2, negative, base, sign + 2, max)
    }
}

/// The base that a number at `p` announces by its first characters.
pub open spec fn announced_base(t: Seq<u8>, p: int) -> int {
    if p >= t.len() || (t[p] == 0x30 && p + 1 >= t.len()) {
        0
    } else if t[p] != 0x30 {
        10
    } else if is_x(t[p + 1]) {
        16
    } else {
        8
    }
}

/// What a conversion finds from `p` on: whitespace, an optional sign, a prefix
/// and digits. A base of 0 asks for the base to be detected; a `max` of 0
/// stands for no limit.
pub open spec fn scan_int(t: Seq<u8>, p: int, base: int, max: int) -> IntScan {
    let start = space_end(t, p);
    if start >= t.len() {
        IntScan {
            base,
            negative: false,
            prefix: 0,
            len: 0,
            digits: seq![],
            end: start,
            starved: true,
        }
    } else {
        let negative = t[start] == 0x2d;
        let sign = if is_sign(t[start]) {
            1int
        } else {
            0
        };
        let b = if base == 0 {
            announced_base(t, start + sign)
        } else {
            base
        };
        if sign == 1 && max == 1 {
            IntScan { base, negative, prefix: 1, len: 1, digits: seq![], end: start + 1, starved: false }
        } else if b == 0 {
            IntScan {
                base: 0,
                negative,
                prefix: sign,
                len: sign,
                digits: seq![],
                end: t.len() as int,
                starved: true,
            }
        } else {
            scan_magnitude(t, start + sign, negative, sign, b, max)
        }
    }
}

/// Where a conversion that is given `offset` starts in the source's text.
pub open spec fn start_of<S: CharSource>(source: S, offset: int) -> int {
    if source.is_stream() {
        source.cursor()
    } else {
        offset
    }
}

/// Whether a conversion may start at `offset`: not past the end, and not so far
/// from it that a length would not fit a guest `size_t`.
pub open spec fn may_start<S: CharSource>(source: S, offset: int) -> bool {
    &&& source.wf()
    &&& 0 <= start_of(source, offset) <= source.text().len()
    &&& source.text().len() - start_of(source, offset) < u32::MAX
}

/// Whether the character at `p` of `t` is the one that the source gives next
/// when it is asked for `index`.
pub open spec fn stands_at<S: CharSource>(
    source: S,
    t: Seq<u8>,
    stream: bool,
    p: int,
    index: int,
) -> bool {
    &&& source.wf()
    &&& source.text() == t
    &&& source.is_stream() == stream
    &&& 0 <= p <= t.len()
    &&& p == if stream {
        source.cursor()
    } else {
        index
    }
}

/// Counts whitespace in `source` starting from `offset`, which a stream
/// ignores. An error signifies the end of the stream, with the count so far.
pub fn count_whitespace_generic<S: CharSource>(source: &mut S, offset: GuestUSize) -> (r: Result<
    GuestUSize,
    GuestUSize,
>)
    requires
        may_start(*old(source), offset as int),
        old(source).is_stream() || space_end(old(source).text(), offset as int) < old(
            source,
        ).text().len(),
    ensures
        ({
            let t = old(source).text();
            let p = start_of(*old(source), offset as int);
            let end = space_end(t, p);
            &&& p <= end <= t.len()
            &&& r == if end < t.len() {
                Ok::<u32, u32>((end - p) as u32)
            } else {
                Err::<u32, u32>((end - p) as u32)
            }
            &&& stands_at(*final(source), t, old(source).is_stream(), end, offset + (end - p))
        }),
{
    let ghost t = source.text();
    let ghost p = start_of(*source, offset as int);
    let ghost stream = source.is_stream();
    let mut count: u32 = 0;
    proof {
        lemma_space_end(t, p);
    }
    loop
        invariant
            t == old(source).text(),
            p == start_of(*old(source), offset as int),
            stream == old(source).is_stream(),
            stands_at(*source, t, stream, p + count, offset + count),
            0 <= p,
            t.len() - p < u32::MAX,
            p + count <= space_end(t, p) <= t.len(),
            stream || space_end(t, p) < t.len(),
            space_end(t, p) == space_end(t, p + count),
        decreases t.len() - p - count,
    {
        match source.getc(offset as u64 + count as u64) {
            Ok(c) => {
                if c == 0x20 || c == 0x09 || c == 0x0a || c == 0x0b || c == 0x0c || c == 0x0d {
                    proof {
                        lemma_space_end(t, p + count + 1);
                    }
                    count += 1;
                } else {
                    source.ungetc(c);
                    return Ok(count);
                }
            },
            Err(_) => {
                return Err(count);
            },
        }
    }
}

/// Whether `c` is a digit in `base`.
pub fn is_digit(c: u8, base: u32) -> (r: bool)
    requires
        base <= 36,
    ensures
        r == is_digit_in(c, base as int),
{
    let value: u32 = if 0x30 <= c && c <= 0x39 {
        c as u32 - 0x30
    } else if 0x61 <= c && c <= 0x7a {
        c as u32 - 0x61 + 10
    } else if 0x41 <= c && c <= 0x5a {
        c as u32 - 0x41 + 10
    } else {
        36
    };
    value < base
}

/// What was read of an integer.
struct ScannedInt {
    base: u32,
    negative: bool,
    prefix: u32,
    len: u32,
    digits: Vec<u8>,
}

impl ScannedInt {
    spec fn is(self, scan: IntScan) -> bool {
        &&& self.base == scan.base
        &&& self.negative == scan.negative
        &&& self.prefix == scan.prefix
        &&& self.len == scan.len
        &&& self.digits@ == scan.digits
    }
}

/// Reads the digits that the source stands at.
fn read_digits<S: CharSource>(
    source: &mut S,
    index: u64,
    negative: bool,
    base: u32,
    taken: u32,
    max: u32,
    Ghost(p): Ghost<int>,
) -> (r: ScannedInt)
    requires
        stands_at(*old(source), old(source).text(), old(source).is_stream(), p, index as int),
        base <= 36,
        taken < max || max == 0,
        taken + old(source).text().len() - p <= u32::MAX,
        index <= 0x2_0000_0010,
        old(source).is_stream() || !scan_digits(
            old(source).text(),
            p,
            negative,
            base as int,
            taken as int,
            max as int,
        ).starved,
    ensures
        ({
            let t = old(source).text();
            let scan = scan_digits(t, p, negative, base as int, taken as int, max as int);
            &&& r.is(scan)
            &&& scan.prefix <= scan.len
            &&& final(source).wf()
            &&& final(source).text() == t
            &&& final(source).is_stream() == old(source).is_stream()
            &&& old(source).is_stream() ==> final(source).cursor() == scan.end
        }),
{
    let ghost t = source.text();
    let ghost stream = source.is_stream();
    let ghost b = base as int;
    let mut digits: Vec<u8> = Vec::new();
    let mut len: u32 = taken;
    proof {
        lemma_digit_end(t, p, b);
    }
    loop
        invariant
            t == old(source).text(),
            stream == old(source).is_stream(),
            b == base,
            base <= 36,
            0 <= p <= t.len(),
            taken <= len,
            max == 0 || len < max,
            index <= 0x2_0000_0010,
            taken + t.len() - p <= u32::MAX,
            p + len - taken <= digit_end(t, p, b) <= t.len(),
            digit_end(t, p, b) == digit_end(t, p + len - taken, b),
            digits@ == t.subrange(p, p + len - taken),
            stands_at(*source, t, stream, p + len - taken, index + len - taken),
            stream || !scan_digits(t, p, negative, b, taken as int, max as int).starved,
        decreases t.len() - p - (len - taken),
    {
        match source.getc(index + (len - taken) as u64) {
            Ok(c) => {
                if is_digit(c, base) {
                    proof {
                        lemma_digit_end(t, p + len - taken + 1, b);
                    }
                    digits.push(c);
                    len += 1;
                    assert(digits@ =~= t.subrange(p, p + len - taken));
                    if len == max {
                        return ScannedInt { base, negative, prefix: taken, len, digits };
                    }
                } else {
                    source.ungetc(c);
                    return ScannedInt { base, negative, prefix: taken, len, digits };
                }
            },
            Err(_) => {
                return ScannedInt { base, negative, prefix: taken, len, digits };
            },
        }
    }
}

/// Reads the prefix and the digits that the source stands at.
fn read_magnitude<S: CharSource>(
    source: &mut S,
    index: u64,
    negative: bool,
    sign: u32,
    base: u32,
    max: u32,
    Ghost(p): Ghost<int>,
) -> (r: ScannedInt)
    requires
        stands_at(*old(source), old(source).text(), old(source).is_stream(), p, index as int),
        base <= 36,
        sign <= 1,
        sign < max || max == 0,
        sign + old(source).text().len() - p < u32::MAX,
        index <= 0x2_0000_0000,
        old(source).is_stream() || !scan_magnitude(
            old(source).text(),
            p,
            negative,
            sign as int,
            base as int,
            max as int,
        ).starved,
    ensures
        ({
            let t = old(source).text();
            let stream = old(source).is_stream();
            let scan = scan_magnitude(t, p, negative, sign as int, base as int, max as int);
            &&& r.is(scan)
            &&& scan.prefix <= scan.len
            &&& final(source).wf()
            &&& final(source).text() == t
            &&& final(source).is_stream() == stream
            &&& stream ==> final(source).cursor() == scan.end
        }),
{
    if base != 8 && base != 16 {
        return read_digits(source, index, negative, base, sign, max, Ghost(p));
    }
    let c: u8 = match source.getc(index) {
        Ok(c) => c,
        Err(_) => {
            return ScannedInt { base, negative, prefix: sign, len: sign, digits: Vec::new() };
        },
    };
    if c != 0x30 {
        source.ungetc(c);
        return read_digits(source, index, negative, base, sign, max, Ghost(p));
    }
    if base == 8 {
        if sign + 1 == max {
            return ScannedInt { base, negative, prefix: max, len: max, digits: Vec::new() };
        }
        return read_digits(source, index + 1, negative, base, sign + 1, max, Ghost(p + 1));
    }
    if sign + 1 == max {
        let zero: Vec<u8> = vec![c];
        assert(zero@ =~= seq![0x30u8]);
        return ScannedInt { base, negative, prefix: sign, len: sign + 1, digits: zero };
    }
    let next: u8 = match source.getc(index + 1) {
        Ok(c) => c,
        Err(_) => {
            return ScannedInt { base, negative, prefix: sign + 1, len: sign + 1, digits: Vec::new() };
        },
    };
    if next != 0x78 && next != 0x58 {
        source.ungetc(next);
        return read_digits(source, index + 1, negative, base, sign + 1, max, Ghost(p + 1));
    }
    if sign + 2 == max {
        let zero: Vec<u8> = vec![c];
        assert(zero@ =~= seq![0x30u8]);
        return ScannedInt { base, negative, prefix: sign + 1, len: sign + 2, digits: zero };
    }
    read_digits(source, index + 2, negative, base, sign + 2, max, Ghost(p + 2))
}

/// Reads an integer: the whitespace's length and all that is behind it.
fn read_int<S: CharSource>(source: &mut S, offset: GuestUSize, base: u32, max: u32) -> (r: (
    u32,
    ScannedInt,
))
    requires
        may_start(*old(source), offset as int),
        base <= 36,
        old(source).is_stream() || !scan_int(
            old(source).text(),
            offset as int,
            base as int,
            max as int,
        ).starved,
    ensures
        ({
            let t = old(source).text();
            let stream = old(source).is_stream();
            let p = start_of(*old(source), offset as int);
            let scan = scan_int(t, p, base as int, max as int);
            &&& r.0 == space_end(t, p) - p
            &&& r.1.is(scan)
            &&& 0 <= scan.prefix <= scan.len
            &&& r.0 + scan.len <= u32::MAX
            &&& final(source).wf()
            &&& final(source).text() == t
            &&& final(source).is_stream() == stream
            &&& stream ==> final(source).cursor() == scan.end
        }),
{
    let ghost t = source.text();
    let ghost p = start_of(*source, offset as int);
    proof {
        lemma_space_end(t, p);
        lemma_scan_bounds(t, p, base as int, max as int);
    }
    let ghost start = space_end(t, p);
    let whitespace: u32 = match count_whitespace_generic(source, offset) {
        Ok(n) => n,
        Err(n) => {
            return (n, ScannedInt { base, negative: false, prefix: 0, len: 0, digits: Vec::new() });
        },
    };
    let index: u64 = offset as u64 + whitespace as u64;
    let c: u8 = match source.getc(index) {
        Ok(c) => c,
        Err(_) => {
            assert(false);
            0
        },
    };
    let negative: bool = c == 0x2d;
    let mut sign: u32 = 0;
    if c == 0x2b || c == 0x2d {
        sign = 1;
        if max == 1 {
            return (
                whitespace,
                ScannedInt { base, negative, prefix: 1, len: 1, digits: Vec::new() },
            );
        }
    } else {
        source.ungetc(c);
    }
    let ghost q = start + sign;
    let mut b: u32 = base;
    if base == 0 {
        let c: u8 = match source.getc(index + sign as u64) {
            Ok(c) => c,
            Err(_) => {
                return (
                    whitespace,
                    ScannedInt { base, negative, prefix: sign, len: sign, digits: Vec::new() },
                );
            },
        };
        if c == 0x30 {
            let next: u8 = match source.getc(index + sign as u64 + 1) {
                Ok(c) => c,
                Err(_) => {
                    return (
                        whitespace,
                        ScannedInt { base, negative, prefix: sign, len: sign, digits: Vec::new() },
                    );
                },
            };
            source.ungetc(next);
            source.ungetc(c);
            b = if next == 0x78 || next == 0x58 {
                16
            } else {
                8
            };
        } else {
            source.ungetc(c);
            b = 10;
        }
    }
    (
        whitespace,
        read_magnitude(source, index + sign as u64, negative, sign, b, max, Ghost(q)),
    )
}

/// No more is taken than is there.
proof fn lemma_scan_bounds(t: Seq<u8>, p: int, base: int, max: int)
    requires
        0 <= p <= t.len(),
        max >= 0,
    ensures
        0 <= scan_int(t, p, base, max).prefix <= scan_int(t, p, base, max).len,
        space_end(t, p) + scan_int(t, p, base, max).len <= t.len(),
{
    lemma_space_end(t, p);
    let start = space_end(t, p);
    if start < t.len() {
        let negative = t[start] == 0x2d;
        let sign = if is_sign(t[start]) {
            1int
        } else {
            0
        };
        let b = if base == 0 {
            announced_base(t, start + sign)
        } else {
            base
        };
        lemma_digits_extent(t, start + sign, negative, b, sign, max);
        lemma_digits_extent(t, start + sign + 1, negative, b, sign + 1, max);
        lemma_digits_extent(t, start + sign + 2, negative, b, sign + 2, max);
    }
}

proof fn lemma_digits_extent(t: Seq<u8>, p: int, negative: bool, base: int, taken: int, max: int)
    ensures
        0 <= p <= t.len() && (max == 0 || taken < max) ==> {
            let scan = scan_digits(t, p, negative, base, taken, max);
            &&& scan.prefix == taken <= scan.len
            &&& scan.end == p + scan.len - taken <= t.len()
        },
{
    if 0 <= p <= t.len() {
        lemma_digit_end(t, p, base);
    }
}

/// Whether all of `digits` are digits in `base`.
pub open spec fn all_digits(digits: Seq<u8>, base: int) -> bool {
    forall|i: int| 0 <= i < digits.len() ==> is_digit_in(#[trigger] digits[i], base)
}

/// The number that `digits` stand for in `base`.
pub open spec fn digits_value(digits: Seq<u8>, base: int) -> int
    decreases digits.len(),
{
    if digits.len() == 0 {
        0
    } else {
        digits_value(digits.drop_last(), base) * base + digit_value(digits.last())
    }
}

/// The number that `digits` stand for, or `max` where it is greater or where
/// there are no digits.
pub open spec fn value_or_max(digits: Seq<u8>, base: int, max: int) -> int {
    if digits.len() == 0 || digits_value(digits, base) > max {
        max
    } else {
        digits_value(digits, base)
    }
}

/// A longer run of digits never stands for a smaller number.
proof fn lemma_value_grows(digits: Seq<u8>, base: int, n: int)
    requires
        base >= 2,
        all_digits(digits, base),
        0 <= n <= digits.len(),
    ensures
        0 <= digits_value(digits.take(n), base) <= digits_value(digits, base),
    decreases digits.len(),
{
    if digits.len() > 0 {
        let front = digits.drop_last();
        lemma_value_grows(front, base, if n < digits.len() { n } else { n - 1 });
        lemma_value_grows(front, base, front.len() as int);
        assert(front.take(front.len() as int) =~= front);
        let v = digits_value(front, base);
        assert(v * base >= v) by (nonlinear_arith)
            requires
                v >= 0,
                base >= 2,
        ;
        if n < digits.len() {
            assert(digits.take(n) =~= front.take(n));
        } else {
            assert(digits.take(n) =~= digits);
        }
    }
}

/// The number that `digits` stand for in `base`, or `max` where it is greater
/// or where there are no digits.
pub fn from_digits(digits: &Vec<u8>, base: u32, max: u64) -> (r: u64)
    requires
        2 <= base <= 36,
        all_digits(digits@, base as int),
    ensures
        r == value_or_max(digits@, base as int, max as int),
{
    if digits.len() == 0 {
        return max;
    }
    let mut value: u64 = 0;
    let mut i: usize = 0;
    while i < digits.len()
        invariant
            2 <= base <= 36,
            all_digits(digits@, base as int),
            digits@.len() > 0,
            i <= digits@.len(),
            value <= max,
            value == digits_value(digits@.take(i as int), base as int),
        decreases digits@.len() - i,
    {
        let c: u8 = digits[i];
        let d: u64 = if c <= 0x39 {
            c as u64 - 0x30
        } else if c >= 0x61 {
            c as u64 - 0x61 + 10
        } else {
            c as u64 - 0x41 + 10
        };
        proof {
            assert(is_digit_in(digits@[i as int], base as int));
            let next = digits@.take(i + 1);
            assert(next.drop_last() =~= digits@.take(i as int));
            assert(next.last() == c);
            lemma_value_grows(digits@, base as int, i + 1);
            assert(value * base <= 0xffff_ffff_ffff_ffff * 36) by (nonlinear_arith)
                requires
                    value <= 0xffff_ffff_ffff_ffff,
                    base <= 36,
            ;
        }
        let wide: u128 = value as u128 * base as u128 + d as u128;
        if wide > max as u128 {
            return max;
        }
        value = wide as u64;
        i += 1;
    }
    assert(digits@.take(i as int) =~= digits@);
    value
}

/// What a conversion of `scan` gives, behind `whitespace` characters: an error
/// where there is no number; for a lone prefix of an octal number the default
/// value; else the digits' number, negated where there is a minus sign.
pub open spec fn converts_to<Q: Default, F3: Fn(&Vec<u8>, u32) -> Q, F4: Fn(Q) -> Q>(
    scan: IntScan,
    whitespace: int,
    from_str_radix_fn: F3,
    negation_fn: F4,
    r: Result<(Q, u32), ()>,
) -> bool {
    if scan.len > scan.prefix {
        &&& r is Ok
        &&& r->Ok_0.1 == whitespace + scan.len
        &&& exists|digits: &Vec<u8>, q: Q|
            {
                &&& digits@ == scan.digits
                &&& #[trigger] call_ensures(from_str_radix_fn, (digits, scan.base as u32), q)
                &&& if scan.negative {
                    call_ensures(negation_fn, (q,), r->Ok_0.0)
                } else {
                    r->Ok_0.0 == q
                }
            }
    } else if scan.base == 8 && scan.prefix > 0 {
        &&& r is Ok
        &&& r->Ok_0.1 == whitespace + scan.prefix
        &&& call_ensures(Q::default, (), r->Ok_0.0)
    } else {
        r is Err
    }
}

/// Generic implementation of a conversion helper from text to an integer.
///
/// `offset` defines an offset in `source` from which the conversion starts. A
/// stream ignores it.
///
/// `base` is the base of the conversion, or 0 for it to be detected.
///
/// `from_str_radix_fn` is a callback to actually convert the accumulated digits
/// to the number. It is handed at least one digit, and a zero where
/// `max_length` ends the text inside the prefix of a hexadecimal number.
///
/// `negation_fn` is a callback which specifies how '-' is treated.
///
/// Returns a tuple containing the parsed number in the given base and
/// the length of the number in the text.
pub fn str_to_int_inner_generic<
    S: CharSource,
    Q: Default,
    F3: Fn(&Vec<u8>, u32) -> Q,
    F4: Fn(Q) -> Q,
>(
    source: &mut S,
    offset: GuestUSize,
    base: u32,
    max_length: GuestUSize,
    from_str_radix_fn: F3,
    negation_fn: F4,
) -> (r: Result<(Q, u32), ()>)
    requires
        may_start(*old(source), offset as int),
        ({
            let t = old(source).text();
            let stream = old(source).is_stream();
            let p = start_of(*old(source), offset as int);
            let scan = scan_int(t, p, base as int, max_length as int);
            &&& 2 <= scan.base <= 36
            &&& stream || !scan.starved
        }),
        forall|digits: &Vec<u8>, b: u32|
            2 <= b <= 36 && digits@.len() > 0 && all_digits(digits@, b as int)
                ==> #[trigger] call_requires(from_str_radix_fn, (digits, b)),
        forall|q: Q| call_requires(negation_fn, (q,)),
    ensures
        ({
            let t = old(source).text();
            let stream = old(source).is_stream();
            let p = start_of(*old(source), offset as int);
            let scan = scan_int(t, p, base as int, max_length as int);
            &&& converts_to(scan, space_end(t, p) - p, from_str_radix_fn, negation_fn, r)
            &&& final(source).wf()
            &&& final(source).text() == t
            &&& final(source).is_stream() == stream
            &&& stream ==> final(source).cursor() == scan.end
        }),
{
    proof {
        lemma_scan_base(
            source.text(),
            start_of(*source, offset as int),
            base as int,
            max_length as int,
        );
    }
    let ghost scan = scan_int(
        source.text(),
        start_of(*source, offset as int),
        base as int,
        max_length as int,
    );
    let (whitespace, scanned) = read_int(source, offset, base, max_length);
    if scanned.len > scanned.prefix {
        let q = from_str_radix_fn(&scanned.digits, scanned.base);
        assert(call_ensures(from_str_radix_fn, (&scanned.digits, scan.base as u32), q));
        if scanned.negative {
            Ok((negation_fn(q), whitespace + scanned.len))
        } else {
            Ok((q, whitespace + scanned.len))
        }
    } else if scanned.base == 8 && scanned.prefix > 0 {
        Ok((Q::default(), whitespace + scanned.prefix))
    } else {
        Err(())
    }
}

/// The digits found are digits in the base found, which is the one asked for
/// where one was, and they are what the length holds behind the prefix.
pub proof fn lemma_scan_base(t: Seq<u8>, p: int, base: int, max: int)
    requires
        0 <= p <= t.len(),
        base >= 0,
        max >= 0,
    ensures
        ({
            let scan = scan_int(t, p, base, max);
            &&& base != 0 ==> scan.base == base
            &&& base == 0 ==> scan.base == 0 || scan.base == 8 || scan.base == 10 || scan.base == 16
            &&& all_digits(scan.digits, scan.base)
            &&& scan.digits.len() == scan.len - scan.prefix
        }),
{
    lemma_space_end(t, p);
    let start = space_end(t, p);
    if start < t.len() {
        let negative = t[start] == 0x2d;
        let sign = if is_sign(t[start]) {
            1int
        } else {
            0
        };
        let b = if base == 0 {
            announced_base(t, start + sign)
        } else {
            base
        };
        lemma_scan_digits(t, start + sign, negative, b, sign, max);
        lemma_scan_digits(t, start + sign + 1, negative, b, sign + 1, max);
        lemma_scan_digits(t, start + sign + 2, negative, b, sign + 2, max);
    }
}

proof fn lemma_scan_digits(t: Seq<u8>, p: int, negative: bool, base: int, taken: int, max: int)
    ensures
        0 <= p <= t.len() && (max == 0 || taken < max) ==> {
            let scan = scan_digits(t, p, negative, base, taken, max);
            &&& all_digits(scan.digits, base)
            &&& scan.digits.len() == scan.len - taken
        },
{
    if 0 <= p <= t.len() {
        lemma_digit_end(t, p, base);
    }
}

/// Where the text of a decimal number may go on behind an optional sign or
/// first digit at `p`.
pub open spec fn after_lead(t: Seq<u8>, p: int) -> int {
    if 0 <= p < t.len() && (is_sign(t[p]) || is_digit_in(t[p], 10)) {
        p + 1
    } else {
        p
    }
}

/// The end of the text of a decimal number that starts at `p`: an optional sign
/// and digits, an optional point and digits, and an optional exponent of an
/// optional sign and digits.
pub open spec fn float_end(t: Seq<u8>, p: int) -> int {
    let whole = digit_end(t, after_lead(t, p), 10);
    let fraction = if whole < t.len() && t[whole] == 0x2e {
        digit_end(t, whole + 1, 10)
    } else {
        whole
    };
    if fraction < t.len() && (t[fraction] == 0x65 || t[fraction] == 0x45) {
        digit_end(t, after_lead(t, fraction + 1), 10)
    } else {
        fraction
    }
}

proof fn lemma_after_lead(t: Seq<u8>, p: int)
    requires
        0 <= p <= t.len(),
    ensures
        p <= after_lead(t, p) <= digit_end(t, after_lead(t, p), 10) <= t.len(),
{
    lemma_digit_end(t, after_lead(t, p), 10);
}

/// The parts of a decimal number's text follow each other.
proof fn lemma_float_end(t: Seq<u8>, p: int)
    requires
        0 <= p <= t.len(),
    ensures
        p <= after_lead(t, p) <= digit_end(t, after_lead(t, p), 10) <= float_end(t, p) <= t.len(),
        ({
            let whole = digit_end(t, after_lead(t, p), 10);
            whole < t.len() && t[whole] == 0x2e ==> whole + 1 <= digit_end(t, whole + 1, 10)
                <= float_end(t, p)
        }),
{
    lemma_after_lead(t, p);
    let whole = digit_end(t, after_lead(t, p), 10);
    if whole < t.len() {
        lemma_digit_end(t, whole + 1, 10);
    }
    let fraction = if whole < t.len() && t[whole] == 0x2e {
        digit_end(t, whole + 1, 10)
    } else {
        whole
    };
    if fraction < t.len() {
        lemma_after_lead(t, fraction + 1);
    }
}

/// The character that the source stands at, which stays there.
fn peek<S: CharSource>(source: &mut S, index: u64, Ghost(p): Ghost<int>) -> (r: Option<u8>)
    requires
        stands_at(*old(source), old(source).text(), old(source).is_stream(), p, index as int),
        old(source).is_stream() || p < old(source).text().len(),
    ensures
        stands_at(*final(source), old(source).text(), old(source).is_stream(), p, index as int),
        r == if p < old(source).text().len() {
            Some(old(source).text()[p])
        } else {
            None
        },
{
    match source.getc(index) {
        Ok(c) => {
            source.ungetc(c);
            Some(c)
        },
        Err(_) => None,
    }
}

/// Moves the character `c` that the source stands at to the end of `chars`.
fn take<S: CharSource>(source: &mut S, index: u64, chars: &mut Vec<u8>, c: u8, Ghost(p): Ghost<int>)
    requires
        stands_at(*old(source), old(source).text(), old(source).is_stream(), p, index as int),
        p < old(source).text().len(),
        old(source).text()[p] == c,
    ensures
        stands_at(*final(source), old(source).text(), old(source).is_stream(), p + 1, index + 1),
        final(chars)@ == old(chars)@.push(c),
{
    let _ = source.getc(index);
    chars.push(c);
}

/// Moves the digits that the source stands at to the end of `chars` and returns
/// the index of what follows them.
fn take_digits<S: CharSource>(
    source: &mut S,
    index: u64,
    chars: &mut Vec<u8>,
    Ghost(p): Ghost<int>,
) -> (r: u64)
    requires
        stands_at(*old(source), old(source).text(), old(source).is_stream(), p, index as int),
        index + old(source).text().len() - p <= 0x3_0000_0000,
        old(source).is_stream() || digit_end(old(source).text(), p, 10) < old(source).text().len(),
    ensures
        ({
            let t = old(source).text();
            let end = digit_end(t, p, 10);
            &&& p <= end <= t.len()
            &&& r == index + (end - p)
            &&& stands_at(*final(source), t, old(source).is_stream(), end, r as int)
            &&& final(chars)@ == old(chars)@ + t.subrange(p, end)
        }),
{
    let ghost t = source.text();
    let ghost stream = source.is_stream();
    let ghost mut q = p;
    let mut i: u64 = index;
    proof {
        lemma_digit_end(t, p, 10);
        assert(chars@ =~= chars@ + t.subrange(p, p));
    }
    loop
        invariant
            t == old(source).text(),
            stream == old(source).is_stream(),
            0 <= p <= q <= digit_end(t, p, 10) <= t.len(),
            digit_end(t, q, 10) == digit_end(t, p, 10),
            stream || digit_end(t, p, 10) < t.len(),
            i == index + (q - p),
            index + t.len() - p <= 0x3_0000_0000,
            stands_at(*source, t, stream, q, i as int),
            chars@ == old(chars)@ + t.subrange(p, q),
        decreases t.len() - q,
    {
        match peek(source, i, Ghost(q)) {
            Some(c) => {
                if !is_digit(c, 10) {
                    return i;
                }
                proof {
                    lemma_digit_end(t, q + 1, 10);
                }
                take(source, i, chars, c, Ghost(q));
                proof {
                    q = q + 1;
                    assert(chars@ =~= old(chars)@ + t.subrange(p, q));
                }
                i += 1;
            },
            None => {
                return i;
            },
        }
    }
}

/// Moves a sign or a digit that the source may stand at to the end of `chars`
/// and returns the index of what follows.
fn take_lead<S: CharSource>(
    source: &mut S,
    index: u64,
    chars: &mut Vec<u8>,
    Ghost(p): Ghost<int>,
) -> (r: u64)
    requires
        stands_at(*old(source), old(source).text(), old(source).is_stream(), p, index as int),
        old(source).is_stream() || p < old(source).text().len(),
        index <= 0x3_0000_0000,
    ensures
        ({
            let t = old(source).text();
            let end = after_lead(t, p);
            &&& p <= end <= t.len()
            &&& r == index + (end - p)
            &&& stands_at(*final(source), t, old(source).is_stream(), end, r as int)
            &&& final(chars)@ == old(chars)@ + t.subrange(p, end)
        }),
{
    let ghost t = source.text();
    if let Some(c) = peek(source, index, Ghost(p)) {
        if c == 0x2b || c == 0x2d || is_digit(c, 10) {
            take(source, index, chars, c, Ghost(p));
            assert(chars@ =~= old(chars)@ + t.subrange(p, p + 1));
            return index + 1;
        }
    }
    assert(chars@ =~= old(chars)@ + t.subrange(p, p));
    index
}

/// Finds the text of a decimal number, which `parse` turns into a value.
///
/// `offset` defines an offset in `source` from which the conversion starts. A
/// stream ignores it.
///
/// Returns the characters of the number and their count together with the
/// whitespace before them.
pub fn atof_inner_generic<S: CharSource>(source: &mut S, offset: GuestUSize) -> (r: (Vec<u8>, u32))
    requires
        may_start(*old(source), offset as int),
        old(source).is_stream() || float_end(
            old(source).text(),
            space_end(old(source).text(), offset as int),
        ) < old(source).text().len(),
    ensures
        ({
            let t = old(source).text();
            let p = start_of(*old(source), offset as int);
            let start = space_end(t, p);
            let end = float_end(t, start);
            &&& p <= start <= end <= t.len()
            &&& r.0@ == t.subrange(start, end)
            &&& r.1 == end - p
            &&& stands_at(*final(source), t, old(source).is_stream(), end, offset + (end - p))
        }),
{
    let ghost t = source.text();
    let ghost p = start_of(*source, offset as int);
    let mut chars: Vec<u8> = Vec::new();
    proof {
        lemma_space_end(t, p);
        lemma_float_end(t, space_end(t, p));
    }
    let ghost start = space_end(t, p);
    let whitespace: u32 = match count_whitespace_generic(source, offset) {
        Ok(n) => n,
        Err(n) => {
            assert(chars@ =~= t.subrange(start, start));
            return (chars, n);
        },
    };
    let begin: u64 = offset as u64 + whitespace as u64;
    let mut i: u64 = take_lead(source, begin, &mut chars, Ghost(start));
    i = take_digits(source, i, &mut chars, Ghost(after_lead(t, start)));
    let ghost mut q = digit_end(t, after_lead(t, start), 10);
    assert(chars@ =~= t.subrange(start, q));
    let mut next: Option<u8> = peek(source, i, Ghost(q));
    if let Some(c) = next {
        if c == 0x2e {
            take(source, i, &mut chars, c, Ghost(q));
            i = take_digits(source, i + 1, &mut chars, Ghost(q + 1));
            proof {
                q = digit_end(t, q + 1, 10);
                assert(chars@ =~= t.subrange(start, q));
            }
            next = peek(source, i, Ghost(q));
        }
    }
    if let Some(c) = next {
        if c == 0x65 || c == 0x45 {
            take(source, i, &mut chars, c, Ghost(q));
            proof {
                lemma_after_lead(t, q + 1);
            }
            i = take_lead(source, i + 1, &mut chars, Ghost(q + 1));
            i = take_digits(source, i, &mut chars, Ghost(after_lead(t, q + 1)));
            proof {
                q = digit_end(t, after_lead(t, q + 1), 10);
                assert(chars@ =~= t.subrange(start, q));
            }
        }
    }
    assert(q == float_end(t, start));
    (chars, (i - offset as u64) as u32)
}

/// The part of a string that a conversion takes, which is all that it reads but
/// one character, lies inside the string.
pub proof fn lemma_scan_extent(t: Seq<u8>, p: int, base: int, max: int)
    requires
        0 <= p <= t.len(),
        base >= 0,
        max >= 0,
        !scan_int(t, p, base, max).starved,
    ensures
        ({
            let scan = scan_int(t, p, base, max);
            &&& 0 <= scan.prefix <= scan.len
            &&& space_end(t, p) >= p
            &&& space_end(t, p) + scan.len == scan.end
            &&& scan.end <= t.len()
        }),
{
    lemma_space_end(t, p);
    let start = space_end(t, p);
    if start < t.len() {
        let negative = t[start] == 0x2d;
        let sign = if is_sign(t[start]) {
            1int
        } else {
            0
        };
        let b = if base == 0 {
            announced_base(t, start + sign)
        } else {
            base
        };
        lemma_digits_extent(t, start + sign, negative, b, sign, max);
        lemma_digits_extent(t, start + sign + 1, negative, b, sign + 1, max);
        lemma_digits_extent(t, start + sign + 2, negative, b, sign + 2, max);
    }
}

pub proof fn lemma_value_or_max(digits: Seq<u8>, base: int, max: int)
    requires
        base >= 2,
        max >= 0,
        all_digits(digits, base),
    ensures
        0 <= value_or_max(digits, base, max) <= max,
{
    lemma_value_grows(digits, base, digits.len() as int);
}

/// A terminator ends every conversion: text that has one is never read past it.
pub proof fn law_terminator_stops(t: Seq<u8>, p: int, n: int, base: int, max: int)
    requires
        0 <= p <= n < t.len(),
        t[n] == 0,
        0 <= base <= 36,
        max >= 0,
    ensures
        !scan_int(t, p, base, max).starved,
        base != 0 ==> scan_int(t, p, base, max).base == base,
        base == 0 && max != 1 ==> scan_int(t, p, base, max).base >= 8,
        float_end(t, space_end(t, p)) <= n,
{
    lemma_space_end(t, p);
    let start = space_end(t, p);
    assert(start <= n);
    assert forall|q: int, b: int| 0 <= q <= n && b <= 36 implies q <= #[trigger] digit_end(t, q, b)
        <= n by {
        lemma_digit_end(t, q, b);
        assert(!is_digit_in(t[n], b));
    }
}

/// Decimal digits stand for the number that they were written for.
pub proof fn lemma_decimal_value(n: nat)
    ensures
        decimal(n).len() > 0,
        all_digits(decimal(n), 10),
        digits_value(decimal(n), 10) == n,
    decreases n,
{
    if n >= 10 {
        lemma_decimal_value(n / 10);
        assert(decimal(n).drop_last() =~= decimal(n / 10));
        assert(decimal(n).last() == (0x30 + n % 10) as u8);
    } else {
        assert(decimal(n).drop_last() =~= seq![]);
        assert(digits_value(decimal(n).drop_last(), 10) == 0);
    }
}

/// What a conversion finds in a number that was written in decimal: just its
/// digits and its sign.
pub proof fn law_written_number_is_found(n: int, max: int)
    requires
        max > signed_decimal(n).len(),
    ensures
        ({
            let scan = scan_int(signed_decimal(n).push(0), 0, 10, max);
            let magnitude = if n < 0 {
                -n
            } else {
                n
            };
            &&& !scan.starved
            &&& scan.negative == (n < 0)
            &&& scan.digits == decimal(magnitude as nat)
            &&& digits_value(scan.digits, 10) == magnitude
            &&& scan.len == signed_decimal(n).len()
            &&& scan.prefix == if n < 0 {
                1int
            } else {
                0
            }
        }),
{
    let magnitude: nat = (if n < 0 {
        -n
    } else {
        n
    }) as nat;
    let d = decimal(magnitude);
    let sign = if n < 0 {
        1int
    } else {
        0
    };
    let t = signed_decimal(n).push(0);
    lemma_decimal_value(magnitude);
    assert forall|i: int| 0 <= i < d.len() implies #[trigger] t[sign + i] == d[i] && is_digit_in(
        d[i],
        10,
    ) by {}
    let end = sign + d.len();
    assert(t[sign] == t[sign + 0] && t[sign + 0] == d[0]);
    assert(!is_space(t[0]));
    assert(space_end(t, 0) == 0);
    lemma_digit_end(t, sign, 10);
    let run = digit_end(t, sign, 10);
    assert(run == end) by {
        assert(!is_digit_in(t[end], 10));
        if run < end {
            assert(t[sign + (run - sign)] == d[run - sign]);
        }
    }
    assert(t.subrange(sign, end) =~= d) by {
        assert forall|i: int| 0 <= i < d.len() implies t.subrange(sign, end)[i] == d[i] by {
            assert(t[sign + i] == d[i]);
        }
    }
}

/// The digits of a base are `0` to `9` and the letters from `a` on, in either case,
/// each with one more than the one before it, as far as the base goes.
pub proof fn law_digits_of_a_base(c: u8, base: int)
    requires
        2 <= base <= 36,
    ensures
        is_digit_in(c, base) <==> {
            ||| 0x30 <= c <= 0x39 && c - 0x30 < base
            ||| 0x61 <= c <= 0x7a && c - 0x61 + 10 < base
            ||| 0x41 <= c <= 0x5a && c - 0x41 + 10 < base
        },
        0x30 <= c <= 0x39 ==> digit_value(c) == c - 0x30,
        0x61 <= c <= 0x7a ==> digit_value(c) == c - 0x61 + 10,
        0x41 <= c <= 0x5a ==> digit_value(c) == digit_value((c + 0x20) as u8),
{
}

/// Digits stand for a number by their places: of two runs of digits together, the
/// first counts as often as the base says for each digit of the second. A digit
/// alone stands for itself, and zeros in front do not matter.
pub proof fn law_digits_count_by_place(front: Seq<u8>, back: Seq<u8>, c: u8, base: int)
    ensures
        digits_value(front + back, base) == digits_value(front, base) * vstd::arithmetic::power::pow(
            base,
            back.len(),
        ) + digits_value(back, base),
        digits_value(seq![c], base) == digit_value(c),
        digits_value(Seq::empty(), base) == 0,
        c == 0x30 ==> digits_value(seq![c] + back, base) == digits_value(back, base),
{
    lemma_value_of_one(c, base);
    lemma_values_join(front, back, base);
    lemma_values_join(seq![c], back, base);
}

proof fn lemma_value_of_one(c: u8, base: int)
    ensures
        digits_value(seq![c], base) == digit_value(c),
{
    assert(seq![c].drop_last() =~= Seq::<u8>::empty());
    assert(digits_value(seq![c].drop_last(), base) == 0);
}

proof fn lemma_values_join(front: Seq<u8>, back: Seq<u8>, base: int)
    ensures
        digits_value(front + back, base) == digits_value(front, base) * vstd::arithmetic::power::pow(
            base,
            back.len(),
        ) + digits_value(back, base),
    decreases back.len(),
{
    let v = digits_value(front, base);
    if back.len() == 0 {
        assert(front + back =~= front);
        vstd::arithmetic::power::lemma_pow0(base);
    } else {
        let less = back.drop_last();
        assert((front + back).drop_last() =~= front + less);
        assert((front + back).last() == back.last());
        lemma_values_join(front, less, base);
        let n = less.len();
        let p = vstd::arithmetic::power::pow(base, n);
        assert(vstd::arithmetic::power::pow(base, back.len()) == base * p) by {
            reveal(vstd::arithmetic::power::pow);
        }
        assert((v * p + digits_value(less, base)) * base == v * (base * p) + digits_value(less, base)
            * base) by (nonlinear_arith);
    }
}

/// The run of digits from `p` on ends at `e`.
proof fn lemma_run_ends(t: Seq<u8>, p: int, e: int, base: int)
    requires
        0 <= p <= e <= t.len(),
        forall|i: int| p <= i < e ==> is_digit_in(#[trigger] t[i], base),
        e < t.len() ==> !is_digit_in(t[e], base),
    ensures
        digit_end(t, p, base) == e,
{
    lemma_digit_end(t, p, base);
}

/// The whitespace from `q` on ends at `p`. Whitespace is a space, or one of the
/// characters from tab to carriage return.
pub proof fn law_whitespace_ends(t: Seq<u8>, q: int, p: int)
    requires
        0 <= q <= p <= t.len(),
        forall|i: int| q <= i < p ==> (#[trigger] t[i] == 0x20 || 0x09 <= t[i] <= 0x0d),
        p < t.len() ==> !(t[p] == 0x20 || 0x09 <= t[p] <= 0x0d),
    ensures
        space_end(t, q) == p,
{
    lemma_space_end(t, q);
    let r = space_end(t, q);
    if r < p {
        assert(is_space(t[r]));
    }
    if r > p {
        assert(is_space(t[p]));
    }
}

/// Whether the characters from `from` up to `to` are decimal digits.
pub open spec fn decimal_run(t: Seq<u8>, from: int, to: int) -> bool {
    forall|i: int| from <= i < to ==> 0x30 <= #[trigger] t[i] <= 0x39
}

/// The text of a decimal number is found whole, as C writes it: from `p` on, behind
/// whitespace from `q` on, an optional sign, up to `digits`; digits, up to `whole`;
/// optionally a point and digits, up to `fraction`; and optionally an `e` or `E`, a
/// sign or none, up to `power`, and digits, up to `e`. What follows, if anything,
/// could not go on the number.
///
/// Without a point, `fraction` is `whole`, and without an exponent, `power` and `e`
/// are `fraction`.
pub proof fn law_float_text_is_whole(
    t: Seq<u8>,
    q: int,
    p: int,
    digits: int,
    whole: int,
    fraction: int,
    power: int,
    e: int,
)
    requires
        0 <= q <= p <= digits <= whole <= fraction <= power <= e <= t.len(),
        forall|i: int| q <= i < p ==> (#[trigger] t[i] == 0x20 || 0x09 <= t[i] <= 0x0d),
        p < t.len() ==> !(t[p] == 0x20 || 0x09 <= t[p] <= 0x0d),
        digits == p + 1 && (t[p] == 0x2b || t[p] == 0x2d) || digits == p && (p < t.len() ==> t[p]
            != 0x2b && t[p] != 0x2d),
        decimal_run(t, digits, whole),
        whole < fraction ==> t[whole] == 0x2e && decimal_run(t, whole + 1, fraction),
        fraction < e ==> {
            &&& t[fraction] == 0x65 || t[fraction] == 0x45
            &&& power < e
            &&& power == fraction + 1 || power == fraction + 2 && (t[fraction + 1] == 0x2b
                || t[fraction + 1] == 0x2d)
            &&& decimal_run(t, power, e)
        },
        e < t.len() ==> {
            &&& !(0x30 <= t[e] <= 0x39)
            &&& whole == e ==> t[e] != 0x2e
            &&& fraction == e ==> t[e] != 0x65 && t[e] != 0x45
        },
    ensures
        space_end(t, q) == p,
        float_end(t, space_end(t, q)) == e,
{
    law_whitespace_ends(t, q, p);
    assert(forall|i: int| digits <= i < whole ==> is_digit_in(#[trigger] t[i], 10));
    lemma_run_ends(t, digits, whole, 10);
    if digits == p && p < whole {
        assert(is_digit_in(t[p], 10));
        lemma_run_ends(t, p + 1, whole, 10);
    }
    assert(digit_end(t, after_lead(t, p), 10) == whole);
    if whole < fraction {
        assert(forall|i: int| whole + 1 <= i < fraction ==> is_digit_in(#[trigger] t[i], 10));
        lemma_run_ends(t, whole + 1, fraction, 10);
    }
    if fraction < e {
        assert(forall|i: int| power <= i < e ==> is_digit_in(#[trigger] t[i], 10));
        lemma_run_ends(t, power, e, 10);
        if power == fraction + 1 {
            assert(is_digit_in(t[power], 10));
            lemma_run_ends(t, power + 1, e, 10);
        }
    }
}

/// The base of a number whose text from `at` on, behind the sign, is looked at: the
/// one asked for, and where none is asked for, that which the text shows.
pub open spec fn base_meant(t: Seq<u8>, at: int, base: int) -> int {
    if base != 0 {
        base
    } else if t[at] != 0x30 {
        10
    } else if t[at + 1] == 0x78 || t[at + 1] == 0x58 {
        16
    } else {
        8
    }
}

/// An integer is found whole: from `p` on, behind whitespace from `q` on, an
/// optional sign of length `sign`; `0x` or `0X` where the base is 16, if it is
/// there; and digits of the base from `d` up to `e`. All of that is its length, and
/// its digits stand for the same number as those. What ends them is no digit, or the
/// end of the text, which a string does not come to.
///
/// Left out is a zero alone in base 16, which is taken for the start of `0x`.
pub proof fn law_integer_text_is_whole(
    t: Seq<u8>,
    q: int,
    p: int,
    sign: int,
    d: int,
    e: int,
    base: int,
    max: int,
)
    requires
        0 <= q <= p < d + 1,
        d < e <= t.len(),
        forall|i: int| q <= i < p ==> (#[trigger] t[i] == 0x20 || 0x09 <= t[i] <= 0x0d),
        sign == 1 && (t[p] == 0x2b || t[p] == 0x2d) || sign == 0 && t[p] != 0x2b && t[p] != 0x2d
            && !(t[p] == 0x20 || 0x09 <= t[p] <= 0x0d),
        base == 0 || 2 <= base <= 36,
        max == 0 || max > e - p,
        ({
            let at = p + sign;
            let b = base_meant(t, at, base);
            let prefixed = b == 16 && at + 1 < t.len() && t[at] == 0x30 && (t[at + 1] == 0x78
                || t[at + 1] == 0x58);
            &&& base == 0 && t[at] == 0x30 ==> at + 1 < t.len()
            &&& d == if prefixed {
                at + 2
            } else {
                at
            }
            &&& forall|i: int| d <= i < e ==> is_digit_in(#[trigger] t[i], b)
            &&& e < t.len() ==> !is_digit_in(t[e], b)
            &&& !(b == 16 && !prefixed && t[d] == 0x30 && e == d + 1)
        }),
    ensures
        ({
            let b = base_meant(t, p + sign, base);
            let scan = scan_int(t, q, base, max);
            let has_digits = scan.len > scan.prefix;
            let value = digits_value(t.subrange(d, e), b);
            &&& space_end(t, q) == p
            &&& scan.starved == (e == t.len())
            &&& scan.base == b
            &&& scan.negative == (t[p] == 0x2d)
            &&& scan.end == e
            &&& scan.len == e - p
            &&& has_digits ==> digits_value(scan.digits, b) == value
            &&& !has_digits ==> b == 8 && value == 0 && scan.prefix == e - p
            &&& has_digits || e == d + 1 && t[d] == 0x30
        }),
{
    law_whitespace_ends(t, q, p);
    let at = p + sign;
    let b = base_meant(t, at, base);
    let digits = t.subrange(d, e);
    lemma_run_ends(t, d, e, b);
    assert(is_digit_in(t[d], b));
    if (b == 8 || b == 16) && d == at && t[d] == 0x30 {
        assert(forall|i: int| d + 1 <= i < e ==> is_digit_in(#[trigger] t[i], b));
        lemma_run_ends(t, d + 1, e, b);
        let rest = t.subrange(d + 1, e);
        assert(digits =~= seq![0x30u8] + rest);
        law_digits_count_by_place(seq![0x30u8], rest, 0x30, b);
        if rest.len() == 0 {
            assert(rest =~= Seq::empty());
        }
    }
}

/// A limit ends a number that goes on behind it: of the digits from `d` on, those
/// up to the limit are the number, and the limit is its length. The rest is laid out
/// as for a number that is found whole.
pub proof fn law_limit_ends_the_number(
    t: Seq<u8>,
    q: int,
    p: int,
    sign: int,
    d: int,
    e: int,
    base: int,
    max: int,
)
    requires
        0 <= q <= p < d + 1,
        d < e <= t.len(),
        forall|i: int| q <= i < p ==> (#[trigger] t[i] == 0x20 || 0x09 <= t[i] <= 0x0d),
        sign == 1 && (t[p] == 0x2b || t[p] == 0x2d) || sign == 0 && t[p] != 0x2b && t[p] != 0x2d
            && !(t[p] == 0x20 || 0x09 <= t[p] <= 0x0d),
        2 <= base <= 36,
        max == e - p,
        ({
            let at = p + sign;
            let prefixed = base == 16 && at + 1 < t.len() && t[at] == 0x30 && (t[at + 1] == 0x78
                || t[at + 1] == 0x58);
            &&& d == if prefixed {
                at + 2
            } else {
                at
            }
            &&& forall|i: int| d <= i < e ==> is_digit_in(#[trigger] t[i], base)
        }),
    ensures
        ({
            let scan = scan_int(t, q, base, max);
            let has_digits = scan.len > scan.prefix;
            let value = digits_value(t.subrange(d, e), base);
            &&& !scan.starved
            &&& scan.base == base
            &&& scan.negative == (t[p] == 0x2d)
            &&& scan.len == max
            &&& scan.end == e
            &&& has_digits ==> digits_value(scan.digits, base) == value
            &&& !has_digits ==> base == 8 && value == 0
        }),
{
    law_whitespace_ends(t, q, p);
    let at = p + sign;
    let digits = t.subrange(d, e);
    lemma_digit_end(t, d, base);
    assert(is_digit_in(t[d], base));
    assert(digit_end(t, d, base) >= e);
    if (base == 8 || base == 16) && d == at && t[d] == 0x30 {
        lemma_digit_end(t, d + 1, base);
        assert(digit_end(t, d + 1, base) >= e);
        let rest = t.subrange(d + 1, e);
        assert(digits =~= seq![0x30u8] + rest);
        law_digits_count_by_place(seq![0x30u8], rest, 0x30, base);
        if rest.len() == 0 {
            assert(rest =~= Seq::empty());
            assert(digits =~= seq![0x30u8]);
        }
    }
}

/// Text without a number is no number: where, behind whitespace and an optional
/// sign, no digit of the base is, nothing is found. A sign alone is one where the
/// base is 8.
pub proof fn law_no_digits_no_number(t: Seq<u8>, q: int, p: int, sign: int, base: int, max: int)
    requires
        0 <= q <= p,
        p + sign < t.len(),
        forall|i: int| q <= i < p ==> (#[trigger] t[i] == 0x20 || 0x09 <= t[i] <= 0x0d),
        sign == 1 && (t[p] == 0x2b || t[p] == 0x2d) || sign == 0 && t[p] != 0x2b && t[p] != 0x2d
            && !(t[p] == 0x20 || 0x09 <= t[p] <= 0x0d),
        base == 0 || 2 <= base <= 36,
        max == 0 || max > sign,
        t[p + sign] != 0x30,
        !is_digit_in(
            t[p + sign],
            if base == 0 {
                10
            } else {
                base
            },
        ),
    ensures
        ({
            let scan = scan_int(t, q, base, max);
            &&& scan.len == scan.prefix == sign
            &&& scan.digits.len() == 0
            &&& scan.base == if base == 0 {
                10
            } else {
                base
            }
        }),
{
    law_whitespace_ends(t, q, p);
    lemma_run_ends(t, p + sign, p + sign, if base == 0 { 10 } else { base });
}

/// A conversion starts where it is told to in a string, and where reading has come to
/// in a stream.
pub proof fn law_conversion_starts<S: CharSource>(source: S, offset: int)
    ensures
        source.is_stream() ==> start_of(source, offset) == source.cursor(),
        !source.is_stream() ==> start_of(source, offset) == offset,
{
}

/// A conversion gives a number exactly where there is one, with its length and that
/// of the whitespace before it. The number is what the callback makes of the digits,
/// and where there is a minus sign, what the other makes of that.
pub proof fn law_conversion_goes_by_the_callbacks<
    Q: Default,
    F3: Fn(&Vec<u8>, u32) -> Q,
    F4: Fn(Q) -> Q,
>(
    scan: IntScan,
    whitespace: int,
    from_str_radix_fn: F3,
    negation_fn: F4,
    r: Result<(Q, u32), ()>,
)
    requires
        converts_to(scan, whitespace, from_str_radix_fn, negation_fn, r),
        0 <= scan.prefix <= scan.len,
    ensures
        r is Ok <==> scan.len > scan.prefix || scan.base == 8 && scan.prefix > 0,
        r is Ok ==> r->Ok_0.1 == whitespace + scan.len,
        scan.len > scan.prefix && !scan.negative ==> exists|digits: &Vec<u8>|
            digits@ == scan.digits && #[trigger] call_ensures(
                from_str_radix_fn,
                (digits, scan.base as u32),
                r->Ok_0.0,
            ),
        scan.len > scan.prefix && scan.negative ==> exists|digits: &Vec<u8>, q: Q|
            digits@ == scan.digits && #[trigger] call_ensures(
                from_str_radix_fn,
                (digits, scan.base as u32),
                q,
            ) && call_ensures(negation_fn, (q,), r->Ok_0.0),
{
}

} // verus!
