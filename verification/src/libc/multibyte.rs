//! Wide strings, and paths that are written to guest buffers.
use crate::environment::{set_errno, Environment, C_LOCALE};
use crate::libc::number_text::{
    announced_base, digit_end, is_digit_in, is_sign, lemma_digit_end, lemma_space_end,
    law_terminator_stops, scan_digits, scan_int, space_end,
};
use crate::libc::stdlib::{convertible, cstr_scan, strtoul, unsigned_value};
use crate::mem::{
    block_size, le32_bytes, lemma_le32_frame, lemma_le32_roundtrip, lemma_nul_index, GuestAddr,
    GuestUSize, MemState, NULL,
};
use vstd::prelude::*;
use vstd::utf8::{encode_scalar, is_scalar};

verus! {

/// The size of a `wchar_t`.
pub const WCHAR_SIZE: u32 = 4;

/// The address of the terminator of the wide string at `p`.
pub open spec fn wide_end(mem: MemState, p: int) -> int
    decreases mem.bytes.len() - p,
{
    if p < 0 || p + WCHAR_SIZE > mem.bytes.len() || mem.u32_at(p) == 0 {
        p
    } else {
        wide_end(mem, p + WCHAR_SIZE)
    }
}

/// Whether a terminated wide string starts at `p`.
pub open spec fn has_wcstr(mem: MemState, p: int) -> bool {
    mem.null_size <= p && wide_end(mem, p) + WCHAR_SIZE <= mem.bytes.len()
}

/// The characters of the wide string at `p`.
pub open spec fn wcstr(mem: MemState, p: int) -> Seq<u32> {
    Seq::new(((wide_end(mem, p) - p) / 4) as nat, |i: int| mem.u32_at(p + 4 * i))
}

/// Whether all of `text` are characters that UTF-8 can encode.
pub open spec fn all_scalars(text: Seq<u32>) -> bool {
    forall|i: int| 0 <= i < text.len() ==> is_scalar(#[trigger] text[i])
}

/// `text` in UTF-8.
pub open spec fn utf8_of(text: Seq<u32>) -> Seq<u8>
    decreases text.len(),
{
    if text.len() == 0 {
        seq![]
    } else {
        utf8_of(text.drop_last()) + encode_scalar(text.last())
    }
}

proof fn lemma_wide_end(mem: MemState, p: int)
    requires
        0 <= p,
    ensures
        p <= wide_end(mem, p),
        (wide_end(mem, p) - p) % 4 == 0,
        wide_end(mem, p) + 4 <= mem.bytes.len() ==> mem.u32_at(wide_end(mem, p)) == 0,
        forall|i: int| 0 <= i < (wide_end(mem, p) - p) / 4 ==> #[trigger] mem.u32_at(p + 4 * i) != 0,
    decreases mem.bytes.len() - p,
{
    if p + 4 <= mem.bytes.len() && mem.u32_at(p) != 0 {
        lemma_wide_end(mem, p + 4);
        assert forall|i: int| 0 <= i < (wide_end(mem, p) - p) / 4 implies #[trigger] mem.u32_at(
            p + 4 * i,
        ) != 0 by {
            if i > 0 {
                assert(mem.u32_at(p + 4 + 4 * (i - 1)) != 0);
                assert(p + 4 + 4 * (i - 1) == p + 4 * i);
            }
        }
    }
}

/// The characters of the wide string at `p`.
fn wcstr_at(env: &Environment, p: GuestAddr) -> (r: Vec<u32>)
    requires
        env.wf(),
        has_wcstr(env.mem@, p as int),
    ensures
        r@ == wcstr(env.mem@, p as int),
{
    let mut r: Vec<u32> = Vec::new();
    let mut q: u64 = p as u64;
    let ghost m = env.mem@;
    let ghost end = wide_end(m, p as int);
    proof {
        lemma_wide_end(m, p as int);
    }
    loop
        invariant
            env.wf(),
            m == env.mem@,
            m.null_size <= p,
            end == wide_end(m, p as int),
            end + 4 <= m.bytes.len(),
            p <= q <= end,
            wide_end(m, q as int) == end,
            q == p + 4 * r@.len(),
            forall|i: int| 0 <= i < r@.len() ==> r@[i] == m.u32_at(p + 4 * i),
        decreases end - q,
    {
        let c: u32 = env.mem.read_u32(q as u32);
        if c == 0 {
            assert(r@ =~= wcstr(m, p as int));
            return r;
        }
        proof {
            lemma_wide_end(m, q + 4);
        }
        r.push(c);
        q += 4;
    }
}

/// Appends the UTF-8 encoding of `c`.
fn push_scalar(out: &mut Vec<u8>, c: u32)
    requires
        is_scalar(c),
    ensures
        final(out)@ == old(out)@ + encode_scalar(c),
{
    assert(c & 0x7f <= 0x7f && c & 0x3f <= 0x3f && (c >> 6) & 0x3f <= 0x3f && (c >> 12) & 0x3f
        <= 0x3f && (c >> 6) & 0x1f <= 0x1f && (c >> 12) & 0xf <= 0xf && (c >> 18) & 0x7 <= 0x7)
        by (bit_vector);
    if c <= 0x7f {
        out.push((c & 0x7f) as u8);
    } else if c <= 0x7ff {
        out.push(0xc0 | ((c >> 6) & 0x1f) as u8);
        out.push(0x80 | (c & 0x3f) as u8);
    } else if c <= 0xffff {
        out.push(0xe0 | ((c >> 12) & 0xf) as u8);
        out.push(0x80 | ((c >> 6) & 0x3f) as u8);
        out.push(0x80 | (c & 0x3f) as u8);
    } else {
        out.push(0xf0 | ((c >> 18) & 0x7) as u8);
        out.push(0x80 | ((c >> 12) & 0x3f) as u8);
        out.push(0x80 | ((c >> 6) & 0x3f) as u8);
        out.push(0x80 | (c & 0x3f) as u8);
    }
    assert(out@ =~= old(out)@ + encode_scalar(c));
}

/// `text` in UTF-8.
fn to_utf8(text: &Vec<u32>) -> (r: Vec<u8>)
    requires
        all_scalars(text@),
    ensures
        r@ == utf8_of(text@),
{
    let mut r: Vec<u8> = Vec::new();
    let mut i: usize = 0;
    while i < text.len()
        invariant
            all_scalars(text@),
            i <= text@.len(),
            r@ == utf8_of(text@.take(i as int)),
        decreases text@.len() - i,
    {
        push_scalar(&mut r, text[i]);
        i += 1;
        assert(text@.take(i as int).drop_last() =~= text@.take(i - 1));
    }
    assert(text@.take(i as int) =~= text@);
    r
}

/// Memory after the first `count` bytes at `s` were each written as a wide
/// character at `pwcs`, one after the other.
pub open spec fn widened(mem: MemState, pwcs: int, s: int, count: int) -> MemState
    decreases count,
{
    if count <= 0 {
        mem
    } else {
        let before = widened(mem, pwcs, s, count - 1);
        before.write_u32(pwcs + 4 * (count - 1), before.bytes[s + count - 1] as u32)
    }
}

proof fn lemma_widened(mem: MemState, pwcs: int, s: int, count: int)
    ensures
        widened(mem, pwcs, s, count).bytes.len() == mem.bytes.len(),
        widened(mem, pwcs, s, count).null_size == mem.null_size,
    decreases count,
{
    if count > 0 {
        lemma_widened(mem, pwcs, s, count - 1);
    }
}

/// How many characters `mbstowcs` converts: at most `n`.
pub open spec fn wide_count(mem: MemState, s: int, n: int) -> int {
    let size = mem.cstr(s).len() as int;
    if size < n {
        size
    } else {
        n
    }
}

/// Converts the string at `s` to at most `n` wide characters, with a terminator
/// where there is room for one.
pub fn mbstowcs(env: &mut Environment, pwcs: GuestAddr, s: GuestAddr, n: GuestUSize) -> (r:
    GuestUSize)
    requires
        old(env).wf(),
        old(env).ctype_locale == C_LOCALE,
        old(env).mem@.has_cstr(s as int),
        ({
            let count = wide_count(old(env).mem@, s as int, n as int);
            let written = if count < n {
                count + 1
            } else {
                count
            };
            written > 0 ==> old(env).mem@.valid(pwcs as int, 4 * written)
        }),
    ensures
        final(env).wf(),
        r == wide_count(old(env).mem@, s as int, n as int),
        final(env).mem@ == {
            let text = widened(old(env).mem@, pwcs as int, s as int, r as int);
            if r < n {
                text.write_u32(pwcs + 4 * r, 0)
            } else {
                text
            }
        },
        *final(env) == (Environment { mem: final(env).mem, errno: 0, ..*old(env) }),
{
    set_errno(env, 0);
    let ghost m = env.mem@;
    proof {
        lemma_nul_index(m.bytes, s as int);
    }
    let size: u32 = env.mem.strlen(s);
    let count: u32 = if size < n {
        size
    } else {
        n
    };
    let mut i: u32 = 0;
    while i < count
        invariant
            m == old(env).mem@,
            env.wf(),
            i <= count <= size,
            count <= n,
            m.null_size <= s,
            s + size < m.bytes.len() <= 0x1_0000_0000,
            i < count ==> m.valid(pwcs as int, 4 * count),
            env.mem@ == widened(m, pwcs as int, s as int, i as int),
            *env == (Environment { mem: env.mem, errno: 0, ..*old(env) }),
        decreases count - i,
    {
        proof {
            lemma_widened(m, pwcs as int, s as int, i as int);
        }
        let c: u8 = env.mem.read_u8(s + i);
        env.mem.write_u32((pwcs as u64 + 4 * i as u64) as u32, c as u32);
        i += 1;
    }
    if count < n {
        proof {
            lemma_widened(m, pwcs as int, s as int, count as int);
        }
        env.mem.write_u32((pwcs as u64 + 4 * count as u64) as u32, 0);
    }
    count
}

/// Converts the wide string at `pwcs` to UTF-8, with a terminator where `n` bytes
/// leave room for one.
pub fn wcstombs(env: &mut Environment, s: GuestAddr, pwcs: GuestAddr, n: GuestUSize) -> (r:
    GuestUSize)
    requires
        old(env).wf(),
        old(env).ctype_locale == C_LOCALE,
        n > 0 ==> {
            let text = utf8_of(wcstr(old(env).mem@, pwcs as int));
            &&& has_wcstr(old(env).mem@, pwcs as int)
            &&& all_scalars(wcstr(old(env).mem@, pwcs as int))
            &&& text.len() <= n
            &&& old(env).mem@.valid(
                s as int,
                if text.len() < n {
                    text.len() as int + 1
                } else {
                    text.len() as int
                },
            )
        },
    ensures
        final(env).wf(),
        ({
            let text = utf8_of(wcstr(old(env).mem@, pwcs as int));
            &&& r == if n == 0 {
                0
            } else {
                text.len()
            }
            &&& final(env).mem@ == if n == 0 {
                old(env).mem@
            } else if text.len() < n {
                old(env).mem@.write(s as int, text.push(0))
            } else {
                old(env).mem@.write(s as int, text)
            }
        }),
        *final(env) == (Environment { mem: final(env).mem, ..*old(env) }),
{
    if n == 0 {
        return 0;
    }
    let wide: Vec<u32> = wcstr_at(env, pwcs);
    let mut text: Vec<u8> = to_utf8(&wide);
    let len: u32 = text.len() as u32;
    if len < n {
        text.push(0);
    }
    env.mem.write_bytes(s, &text);
    len
}

/// Digits are read no further than the first terminator.
proof fn lemma_scan_digits_local(
    t: Seq<u8>,
    u: Seq<u8>,
    n: int,
    q: int,
    negative: bool,
    base: int,
    taken: int,
    max: int,
)
    requires
        0 <= n < t.len(),
        n < u.len(),
        t[n] == 0,
        forall|i: int| 0 <= i <= n ==> t[i] == u[i],
        base <= 36,
        0 <= q,
    ensures
        q <= n && (max == 0 || taken < max) ==> scan_digits(t, q, negative, base, taken, max)
            == scan_digits(u, q, negative, base, taken, max),
{
    if q <= n && (max == 0 || taken < max) {
        lemma_digit_end(t, q, base);
        lemma_digit_end(u, q, base);
        assert(!is_digit_in(t[n], base) && !is_digit_in(u[n], base));
        let x = digit_end(t, q, base);
        let y = digit_end(u, q, base);
        assert(x <= n && y <= n);
        assert(x == y);
        assert(scan_digits(t, q, negative, base, taken, max).digits =~= scan_digits(
            u,
            q,
            negative,
            base,
            taken,
            max,
        ).digits);
    }
}

/// A conversion reads no further than the first terminator.
proof fn lemma_scan_local(t: Seq<u8>, u: Seq<u8>, n: int, base: int, max: int)
    requires
        0 <= n < t.len(),
        n < u.len(),
        t[n] == 0,
        forall|i: int| 0 <= i <= n ==> t[i] == u[i],
        0 <= base <= 36,
        max >= 0,
    ensures
        scan_int(t, 0, base, max) == scan_int(u, 0, base, max),
{
    lemma_space_end(t, 0);
    lemma_space_end(u, 0);
    let start = space_end(t, 0);
    assert(start <= n && space_end(u, 0) <= n);
    assert(start == space_end(u, 0));
    let negative = t[start] == 0x2d;
    let sign = if is_sign(t[start]) {
        1int
    } else {
        0
    };
    assert(start + sign <= n);
    assert(announced_base(t, start + sign) == announced_base(u, start + sign));
    let b = if base == 0 {
        announced_base(t, start + sign)
    } else {
        base
    };
    lemma_scan_digits_local(t, u, n, start + sign, negative, b, sign, max);
    lemma_scan_digits_local(t, u, n, start + sign + 1, negative, b, sign + 1, max);
    lemma_scan_digits_local(t, u, n, start + sign + 2, negative, b, sign + 2, max);
}

/// The bytes of a wide string of ASCII characters.
pub open spec fn narrow(text: Seq<u32>) -> Seq<u8> {
    Seq::new(text.len(), |i: int| text[i] as u8)
}

/// Converts the wide string at `nptr`, which is in ASCII, as `strtoul` converts
/// a string. A copy of the text is on the heap meanwhile.
pub fn wcstoul(env: &mut Environment, nptr: GuestAddr, endptr: GuestAddr, base: i32) -> (r: u32)
    requires
        old(env).wf(),
        old(env).ctype_locale == C_LOCALE,
        endptr == NULL,
        has_wcstr(old(env).mem@, nptr as int),
        0 <= base <= 36,
        base != 1,
        ({
            let text = wcstr(old(env).mem@, nptr as int);
            &&& forall|i: int| 0 <= i < text.len() ==> #[trigger] text[i] < 0x80
            &&& old(env).mem@.has_room(text.len() as int + 1, false)
            &&& base == 0 ==> scan_int(narrow(text).push(0), 0, 0, u32::MAX as int).base != 0
        }),
    ensures
        final(env).wf(),
        ({
            let text = narrow(wcstr(old(env).mem@, nptr as int));
            &&& r == unsigned_value(
                scan_int(text.push(0), 0, base as int, u32::MAX as int),
                u32::MAX as int,
            )
            &&& exists|copy: int|
                {
                    &&& #[trigger] old(env).mem@.gap(copy, block_size(text.len() as int + 1), false)
                    &&& final(env).mem@ == old(env).mem@.write(copy, text.push(0))
                }
        }),
        *final(env) == (Environment { mem: final(env).mem, errno: 0, ..*old(env) }),
{
    let wide: Vec<u32> = wcstr_at(env, nptr);
    let ghost m = env.mem@;
    let mut text: Vec<u8> = Vec::new();
    let mut i: usize = 0;
    while i < wide.len()
        invariant
            forall|i: int| 0 <= i < wide@.len() ==> #[trigger] wide@[i] < 0x80,
            i <= wide@.len(),
            text@ == narrow(wide@).take(i as int),
        decreases wide@.len() - i,
    {
        text.push(wide[i] as u8);
        i += 1;
        assert(text@ =~= narrow(wide@).take(i as int));
    }
    assert(text@ =~= narrow(wide@));
    proof {
        lemma_wide_end(m, nptr as int);
    }
    let copy: u32 = env.mem.alloc_and_write_cstr(&text);
    proof {
        let t = text@.push(0);
        let u = env.mem@.bytes.skip(copy as int);
        assert forall|i: int| 0 <= i <= text@.len() implies t[i] == u[i] by {
            assert(u[i] == env.mem@.bytes[copy + i]);
        }
        lemma_scan_local(t, u, text@.len() as int, base as int, u32::MAX as int);
        law_terminator_stops(u, 0, text@.len() as int, base as int, u32::MAX as int);
        assert(convertible(env.mem@, copy as int, base as int));
        assert(cstr_scan(env.mem@, copy as int, base as int) == scan_int(
            t,
            0,
            base as int,
            u32::MAX as int,
        ));
    }
    let r: u32 = strtoul(env, copy, NULL, base);
    env.mem.free(copy);
    proof {
        assert(!m.live.contains_key(copy));
        assert(env.mem@.live =~= m.live);
        assert(env.mem@ =~= m.write(copy as int, text@.push(0)));
    }
    r
}

/// `parts` with a slash before each of them; a lone slash where there is none.
pub open spec fn absolute_path(parts: Seq<Vec<u8>>) -> Seq<u8> {
    if parts.len() == 0 {
        seq![0x2fu8]
    } else {
        slashed(parts)
    }
}

pub open spec fn slashed(parts: Seq<Vec<u8>>) -> Seq<u8>
    decreases parts.len(),
{
    if parts.len() == 0 {
        seq![]
    } else {
        slashed(parts.drop_last()) + seq![0x2fu8] + parts.last()@
    }
}

/// Writes the path that consists of the `resolved` components to `resolve_name`.
pub fn realpath(env: &mut Environment, resolved: &Vec<Vec<u8>>, resolve_name: GuestAddr) -> (r:
    GuestAddr)
    requires
        old(env).wf(),
        resolve_name != NULL,
        old(env).mem@.valid(resolve_name as int, absolute_path(resolved@).len() as int + 1),
    ensures
        r == resolve_name,
        final(env).wf(),
        final(env).mem@ == old(env).mem@.write(
            resolve_name as int,
            absolute_path(resolved@).push(0),
        ),
        *final(env) == (Environment { mem: final(env).mem, ..*old(env) }),
{
    let mut path: Vec<u8> = Vec::new();
    let mut i: usize = 0;
    while i < resolved.len()
        invariant
            i <= resolved@.len(),
            path@ == slashed(resolved@.take(i as int)),
        decreases resolved@.len() - i,
    {
        path.push(0x2f);
        path.extend_from_slice(resolved[i].as_slice());
        i += 1;
        proof {
            let taken = resolved@.take(i as int);
            assert(taken.drop_last() =~= resolved@.take(i - 1));
            assert(path@ =~= slashed(taken));
        }
    }
    assert(resolved@.take(i as int) =~= resolved@);
    if resolved.len() == 0 {
        path.push(0x2f);
    }
    assert(path@ =~= absolute_path(resolved@));
    path.push(0);
    assert(path@ =~= absolute_path(resolved@).push(0));
    env.mem.write_bytes(resolve_name, &path);
    resolve_name
}

/// Bytes as wide characters.
pub open spec fn widen(text: Seq<u8>) -> Seq<u32> {
    Seq::new(text.len(), |i: int| text[i] as u32)
}

/// The wide characters that were written are there, and what is not among them
/// has not changed.
proof fn lemma_widened_text(mem: MemState, pwcs: int, s: int, k: int, len: int)
    requires
        mem.wf(),
        0 <= k <= len,
        mem.valid(pwcs, 4 * len),
        mem.valid(s, len),
        s + len <= pwcs || pwcs + 4 * len <= s,
    ensures
        ({
            let post = widened(mem, pwcs, s, k);
            &&& post.bytes.len() == mem.bytes.len()
            &&& forall|i: int| 0 <= i < k ==> #[trigger] post.u32_at(pwcs + 4 * i) == mem.bytes[s + i]
            &&& forall|i: int|
                0 <= i < mem.bytes.len() && (i < pwcs || pwcs + 4 * k <= i) ==> #[trigger] post.bytes[i]
                    == mem.bytes[i]
        }),
    decreases k,
{
    if k > 0 {
        lemma_widened_text(mem, pwcs, s, k - 1, len);
        let before = widened(mem, pwcs, s, k - 1);
        let post = widened(mem, pwcs, s, k);
        let at = pwcs + 4 * (k - 1);
        let c = before.bytes[s + k - 1];
        assert(c == mem.bytes[s + k - 1]);
        lemma_le32_roundtrip(before.bytes, at, c as u32);
        assert forall|i: int| 0 <= i < k implies #[trigger] post.u32_at(pwcs + 4 * i)
            == mem.bytes[s + i] by {
            if i < k - 1 {
                lemma_le32_frame(before.bytes, at, le32_bytes(c as u32), pwcs + 4 * i);
                assert(before.u32_at(pwcs + 4 * i) == mem.bytes[s + i]);
            }
        }
    }
}

proof fn lemma_wide_end_is(mem: MemState, p: int, n: int)
    requires
        0 <= p,
        0 <= n,
        p + 4 * n + 4 <= mem.bytes.len(),
        forall|i: int| 0 <= i < n ==> #[trigger] mem.u32_at(p + 4 * i) != 0,
        mem.u32_at(p + 4 * n) == 0,
    ensures
        wide_end(mem, p) == p + 4 * n,
    decreases n,
{
    if n > 0 {
        assert(mem.u32_at(p + 4 * 0) != 0);
        assert forall|i: int| 0 <= i < n - 1 implies #[trigger] mem.u32_at(p + 4 + 4 * i) != 0 by {
            assert(mem.u32_at(p + 4 * (i + 1)) != 0);
        }
        lemma_wide_end_is(mem, p + 4, n - 1);
    }
}

/// ASCII is the same in UTF-8.
proof fn lemma_utf8_of_ascii(text: Seq<u8>)
    requires
        forall|i: int| 0 <= i < text.len() ==> text[i] < 0x80,
    ensures
        utf8_of(widen(text)) == text,
        all_scalars(widen(text)),
    decreases text.len(),
{
    if text.len() > 0 {
        lemma_utf8_of_ascii(text.drop_last());
        assert(widen(text).drop_last() =~= widen(text.drop_last()));
        let c = text.last();
        assert((c as u32 & 0x7f) as u8 == c) by (bit_vector)
            requires
                c < 0x80u8,
        ;
        assert(utf8_of(widen(text)) =~= text);
    }
}

/// An ASCII string that `mbstowcs` has converted, terminator and all, to a place
/// of its own is converted back to that string by `wcstombs`.
pub proof fn law_wide_round_trip(mem: MemState, pwcs: GuestAddr, s: GuestAddr)
    requires
        mem.wf(),
        mem.has_cstr(s as int),
        forall|i: int| 0 <= i < mem.cstr(s as int).len() ==> #[trigger] mem.cstr(s as int)[i] < 0x80,
        ({
            let len = mem.cstr(s as int).len() as int;
            &&& mem.valid(pwcs as int, 4 * (len + 1))
            &&& s + len <= pwcs || pwcs + 4 * (len + 1) <= s
        }),
    ensures
        ({
            let text = mem.cstr(s as int);
            let len = text.len() as int;
            let post = widened(mem, pwcs as int, s as int, len).write_u32(pwcs + 4 * len, 0);
            &&& has_wcstr(post, pwcs as int)
            &&& all_scalars(wcstr(post, pwcs as int))
            &&& utf8_of(wcstr(post, pwcs as int)) == text
        }),
{
    let text = mem.cstr(s as int);
    let len = text.len() as int;
    let p = pwcs as int;
    let mid = widened(mem, p, s as int, len);
    let post = mid.write_u32(p + 4 * len, 0);
    lemma_nul_index(mem.bytes, s as int);
    lemma_widened_text(mem, p, s as int, len, len);
    lemma_widened(mem, p, s as int, len);
    lemma_le32_roundtrip(mid.bytes, p + 4 * len, 0);
    assert forall|i: int| 0 <= i < len implies #[trigger] post.u32_at(p + 4 * i) == text[i] && text[i]
        != 0 by {
        lemma_le32_frame(mid.bytes, p + 4 * len, le32_bytes(0), p + 4 * i);
        assert(mid.u32_at(p + 4 * i) == mem.bytes[s + i]);
        assert(text[i] == mem.bytes[s + i]);
    }
    lemma_wide_end_is(post, p, len);
    assert(wcstr(post, p) =~= widen(text));
    lemma_utf8_of_ascii(text);
}

/// Where a string is converted to a place of its own, each wide character there is
/// the byte that it comes from, whatever that is, and nothing else changes. There
/// are as many as the string is long, but no more than were asked for.
pub proof fn law_wide_characters_are_the_bytes(
    mem: MemState,
    pwcs: int,
    s: int,
    n: int,
    i: int,
    other: int,
)
    requires
        mem.wf(),
        mem.has_cstr(s),
        n >= 0,
        mem.valid(pwcs, 4 * wide_count(mem, s, n)),
        s + wide_count(mem, s, n) <= pwcs || pwcs + 4 * wide_count(mem, s, n) <= s,
        0 <= i < wide_count(mem, s, n),
        0 <= other < mem.bytes.len(),
        other < pwcs || pwcs + 4 * wide_count(mem, s, n) <= other,
    ensures
        ({
            let count = wide_count(mem, s, n);
            let len = mem.cstr(s).len() as int;
            let post = widened(mem, pwcs, s, count);
            &&& count <= n && count <= len
            &&& count == n || count == len
            &&& post.u32_at(pwcs + 4 * i) == mem.cstr(s)[i]
            &&& post.bytes[other] == mem.bytes[other]
        }),
{
    lemma_nul_index(mem.bytes, s);
    let count = wide_count(mem, s, n);
    lemma_widened_text(mem, pwcs, s, count, count);
    assert(widened(mem, pwcs, s, count).u32_at(pwcs + 4 * i) == mem.bytes[s + i]);
}

/// A wide string is all up to the first zero: where words that are not zero are
/// followed by one that is, those words are the string.
pub proof fn law_wide_string_ends_at_zero(mem: MemState, p: int, text: Seq<u32>)
    requires
        0 <= p,
        mem.null_size <= p,
        p + 4 * text.len() + 4 <= mem.bytes.len(),
        forall|i: int| 0 <= i < text.len() ==> #[trigger] mem.u32_at(p + 4 * i) == text[i] && text[i]
            != 0,
        mem.u32_at(p + 4 * text.len()) == 0,
    ensures
        has_wcstr(mem, p),
        wcstr(mem, p) == text,
{
    lemma_wide_end_is(mem, p, text.len() as int);
    assert(wcstr(mem, p) =~= text);
}

/// Text is encoded character by character, in its order, each as UTF-8 has it.
pub proof fn law_characters_are_encoded_in_order(a: Seq<u32>, b: Seq<u32>, c: u32)
    ensures
        utf8_of(a + b) == utf8_of(a) + utf8_of(b),
        utf8_of(seq![c]) == encode_scalar(c),
        utf8_of(Seq::empty()) == Seq::<u8>::empty(),
    decreases b.len(),
{
    assert(seq![c].drop_last() =~= Seq::empty());
    assert(utf8_of(seq![c].drop_last()) =~= Seq::empty());
    assert(utf8_of(seq![c]) =~= encode_scalar(c));
    if b.len() > 0 {
        law_characters_are_encoded_in_order(a, b.drop_last(), c);
        assert((a + b).drop_last() =~= a + b.drop_last());
        assert(utf8_of(a + b) =~= utf8_of(a) + utf8_of(b));
    } else {
        assert(a + b =~= a);
        assert(utf8_of(a) + utf8_of(b) =~= utf8_of(a));
    }
}

/// A path is its parts in their order, with a slash before each, and a lone slash
/// where there is none.
pub proof fn law_path_is_its_parts(a: Seq<Vec<u8>>, b: Seq<Vec<u8>>, part: Vec<u8>)
    ensures
        absolute_path(Seq::empty()) == seq![0x2fu8],
        absolute_path(seq![part]) == seq![0x2fu8] + part@,
        a.len() > 0 && b.len() > 0 ==> absolute_path(a + b) == absolute_path(a) + absolute_path(b),
    decreases b.len(),
{
    assert(seq![part].drop_last() =~= Seq::empty());
    assert(slashed(seq![part].drop_last()) =~= Seq::empty());
    assert(slashed(seq![part]) =~= seq![0x2fu8] + part@);
    lemma_slashed_joins(a, b);
}

proof fn lemma_slashed_joins(a: Seq<Vec<u8>>, b: Seq<Vec<u8>>)
    ensures
        slashed(a + b) == slashed(a) + slashed(b),
    decreases b.len(),
{
    if b.len() > 0 {
        lemma_slashed_joins(a, b.drop_last());
        assert((a + b).drop_last() =~= a + b.drop_last());
        assert(slashed(a + b) =~= slashed(a) + slashed(b));
    } else {
        assert(a + b =~= a);
        assert(slashed(a) + slashed(b) =~= slashed(a));
    }
}

/// ASCII text is narrowed to the same characters.
pub proof fn law_ascii_is_narrowed(text: Seq<u8>)
    requires
        forall|i: int| 0 <= i < text.len() ==> #[trigger] text[i] < 0x80,
    ensures
        narrow(widen(text)) == text,
{
    assert(narrow(widen(text)) =~= text);
}

/// `mbstowcs` gives how many characters it has converted, each of which is the byte
/// that it comes from, and puts a terminator behind them where there is room. The place
/// that it writes to must not be that of the string.
pub proof fn law_mbstowcs(pwcs: GuestAddr, s: GuestAddr, n: GuestUSize, r: GuestUSize, i: int)
    requires
        n < 0x1000_0000,
    ensures
        forall|x: &mut Environment|
            #[trigger] call_ensures(mbstowcs, (x, pwcs, s, n), r) && x.wf() && x.mem@.has_cstr(
                s as int,
            ) && x.mem@.valid(pwcs as int, 4 * n) && (s + n < pwcs || pwcs + 4 * n <= s) ==> {
                let text = x.mem@.cstr(s as int);
                &&& r == n && n <= text.len() || r == text.len() && text.len() < n
                &&& 0 <= i < r ==> final(x).mem@.u32_at(pwcs + 4 * i) == text[i]
                &&& r < n ==> final(x).mem@.u32_at(pwcs + 4 * r) == 0
                &&& final(x).mem@.live == x.mem@.live
            },
{
    assert forall|x: &mut Environment|
        #[trigger] call_ensures(mbstowcs, (x, pwcs, s, n), r) && x.wf() && x.mem@.has_cstr(s as int)
            && x.mem@.valid(pwcs as int, 4 * n) && (s + n < pwcs || pwcs + 4 * n <= s) implies {
        let text = x.mem@.cstr(s as int);
        &&& r == n && n <= text.len() || r == text.len() && text.len() < n
        &&& 0 <= i < r ==> final(x).mem@.u32_at(pwcs + 4 * i) == text[i]
        &&& r < n ==> final(x).mem@.u32_at(pwcs + 4 * r) == 0
        &&& final(x).mem@.live == x.mem@.live
    } by {
        let mem = x.mem@;
        let p = pwcs as int;
        lemma_nul_index(mem.bytes, s as int);
        lemma_widened_text(mem, p, s as int, r as int, r as int);
        lemma_widened(mem, p, s as int, r as int);
        lemma_widened_keeps_blocks(mem, p, s as int, r as int);
        let mid = widened(mem, p, s as int, r as int);
        if 0 <= i < r {
            assert(mid.u32_at(p + 4 * i) == mem.bytes[s + i]);
            if r < n {
                lemma_le32_frame(mid.bytes, p + 4 * r, le32_bytes(0), p + 4 * i);
            }
        }
        if r < n {
            lemma_le32_roundtrip(mid.bytes, p + 4 * r, 0);
        }
    }
}

proof fn lemma_widened_keeps_blocks(mem: MemState, pwcs: int, s: int, count: int)
    ensures
        widened(mem, pwcs, s, count).live == mem.live,
    decreases count,
{
    if count > 0 {
        lemma_widened_keeps_blocks(mem, pwcs, s, count - 1);
    }
}

/// `wcstombs` writes the text in UTF-8, with a terminator where there is room, and gives
/// its length, and `realpath` writes the parts of the path with a slash before each.
pub proof fn law_texts_are_written(
    s: GuestAddr,
    pwcs: GuestAddr,
    n: GuestUSize,
    r: GuestUSize,
    resolved: Vec<Vec<u8>>,
    name: GuestAddr,
    at: GuestAddr,
)
    requires
        n > 0,
    ensures
        forall|x: &mut Environment|
            #[trigger] call_ensures(wcstombs, (x, s, pwcs, n), r) && x.wf() && utf8_of(
                wcstr(x.mem@, pwcs as int),
            ).len() < n && x.mem@.valid(s as int, n as int) ==> {
                let text = utf8_of(wcstr(x.mem@, pwcs as int));
                &&& r == text.len()
                &&& final(x).mem@.bytes_at(s as int, text.len() as int) == text
                &&& final(x).mem@.bytes[s + r] == 0
            },
        forall|x: &mut Environment|
            #[trigger] call_ensures(realpath, (x, &resolved, name), at) && x.wf() && x.mem@.valid(
                name as int,
                absolute_path(resolved@).len() as int + 1,
            ) ==> {
                let path = absolute_path(resolved@);
                &&& at == name
                &&& final(x).mem@.bytes_at(name as int, path.len() as int) == path
                &&& final(x).mem@.bytes[name + path.len()] == 0
            },
{
    assert forall|x: &mut Environment|
        #[trigger] call_ensures(wcstombs, (x, s, pwcs, n), r) && x.wf() && utf8_of(
            wcstr(x.mem@, pwcs as int),
        ).len() < n && x.mem@.valid(s as int, n as int) implies {
        let text = utf8_of(wcstr(x.mem@, pwcs as int));
        &&& r == text.len()
        &&& final(x).mem@.bytes_at(s as int, text.len() as int) == text
        &&& final(x).mem@.bytes[s + r] == 0
    } by {
        let text = utf8_of(wcstr(x.mem@, pwcs as int));
        assert(final(x).mem@.bytes_at(s as int, text.len() as int) =~= text);
    }
    assert forall|x: &mut Environment|
        #[trigger] call_ensures(realpath, (x, &resolved, name), at) && x.wf() && x.mem@.valid(
            name as int,
            absolute_path(resolved@).len() as int + 1,
        ) implies {
        let path = absolute_path(resolved@);
        &&& at == name
        &&& final(x).mem@.bytes_at(name as int, path.len() as int) == path
        &&& final(x).mem@.bytes[name + path.len()] == 0
    } by {
        let path = absolute_path(resolved@);
        assert(final(x).mem@.bytes_at(name as int, path.len() as int) =~= path);
    }
}

} // verus!
