//! Deep-link launch: a `touchhle://run?app=NAME` URL (e.g. opened by an iOS
//! Shortcut's "Open URL" action) requests launching a specific installed app
//! inside the emulator. Such URLs come as if they were dropped files.
use vstd::prelude::*;
use vstd::string::*;
use vstd::utf8::{decode_utf8, encode_utf8, is_ascii_chars_encode_utf8, valid_utf8};

verus! {

/// Where `s` has `c` first, or its length where it has none.
pub open spec fn index_of_byte(s: Seq<u8>, c: u8) -> int
    decreases s.len(),
{
    if s.len() == 0 {
        0
    } else if s[0] == c {
        0
    } else {
        1 + index_of_byte(s.skip(1), c)
    }
}

pub open spec fn starts_with(s: Seq<u8>, prefix: Seq<u8>) -> bool {
    s.len() >= prefix.len() && s.take(prefix.len() as int) == prefix
}

/// The value of the first parameter `app=` in a query, whose parameters stand
/// between ampersands.
pub open spec fn app_param(query: Seq<u8>) -> Option<Seq<u8>>
    decreases query.len(),
{
    let end = index_of_byte(query, 0x26);
    if starts_with(query.take(end), "app=".spec_bytes()) {
        Some(query.take(end).skip("app=".spec_bytes().len() as int))
    } else if 0 <= end < query.len() {
        app_param(query.skip(end + 1))
    } else {
        None
    }
}

/// The value of a hexadecimal digit.
pub open spec fn hex_value(c: u8) -> Option<u8> {
    if 0x30 <= c <= 0x39 {
        Some((c - 0x30) as u8)
    } else if 0x61 <= c <= 0x66 {
        Some((c - 0x61 + 10) as u8)
    } else if 0x41 <= c <= 0x46 {
        Some((c - 0x41 + 10) as u8)
    } else {
        None
    }
}

/// Whether `s` starts with a percent sign and two hexadecimal digits.
pub open spec fn is_escape(s: Seq<u8>) -> bool {
    s.len() > 2 && s[0] == 0x25 && hex_value(s[1]) is Some && hex_value(s[2]) is Some
}

/// The bytes that `s` stands for, with `%XX` and `+` decoded.
pub open spec fn unescaped(s: Seq<u8>) -> Seq<u8>
    decreases s.len(),
{
    if s.len() == 0 {
        seq![]
    } else if is_escape(s) {
        seq![(hex_value(s[1])->0 * 16 + hex_value(s[2])->0) as u8] + unescaped(s.skip(3))
    } else if s[0] == 0x2b {
        seq![0x20u8] + unescaped(s.skip(1))
    } else {
        seq![s[0]] + unescaped(s.skip(1))
    }
}

/// The text that bytes stand for, as `String::from_utf8_lossy` has it: what is
/// not valid UTF-8 is replaced.
pub uninterp spec fn lossy_text(bytes: Seq<u8>) -> Seq<char>;

/// Calls `String::from_utf8_lossy`. Valid UTF-8 stands for just the text that it
/// encodes; for what else becomes of bytes there is only a name.
#[verifier::external_body]
fn to_lossy_text(bytes: &Vec<u8>) -> (r: String)
    ensures
        r@ == lossy_text(bytes@),
        valid_utf8(bytes@) ==> r@ == decode_utf8(bytes@),
{
    String::from_utf8_lossy(bytes).into_owned()
}

/// The text that bytes stand for: what they encode where they are valid UTF-8.
pub open spec fn text_of(bytes: Seq<u8>) -> Seq<char> {
    if valid_utf8(bytes) {
        decode_utf8(bytes)
    } else {
        lossy_text(bytes)
    }
}

/// The bytes of the app's name in a `touchhle://run?app=<percent-encoded name>`
/// URL; none for anything else.
pub open spec fn linked_app(url: Seq<u8>) -> Option<Seq<u8>> {
    let run = "touchhle://run?".spec_bytes();
    if starts_with(url, run) {
        match app_param(url.skip(run.len() as int)) {
            Some(value) => Some(unescaped(value)),
            None => None,
        }
    } else {
        None
    }
}

/// The app that is requested after `url` was opened.
pub open spec fn requested_after(requested: Option<Seq<char>>, url: Seq<char>) -> Option<Seq<char>> {
    match linked_app(encode_utf8(url)) {
        Some(name) => Some(text_of(name)),
        None => requested,
    }
}

pub proof fn lemma_index_of_byte(s: Seq<u8>, c: u8)
    ensures
        0 <= index_of_byte(s, c) <= s.len(),
        index_of_byte(s, c) < s.len() ==> s[index_of_byte(s, c)] == c,
        forall|i: int| 0 <= i < index_of_byte(s, c) ==> s[i] != c,
    decreases s.len(),
{
    if s.len() > 0 && s[0] != c {
        lemma_index_of_byte(s.skip(1), c);
        assert forall|i: int| 0 <= i < index_of_byte(s, c) implies s[i] != c by {
            if i > 0 {
                assert(s.skip(1)[i - 1] == s[i]);
            }
        }
    }
}

fn find_byte(s: &Vec<u8>, c: u8) -> (r: usize)
    ensures
        r == index_of_byte(s@, c),
        r <= s@.len(),
{
    let mut i: usize = 0;
    assert(s@.skip(0) =~= s@);
    while i < s.len()
        invariant
            i <= s@.len(),
            index_of_byte(s@, c) == i + index_of_byte(s@.skip(i as int), c),
        decreases s@.len() - i,
    {
        if s[i] == c {
            return i;
        }
        assert(s@.skip(i as int).skip(1) =~= s@.skip(i + 1));
        i += 1;
    }
    i
}

/// The part of `s` from `from` up to `to`.
fn part(s: &Vec<u8>, from: usize, to: usize) -> (r: Vec<u8>)
    requires
        from <= to <= s@.len(),
    ensures
        r@ == s@.subrange(from as int, to as int),
{
    let mut r: Vec<u8> = Vec::new();
    r.extend_from_slice(&s[from..to]);
    assert(r@ =~= s@.subrange(from as int, to as int));
    r
}

/// What is behind `prefix` in `s`, if it starts with that.
fn strip_prefix(s: &Vec<u8>, prefix: &str) -> (r: Option<Vec<u8>>)
    ensures
        match r {
            Some(rest) => {
                &&& starts_with(s@, prefix.spec_bytes())
                &&& rest@ == s@.skip(prefix.spec_bytes().len() as int)
            },
            None => !starts_with(s@, prefix.spec_bytes()),
        },
{
    let p = prefix.as_bytes();
    if s.len() < p.len() {
        return None;
    }
    let mut i: usize = 0;
    while i < p.len()
        invariant
            i <= p@.len() <= s@.len(),
            p@ == prefix.spec_bytes(),
            forall|j: int| 0 <= j < i ==> s@[j] == p@[j],
        decreases p@.len() - i,
    {
        if s[i] != p[i] {
            assert(s@.take(p@.len() as int)[i as int] != p@[i as int]);
            return None;
        }
        i += 1;
    }
    assert(s@.take(p@.len() as int) =~= p@);
    let rest: Vec<u8> = part(s, i, s.len());
    assert(rest@ =~= s@.skip(p@.len() as int));
    Some(rest)
}

fn to_hex_value(c: u8) -> (r: Option<u8>)
    ensures
        r == hex_value(c),
{
    if 0x30 <= c && c <= 0x39 {
        Some(c - 0x30)
    } else if 0x61 <= c && c <= 0x66 {
        Some(c - 0x61 + 10)
    } else if 0x41 <= c && c <= 0x46 {
        Some(c - 0x41 + 10)
    } else {
        None
    }
}

/// Minimal percent-decoding for deep-link query values (handles `%XX` and `+`),
/// down to bytes.
pub fn unescape(b: &Vec<u8>) -> (out: Vec<u8>)
    ensures
        out@ == unescaped(b@),
{
    let mut out: Vec<u8> = Vec::new();
    let mut i: usize = 0;
    assert(b@.skip(0) =~= b@);
    assert(out@ + unescaped(b@) =~= unescaped(b@));
    while i < b.len()
        invariant
            i <= b@.len(),
            out@ + unescaped(b@.skip(i as int)) == unescaped(b@),
        decreases b@.len() - i,
    {
        let ghost rest = b@.skip(i as int);
        let ghost before = out@;
        let c: u8 = b[i];
        if c == 0x25 && b.len() - i > 2 {
            assert(rest[1] == b@[i + 1] && rest[2] == b@[i + 2]);
            if let (Some(hi), Some(lo)) = (to_hex_value(b[i + 1]), to_hex_value(b[i + 2])) {
                out.push(hi * 16 + lo);
                proof {
                    assert(rest.skip(3) =~= b@.skip(i + 3));
                    assert(out@ + unescaped(b@.skip(i + 3)) =~= before + unescaped(rest));
                }
                i += 3;
                continue;
            }
        }
        if c == 0x2b {
            out.push(0x20);
        } else {
            out.push(c);
        }
        proof {
            assert(rest.skip(1) =~= b@.skip(i + 1));
            assert(out@ + unescaped(b@.skip(i + 1)) =~= before + unescaped(rest));
        }
        i += 1;
    }
    assert(b@.skip(i as int) =~= seq![]);
    assert(out@ =~= unescaped(b@));
    out
}

/// The bytes of the app's name in a deep link; none for anything else.
pub fn parse_deeplink(url: &Vec<u8>) -> (r: Option<Vec<u8>>)
    ensures
        match r {
            Some(name) => linked_app(url@) == Some(name@),
            None => linked_app(url@) is None,
        },
{
    let mut query: Vec<u8> = match strip_prefix(url, "touchhle://run?") {
        Some(query) => query,
        None => {
            return None;
        },
    };
    // `query` is e.g. "app=JellyCar2.app"
    let ghost whole = query@;
    loop
        invariant
            starts_with(url@, "touchhle://run?".spec_bytes()),
            whole == url@.skip("touchhle://run?".spec_bytes().len() as int),
            app_param(query@) == app_param(whole),
        decreases query@.len(),
    {
        let end: usize = find_byte(&query, 0x26);
        let kv: Vec<u8> = part(&query, 0, end);
        assert(kv@ =~= query@.take(end as int));
        if let Some(value) = strip_prefix(&kv, "app=") {
            return Some(unescape(&value));
        }
        if end >= query.len() {
            return None;
        }
        let next: Vec<u8> = part(&query, end + 1, query.len());
        assert(next@ =~= query@.skip(end + 1));
        query = next;
    }
}

/// The app that a link asked for, until it is launched.
pub struct LaunchRequests {
    app: Option<String>,
}

impl View for LaunchRequests {
    type V = Option<Seq<char>>;

    closed spec fn view(&self) -> Option<Seq<char>> {
        match self.app {
            Some(name) => Some(name@),
            None => None,
        }
    }
}

impl LaunchRequests {
    pub fn new() -> (r: LaunchRequests)
        ensures
            r@ is None,
    {
        LaunchRequests { app: None }
    }

    /// Parse a `touchhle://run?app=<percent-encoded name>` URL and record the
    /// requested app name. No-op for anything else (e.g. a real dropped file path
    /// on desktop), so it is safe to call for every dropped file.
    pub fn handle_possible_deeplink(&mut self, s: &str)
        ensures
            final(self)@ == requested_after(old(self)@, s@),
            linked_app(encode_utf8(s@)) matches Some(name) ==> valid_utf8(name) ==> final(self)@
                == Some(decode_utf8(name)),
    {
        let url: Vec<u8> = s.as_bytes_vec();
        if let Some(name) = parse_deeplink(&url) {
            self.app = Some(to_lossy_text(&name));
        }
    }
}

/// Take the app name requested via a `touchhle://run?app=` deep link, if any.
pub fn ios_take_requested_launch(requests: &mut LaunchRequests) -> (r: Option<String>)
    ensures
        match r {
            Some(name) => old(requests)@ == Some(name@),
            None => old(requests)@ is None,
        },
        final(requests)@ is None,
{
    requests.app.take()
}

/// Minimal percent-decoding for deep-link query values (handles `%XX` and `+`).
pub fn percent_decode(s: &str) -> (r: String)
    ensures
        r@ == text_of(unescaped(s.spec_bytes())),
{
    let out: Vec<u8> = unescape(&s.as_bytes_vec());
    to_lossy_text(&out)
}

/// Text without percent signs and pluses stands for itself.
pub proof fn law_plain_text_is_kept(s: Seq<u8>)
    requires
        forall|i: int| 0 <= i < s.len() ==> s[i] != 0x25 && s[i] != 0x2b,
    ensures
        unescaped(s) == s,
    decreases s.len(),
{
    if s.len() > 0 {
        assert forall|i: int| 0 <= i < s.skip(1).len() implies s.skip(1)[i] != 0x25 && s.skip(1)[i]
            != 0x2b by {
            assert(s.skip(1)[i] == s[i + 1]);
        }
        law_plain_text_is_kept(s.skip(1));
        assert(seq![s[0]] + s.skip(1) =~= s);
    } else {
        assert(unescaped(s) =~= s);
    }
}

/// A hexadecimal digit.
pub open spec fn hex_digit(v: int) -> u8 {
    if v < 10 {
        (0x30 + v) as u8
    } else {
        (0x41 + v - 10) as u8
    }
}

/// `s` with every byte percent-encoded.
pub open spec fn escaped(s: Seq<u8>) -> Seq<u8>
    decreases s.len(),
{
    if s.len() == 0 {
        seq![]
    } else {
        seq![0x25u8, hex_digit(s[0] as int / 16), hex_digit(s[0] as int % 16)] + escaped(s.skip(1))
    }
}

/// Decoding undoes percent-encoding.
pub proof fn law_decode_undoes_encode(s: Seq<u8>)
    ensures
        unescaped(escaped(s)) == s,
    decreases s.len(),
{
    if s.len() > 0 {
        law_decode_undoes_encode(s.skip(1));
        let e = escaped(s);
        assert(e.skip(3) =~= escaped(s.skip(1)));
        let hi = s[0] as int / 16;
        let lo = s[0] as int % 16;
        assert(hex_value(hex_digit(hi)) == Some(hi as u8));
        assert(hex_value(hex_digit(lo)) == Some(lo as u8));
        assert(e[1] == hex_digit(hi) && e[2] == hex_digit(lo));
        assert(seq![s[0]] + s.skip(1) =~= s);
    } else {
        assert(unescaped(escaped(s)) =~= s);
    }
}

/// Percent-encoded text has no ampersands.
proof fn lemma_escaped_has_no_ampersand(s: Seq<u8>)
    ensures
        forall|i: int| 0 <= i < escaped(s).len() ==> #[trigger] escaped(s)[i] != 0x26,
    decreases s.len(),
{
    if s.len() > 0 {
        lemma_escaped_has_no_ampersand(s.skip(1));
        let head = seq![0x25u8, hex_digit(s[0] as int / 16), hex_digit(s[0] as int % 16)];
        assert forall|i: int| 0 <= i < escaped(s).len() implies #[trigger] escaped(s)[i] != 0x26 by {
            if i >= 3 {
                assert(escaped(s)[i] == escaped(s.skip(1))[i - 3]);
            } else {
                assert(escaped(s)[i] == head[i]);
            }
        }
    }
}

/// Where a byte first is, given where it is and that it is not before that.
proof fn lemma_index_is(s: Seq<u8>, c: u8, n: int)
    requires
        0 <= n <= s.len(),
        n < s.len() ==> s[n] == c,
        forall|i: int| 0 <= i < n ==> s[i] != c,
    ensures
        index_of_byte(s, c) == n,
{
    lemma_index_of_byte(s, c);
}

/// A link with a percent-encoded name requests the app of that name.
pub proof fn law_link_requests_its_app(name: Seq<u8>)
    ensures
        linked_app("touchhle://run?app=".spec_bytes() + escaped(name)) == Some(name),
{
    reveal_strlit("touchhle://run?app=");
    reveal_strlit("touchhle://run?");
    reveal_strlit("app=");
    is_ascii_chars_encode_utf8("touchhle://run?app="@);
    is_ascii_chars_encode_utf8("touchhle://run?"@);
    is_ascii_chars_encode_utf8("app="@);
    let start = "touchhle://run?app=".spec_bytes();
    let run = "touchhle://run?".spec_bytes();
    let key = "app=".spec_bytes();
    let e = escaped(name);
    let url = start + e;
    assert(start.len() == 19 && run.len() == 15 && key.len() == 4);
    assert(url.take(15) =~= run);
    let query = url.skip(15);
    assert(query =~= key + e);
    lemma_escaped_has_no_ampersand(name);
    assert forall|i: int| 0 <= i < query.len() implies query[i] != 0x26 by {
        if i >= 4 {
            assert(query[i] == e[i - 4]);
        }
    }
    lemma_index_is(query, 0x26, query.len() as int);
    assert(query.take(query.len() as int) =~= query);
    assert(query.take(4) =~= key);
    assert(query.skip(4) =~= e);
    law_decode_undoes_encode(name);
}

/// Nothing but a `touchhle://run?` link requests an app.
pub proof fn law_other_links_are_ignored(url: Seq<u8>)
    requires
        !starts_with(url, "touchhle://run?".spec_bytes()),
    ensures
        linked_app(url) is None,
{
}

/// Whether `c` is a hexadecimal digit, in either case, with the value `v`.
pub open spec fn stands_for_hex(c: u8, v: int) -> bool {
    ||| 0 <= v < 10 && c == 0x30 + v
    ||| 10 <= v < 16 && c == 0x61 + v - 10
    ||| 10 <= v < 16 && c == 0x41 + v - 10
}

/// Text is decoded from its start on, whatever follows: a percent sign with two
/// hexadecimal digits, in either case, is the byte that they stand for; a plus is a
/// space; and any other character is itself, a percent sign without two digits among
/// them.
pub proof fn law_text_is_decoded_in_order(c: u8, hi: u8, lo: u8, high: int, low: int, rest: Seq<u8>)
    ensures
        c != 0x25 && c != 0x2b ==> unescaped(seq![c] + rest) == seq![c] + unescaped(rest),
        unescaped(seq![0x2bu8] + rest) == seq![0x20u8] + unescaped(rest),
        stands_for_hex(hi, high) && stands_for_hex(lo, low) ==> unescaped(
            seq![0x25u8, hi, lo] + rest,
        ) == seq![(high * 16 + low) as u8] + unescaped(rest),
        (forall|v: int| !#[trigger] stands_for_hex(hi, v)) || (forall|v: int|
            !#[trigger] stands_for_hex(lo, v)) ==> unescaped(seq![0x25u8, hi, lo] + rest)
            == seq![0x25u8] + unescaped(seq![hi, lo] + rest),
        unescaped(Seq::empty()) == Seq::<u8>::empty(),
        unescaped(seq![0x25u8]) == seq![0x25u8],
        unescaped(seq![0x25u8, hi]) == seq![0x25u8] + unescaped(seq![hi]),
{
    assert((seq![c] + rest).skip(1) =~= rest);
    assert((seq![0x2bu8] + rest).skip(1) =~= rest);
    let escape = seq![0x25u8, hi, lo] + rest;
    assert(escape[0] == 0x25 && escape[1] == hi && escape[2] == lo);
    assert(escape.skip(3) =~= rest);
    assert(escape.skip(1) =~= seq![hi, lo] + rest);
    assert(hex_value(hi) is Some ==> stands_for_hex(hi, hex_value(hi)->0 as int));
    assert(hex_value(lo) is Some ==> stands_for_hex(lo, hex_value(lo)->0 as int));
    assert(seq![0x25u8].skip(1) =~= Seq::empty());
    assert(unescaped(seq![0x25u8].skip(1)) =~= Seq::empty());
    assert(seq![0x25u8] + Seq::<u8>::empty() =~= seq![0x25u8]);
    assert(seq![0x25u8, hi].skip(1) =~= seq![hi]);
}

/// The parameters of a query are looked at in their order, and the first that is
/// called `app` counts: its value is all behind the equals sign, up to the next
/// ampersand or the end. Any other is passed over.
pub proof fn law_first_app_parameter_counts(param: Seq<u8>, rest: Seq<u8>)
    requires
        forall|i: int| 0 <= i < param.len() ==> #[trigger] param[i] != 0x26,
    ensures
        ({
            let named = param.len() >= 4 && param[0] == 0x61 && param[1] == 0x70 && param[2] == 0x70
                && param[3] == 0x3d;
            &&& app_param(param + seq![0x26u8] + rest) == if named {
                Some(param.skip(4))
            } else {
                app_param(rest)
            }
            &&& app_param(param) == if named {
                Some(param.skip(4))
            } else {
                None
            }
        }),
{
    reveal_strlit("app=");
    is_ascii_chars_encode_utf8("app="@);
    let key = "app=".spec_bytes();
    assert(key.len() == 4 && key[0] == 0x61 && key[1] == 0x70 && key[2] == 0x70 && key[3] == 0x3d);
    let named = param.len() >= 4 && param[0] == 0x61 && param[1] == 0x70 && param[2] == 0x70
        && param[3] == 0x3d;
    if named {
        assert(param.take(4) =~= key);
    } else if param.len() >= 4 && param.take(4) == key {
        assert(param.take(4)[0] == param[0] && param.take(4)[1] == param[1]);
        assert(param.take(4)[2] == param[2] && param.take(4)[3] == param[3]);
    }
    let query = param + seq![0x26u8] + rest;
    let n = param.len() as int;
    assert forall|i: int| 0 <= i < n implies query[i] != 0x26 by {
        assert(query[i] == param[i]);
    }
    assert(query[n] == 0x26);
    lemma_index_is(query, 0x26, n);
    assert(query.take(n) =~= param);
    assert(query.skip(n + 1) =~= rest);
    lemma_index_is(param, 0x26, n);
    assert(param.take(n) =~= param);
}

/// A link's query is all behind its question mark, and the app that it asks for is
/// the decoded value of its parameter. What was requested before stays until a link
/// asks for another app.
pub proof fn law_link_is_read(query: Seq<u8>, url: Seq<char>, requested: Option<Seq<char>>)
    ensures
        linked_app("touchhle://run?".spec_bytes() + query) == match app_param(query) {
            Some(value) => Some(unescaped(value)),
            None => None,
        },
        encode_utf8(url) == "touchhle://run?".spec_bytes() + query ==> requested_after(
            requested,
            url,
        ) == match app_param(query) {
            Some(value) => if valid_utf8(unescaped(value)) {
                Some(decode_utf8(unescaped(value)))
            } else {
                Some(lossy_text(unescaped(value)))
            },
            None => requested,
        },
        linked_app(encode_utf8(url)) is None ==> requested_after(requested, url) == requested,
{
    let run = "touchhle://run?".spec_bytes();
    assert((run + query).take(run.len() as int) =~= run);
    assert((run + query).skip(run.len() as int) =~= query);
}

/// Opening a link requests the app that its parameter names, decoded, and opening
/// anything else requests nothing. A request is there until it is taken, and then gone.
pub proof fn law_requests_are_taken_once(url: &str, taken: Option<String>)
    ensures
        forall|requests: &mut LaunchRequests|
            #[trigger] call_ensures(
                LaunchRequests::handle_possible_deeplink,
                (requests, url),
                (),
            ) ==> {
                &&& !starts_with(encode_utf8(url@), "touchhle://run?".spec_bytes()) ==> final(requests)@ == requests@
                &&& final(requests)@ == requested_after(requests@, url@)
            },
        forall|requests: &mut LaunchRequests|
            #[trigger] call_ensures(ios_take_requested_launch, (requests,), taken) ==> {
                &&& final(requests)@ is None
                &&& taken is Some <==> requests@ is Some
                &&& taken is Some ==> requests@ == Some(taken->Some_0@)
            },
{
}

} // verus!
