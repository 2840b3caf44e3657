//! zlib's `gz*` file API (`gzopen`, `gzread`, ...).
//!
//! On iOS these are exported by libSystem (which re-exports libz). Games use
//! them to read gzip-compressed asset files. A file is read fully, gunzipped
//! with `flate2` if it has a gzip header (otherwise the bytes pass through, to
//! match zlib's transparent handling of uncompressed files), then served from a
//! host-side cursor.
use crate::environment::{Environment, LibcState};
use crate::mem::{takes_block, GuestAddr, GuestUSize, MemState, NULL};
use std::collections::HashMap;
use std::io::Read;
use vstd::prelude::*;

verus! {

broadcast use vstd::std_specs::hash::group_hash_axioms;

pub const SEEK_SET: i32 = 0;
pub const SEEK_CUR: i32 = 1;
pub const SEEK_END: i32 = 2;

/// How much of a guest file is read at a time.
pub const CHUNK: GuestUSize = 0x4000;

/// What can be observed of an open file.
#[verifier::ext_equal]
pub struct GzView {
    pub data: Seq<u8>,
    pub pos: int,
    pub direct: bool,
}

/// An open file.
pub struct GzStream {
    pub data: Vec<u8>,
    pub pos: usize,
    /// True if the file was read uncompressed (not gzip): zlib's `gzdirect`.
    pub direct: bool,
}

impl View for GzStream {
    type V = GzView;

    open spec fn view(&self) -> GzView {
        GzView { data: self.data@, pos: self.pos as int, direct: self.direct }
    }
}

impl GzView {
    /// The cursor is in the file.
    pub open spec fn wf(self) -> bool {
        0 <= self.pos <= self.data.len()
    }

    pub open spec fn rest(self) -> Seq<u8> {
        self.data.skip(self.pos)
    }

    pub open spec fn at(self, pos: int) -> GzView {
        GzView { pos, ..self }
    }

    /// How many bytes a read of `len` gives.
    pub open spec fn read_len(self, len: int) -> int {
        if len < self.data.len() - self.pos {
            len
        } else {
            self.data.len() - self.pos
        }
    }

    /// The bytes that a read of `len` gives.
    pub open spec fn read_bytes(self, len: int) -> Seq<u8> {
        self.data.subrange(self.pos, self.pos + self.read_len(len))
    }

    pub open spec fn after_read(self, len: int) -> GzView {
        self.at(self.pos + self.read_len(len))
    }

    /// The position to which a seek goes, if it is in the file.
    pub open spec fn seek_target(self, offset: int, whence: i32) -> Option<int> {
        let base = if whence == SEEK_SET {
            0
        } else if whence == SEEK_CUR {
            self.pos
        } else {
            self.data.len() as int
        };
        if SEEK_SET <= whence <= SEEK_END && 0 <= base + offset <= self.data.len() {
            Some(base + offset)
        } else {
            None
        }
    }
}

/// The length of the line at the start of `s`, its newline with it, at most
/// `max`.
pub open spec fn line_len(s: Seq<u8>, max: int) -> int
    decreases s.len(),
{
    if s.len() == 0 || max <= 0 {
        0
    } else if s[0] == 0x0a {
        1
    } else {
        1 + line_len(s.skip(1), max - 1)
    }
}

/// The open files, by handle.
pub struct State {
    streams: HashMap<GuestAddr, GzStream>,
}

impl View for State {
    type V = Map<GuestAddr, GzView>;

    closed spec fn view(&self) -> Map<GuestAddr, GzView> {
        self.streams@.map_values(|s: GzStream| s@)
    }
}

impl Default for State {
    fn default() -> (r: State)
        ensures
            r@ == Map::<GuestAddr, GzView>::empty(),
            r.wf(),
    {
        let r = State { streams: HashMap::new() };
        assert(r@ =~= Map::<GuestAddr, GzView>::empty());
        r
    }
}

impl State {
    /// Every cursor is in its file.
    pub open spec fn wf(&self) -> bool {
        forall|h: GuestAddr| #[trigger] self@.contains_key(h) ==> self@[h].wf()
    }

    fn get(&self, file: GuestAddr) -> (r: Option<&GzStream>)
        ensures
            match r {
                Some(s) => self@.contains_key(file) && s@ == self@[file],
                None => !self@.contains_key(file),
            },
    {
        self.streams.get(&file)
    }

    fn insert(&mut self, file: GuestAddr, stream: GzStream)
        ensures
            final(self)@ == old(self)@.insert(file, stream@),
    {
        self.streams.insert(file, stream);
        assert(self@ =~= old(self)@.insert(file, stream@));
    }

    fn remove(&mut self, file: GuestAddr) -> (r: Option<GzStream>)
        ensures
            match r {
                Some(s) => old(self)@.contains_key(file) && s@ == old(self)@[file],
                None => !old(self)@.contains_key(file),
            },
            final(self)@ == old(self)@.remove(file),
    {
        let r = self.streams.remove(&file);
        assert(self@ =~= old(self)@.remove(file));
        r
    }
}

/// The environment `pre` with other memory and other open files.
pub open spec fn with_files(pre: Environment, post: Environment) -> Environment {
    Environment {
        mem: post.mem,
        libc_state: LibcState { zlib: post.libc_state.zlib, ..pre.libc_state },
        ..pre
    }
}

/// The read of a whole guest file under way, through a buffer on the guest's
/// heap.
pub struct WholeFileRead {
    tmp: GuestAddr,
    raw: Vec<u8>,
}

impl WholeFileRead {
    pub closed spec fn tmp(&self) -> GuestAddr {
        self.tmp
    }

    pub closed spec fn raw(&self) -> Seq<u8> {
        self.raw@
    }

    /// Takes the buffer.
    pub fn start(env: &mut Environment) -> (r: WholeFileRead)
        requires
            old(env).wf(),
            old(env).mem@.has_room(CHUNK as int, false),
        ensures
            final(env).wf(),
            takes_block(old(env).mem@, final(env).mem@, r.tmp(), CHUNK as int, false),
            r.raw() == Seq::<u8>::empty(),
            *final(env) == (Environment { mem: final(env).mem, ..*old(env) }),
    {
        let tmp: u32 = env.mem.malloc(CHUNK);
        WholeFileRead { tmp, raw: Vec::new() }
    }

    /// The buffer, for up to [CHUNK] bytes.
    pub fn buffer(&self) -> (r: GuestAddr)
        ensures
            r == self.tmp(),
    {
        self.tmp
    }

    /// Takes the `n` bytes that a read put into the buffer. Returns whether
    /// there may be more: a read of nothing, or one that failed, was the last.
    pub fn chunk_read(&mut self, env: &Environment, n: i32) -> (more: bool)
        requires
            env.wf(),
            n <= CHUNK,
            env.mem@.valid(old(self).tmp() as int, CHUNK as int),
        ensures
            more == (n > 0),
            final(self).tmp() == old(self).tmp(),
            final(self).raw() == if n > 0 {
                old(self).raw() + env.mem@.bytes_at(old(self).tmp() as int, n as int)
            } else {
                old(self).raw()
            },
    {
        if n <= 0 {
            return false;
        }
        let chunk: Vec<u8> = env.mem.bytes_at(self.tmp, n as u32);
        self.raw.extend_from_slice(chunk.as_slice());
        assert(self.raw@ =~= old(self).raw@ + chunk@);
        true
    }

    /// Gives the buffer back, and returns what was read.
    pub fn finish(self, env: &mut Environment) -> (r: Vec<u8>)
        requires
            old(env).wf(),
            old(env).mem@.live.contains_key(self.tmp()),
        ensures
            final(env).wf(),
            r@ == self.raw(),
            final(env).mem@ == old(env).mem@.without_block(self.tmp()),
            *final(env) == (Environment { mem: final(env).mem, ..*old(env) }),
    {
        env.mem.free(self.tmp);
        self.raw
    }
}

/// What a gzip file holds, as `flate2` decodes it; none where that fails.
pub uninterp spec fn gunzip(raw: Seq<u8>) -> Option<Seq<u8>>;

/// Decodes a gzip file by reading `flate2::read::GzDecoder` to its end. The
/// result, or that there is none, depends on the bytes alone.
#[verifier::external_body]
fn gunzip_bytes(raw: &Vec<u8>) -> (r: Option<Vec<u8>>)
    ensures
        match r {
            Some(out) => gunzip(raw@) == Some(out@),
            None => gunzip(raw@) is None,
        },
{
    let mut out = Vec::new();
    match flate2::read::GzDecoder::new(&raw[..]).read_to_end(&mut out) {
        Ok(_) => Some(out),
        Err(_) => None,
    }
}

/// Whether a file starts as gzip files do.
pub open spec fn has_gzip_header(raw: Seq<u8>) -> bool {
    raw.len() >= 2 && raw[0] == 0x1f && raw[1] == 0x8b
}

/// A file as it is when it has just been opened, given what decoding it gave.
pub open spec fn opened(raw: Seq<u8>, decoded: Option<Seq<u8>>) -> GzView {
    match decoded {
        Some(data) if has_gzip_header(raw) => GzView { data, pos: 0, direct: false },
        _ => GzView { data: raw, pos: 0, direct: true },
    }
}

pub fn is_gzip(raw: &Vec<u8>) -> (r: bool)
    ensures
        r == has_gzip_header(raw@),
{
    raw.len() >= 2 && raw[0] == 0x1f && raw[1] == 0x8b
}

/// Opens a file that decoded to `decoded`: a file without a gzip header, or one
/// that cannot be decoded, is taken as it is.
pub fn open_stream(raw: Vec<u8>, decoded: Option<Vec<u8>>) -> (r: GzStream)
    ensures
        r@ == opened(
            raw@,
            match decoded {
                Some(d) => Some(d@),
                None => None,
            },
        ),
{
    let gzip: bool = is_gzip(&raw);
    match decoded {
        Some(data) => {
            if gzip {
                GzStream { data, pos: 0, direct: false }
            } else {
                GzStream { data: raw, pos: 0, direct: true }
            }
        },
        None => GzStream { data: raw, pos: 0, direct: true },
    }
}

/// Opens a file with the contents `raw`, if there is one, and returns a handle.
pub fn gzopen(env: &mut Environment, raw: Option<Vec<u8>>) -> (r: GuestAddr)
    requires
        old(env).wf(),
        raw is Some ==> old(env).mem@.has_room(1, false),
    ensures
        final(env).wf(),
        match raw {
            None => r == NULL && *final(env) == *old(env),
            Some(raw) => {
                &&& takes_block(old(env).mem@, final(env).mem@, r, 1, false)
                &&& final(env).libc_state.zlib@ == old(env).libc_state.zlib@.insert(
                    r,
                    opened(raw@, gunzip(raw@)),
                )
                &&& *final(env) == with_files(*old(env), *final(env))
            },
        },
{
    match raw {
        None => NULL,
        Some(raw) => {
            let decoded: Option<Vec<u8>> = if is_gzip(&raw) {
                gunzip_bytes(&raw)
            } else {
                None
            };
            let stream = open_stream(raw, decoded);
            let handle: u32 = env.mem.malloc(1);
            env.libc_state.zlib.insert(handle, stream);
            handle
        },
    }
}

/// Whether the file was read uncompressed.
pub fn gzdirect(env: &Environment, file: GuestAddr) -> (r: i32)
    ensures
        r == if env.libc_state.zlib@.contains_key(file) && env.libc_state.zlib@[file].direct {
            1int
        } else {
            0
        },
{
    match env.libc_state.zlib.get(file) {
        Some(s) => if s.direct {
            1
        } else {
            0
        },
        None => 0,
    }
}

/// A count as the guest's `int` has it.
pub open spec fn as_int(n: int) -> int {
    if n > i32::MAX {
        n - 0x1_0000_0000
    } else {
        n
    }
}

pub fn gzread(env: &mut Environment, file: GuestAddr, buf: GuestAddr, len: GuestUSize) -> (r: i32)
    requires
        old(env).wf(),
        old(env).libc_state.zlib@.contains_key(file) ==> {
            let n = old(env).libc_state.zlib@[file].read_len(len as int);
            n > 0 ==> old(env).mem@.valid(buf as int, n)
        },
    ensures
        final(env).wf(),
        if old(env).libc_state.zlib@.contains_key(file) {
            let s = old(env).libc_state.zlib@[file];
            &&& r == as_int(s.read_len(len as int))
            &&& final(env).libc_state.zlib@ == old(env).libc_state.zlib@.insert(
                file,
                s.after_read(len as int),
            )
            &&& final(env).mem@ == old(env).mem@.write(buf as int, s.read_bytes(len as int))
            &&& *final(env) == with_files(*old(env), *final(env))
        } else {
            r == -1 && *final(env) == *old(env)
        },
{
    if env.libc_state.zlib.get(file).is_none() {
        return -1;
    }
    match env.libc_state.zlib.remove(file) {
        None => -1,
        Some(mut s) => {
            let remaining: usize = s.data.len() - s.pos;
            let n: usize = if (len as usize) < remaining {
                len as usize
            } else {
                remaining
            };
            let end: usize = s.pos + n;
            let mut chunk: Vec<u8> = Vec::new();
            chunk.extend_from_slice(&s.data[s.pos..end]);
            assert(chunk@ =~= s@.read_bytes(len as int));
            s.pos = end;
            env.libc_state.zlib.insert(file, s);
            assert(env.libc_state.zlib@ =~= old(env).libc_state.zlib@.insert(file, s@));
            if chunk.len() > 0 {
                env.mem.write_bytes(buf, &chunk);
            } else {
                assert(env.mem@ =~= env.mem@.write(buf as int, chunk@));
            }
            if n <= 0x7fff_ffff {
                n as i32
            } else {
                (n as i64 - 0x1_0000_0000) as i32
            }
        },
    }
}

/// The line that `gzgets` reads next, given a buffer of `len` bytes.
pub open spec fn next_line(s: GzView, len: i32) -> Seq<u8> {
    s.rest().take(line_len(s.rest(), len - 1))
}

/// Reads a line, its newline with it, or as much of one as fits, and terminates
/// it. Null is returned at the end of the file.
pub fn gzgets(env: &mut Environment, file: GuestAddr, buf: GuestAddr, len: i32) -> (r: GuestAddr)
    requires
        old(env).wf(),
        len > 0 && old(env).libc_state.zlib@.contains_key(file) ==> {
            let s = old(env).libc_state.zlib@[file];
            s.pos < s.data.len() ==> old(env).mem@.valid(
                buf as int,
                next_line(s, len).len() as int + 1,
            )
        },
    ensures
        final(env).wf(),
        ({
            let s = old(env).libc_state.zlib@[file];
            let line = next_line(s, len);
            if len > 0 && old(env).libc_state.zlib@.contains_key(file) && s.pos < s.data.len() {
                &&& r == buf
                &&& final(env).libc_state.zlib@ == old(env).libc_state.zlib@.insert(
                    file,
                    s.at(s.pos + line.len()),
                )
                &&& final(env).mem@ == old(env).mem@.write(buf as int, line.push(0))
                &&& *final(env) == with_files(*old(env), *final(env))
            } else {
                r == NULL && *final(env) == *old(env)
            }
        }),
{
    if len <= 0 {
        return NULL;
    }
    let max: usize = (len - 1) as usize;
    match env.libc_state.zlib.get(file) {
        None => {
            return NULL;
        },
        Some(s) => {
            if s.pos >= s.data.len() {
                return NULL;
            }
        },
    }
    match env.libc_state.zlib.remove(file) {
        None => NULL,
        Some(mut s) => {
            let ghost first = s@;
            let ghost rest = first.rest();
            let mut line: Vec<u8> = Vec::new();
            let mut done: bool = false;
            assert(rest.skip(0) =~= rest);
            while !done && line.len() < max && s.pos < s.data.len()
                invariant
                    rest == first.rest(),
                    first.wf(),
                    s.data@ == first.data,
                    s.direct == first.direct,
                    s.pos == first.pos + line@.len(),
                    s.pos <= first.data.len(),
                    line@.len() <= max == len - 1,
                    line@ == rest.take(line@.len() as int),
                    line_len(rest, len - 1) == line@.len() + (if done {
                        0
                    } else {
                        line_len(rest.skip(line@.len() as int), max - line@.len())
                    }),
                decreases max - line@.len(),
            {
                let b: u8 = s.data[s.pos];
                let ghost k = line@.len() as int;
                assert(rest.skip(k)[0] == b);
                assert(rest.skip(k).skip(1) =~= rest.skip(k + 1));
                s.pos += 1;
                line.push(b);
                assert(line@ =~= rest.take(k + 1));
                if b == 0x0a {
                    done = true;
                }
            }
            assert(line@ =~= next_line(first, len));
            line.push(0);
            assert(line@ =~= next_line(first, len).push(0));
            env.libc_state.zlib.insert(file, s);
            assert(env.libc_state.zlib@ =~= old(env).libc_state.zlib@.insert(file, s@));
            env.mem.write_bytes(buf, &line);
            buf
        },
    }
}

/// Reads a byte, or returns -1 at the end of the file.
pub fn gzgetc(env: &mut Environment, file: GuestAddr) -> (r: i32)
    requires
        old(env).wf(),
    ensures
        final(env).wf(),
        ({
            let s = old(env).libc_state.zlib@[file];
            if old(env).libc_state.zlib@.contains_key(file) && s.pos < s.data.len() {
                &&& r == s.data[s.pos]
                &&& final(env).libc_state.zlib@ == old(env).libc_state.zlib@.insert(
                    file,
                    s.at(s.pos + 1),
                )
                &&& final(env).mem == old(env).mem
                &&& *final(env) == with_files(*old(env), *final(env))
            } else {
                r == -1 && *final(env) == *old(env)
            }
        }),
{
    match env.libc_state.zlib.get(file) {
        None => {
            return -1;
        },
        Some(s) => {
            if s.pos >= s.data.len() {
                return -1;
            }
        },
    }
    match env.libc_state.zlib.remove(file) {
        None => -1,
        Some(mut s) => {
            let b: u8 = s.data[s.pos];
            s.pos += 1;
            env.libc_state.zlib.insert(file, s);
            assert(env.libc_state.zlib@ =~= old(env).libc_state.zlib@.insert(file, s@));
            b as i32
        },
    }
}

/// How many bytes of the file have not been read.
pub fn gzremaining(env: &Environment, file: GuestAddr) -> (r: usize)
    requires
        env.wf(),
    ensures
        r == if env.libc_state.zlib@.contains_key(file) {
            env.libc_state.zlib@[file].data.len() - env.libc_state.zlib@[file].pos
        } else {
            0
        },
{
    match env.libc_state.zlib.get(file) {
        Some(s) => s.data.len() - s.pos,
        None => 0,
    }
}

/// Whether all of the file has been read. A file that is not open counts as
/// read.
pub fn gzeof(env: &Environment, file: GuestAddr) -> (r: i32)
    ensures
        r == if env.libc_state.zlib@.contains_key(file) && env.libc_state.zlib@[file].pos
            < env.libc_state.zlib@[file].data.len() {
            0int
        } else {
            1
        },
{
    match env.libc_state.zlib.get(file) {
        Some(s) => if s.pos < s.data.len() {
            0
        } else {
            1
        },
        None => 1,
    }
}

/// A position as the guest's `off_t` has it.
pub open spec fn as_off_t(n: int) -> int {
    if n > i64::MAX {
        n - 0x1_0000_0000_0000_0000
    } else {
        n
    }
}

fn to_off_t(n: usize) -> (r: i64)
    ensures
        r == as_off_t(n as int),
{
    let n: u64 = n as u64;
    if n <= 0x7fff_ffff_ffff_ffff {
        n as i64
    } else {
        (n - 0x8000_0000_0000_0000) as i64 + i64::MIN
    }
}

/// The cursor's position.
pub fn gztell(env: &Environment, file: GuestAddr) -> (r: i64)
    ensures
        r == if env.libc_state.zlib@.contains_key(file) {
            as_off_t(env.libc_state.zlib@[file].pos)
        } else {
            -1
        },
{
    match env.libc_state.zlib.get(file) {
        Some(s) => to_off_t(s.pos),
        None => -1,
    }
}

fn set_pos(env: &mut Environment, file: GuestAddr, pos: usize)
    requires
        old(env).wf(),
        old(env).libc_state.zlib@.contains_key(file),
        pos <= old(env).libc_state.zlib@[file].data.len(),
    ensures
        final(env).wf(),
        final(env).libc_state.zlib@ == old(env).libc_state.zlib@.insert(
            file,
            old(env).libc_state.zlib@[file].at(pos as int),
        ),
        final(env).mem == old(env).mem,
        *final(env) == with_files(*old(env), *final(env)),
{
    if let Some(mut s) = env.libc_state.zlib.remove(file) {
        s.pos = pos;
        env.libc_state.zlib.insert(file, s);
        assert(env.libc_state.zlib@ =~= old(env).libc_state.zlib@.insert(file, s@));
    }
}

pub fn gzrewind(env: &mut Environment, file: GuestAddr) -> (r: i32)
    requires
        old(env).wf(),
    ensures
        final(env).wf(),
        if old(env).libc_state.zlib@.contains_key(file) {
            &&& r == 0
            &&& final(env).libc_state.zlib@ == old(env).libc_state.zlib@.insert(
                file,
                old(env).libc_state.zlib@[file].at(0),
            )
            &&& final(env).mem == old(env).mem
            &&& *final(env) == with_files(*old(env), *final(env))
        } else {
            r == -1 && *final(env) == *old(env)
        },
{
    if env.libc_state.zlib.get(file).is_none() {
        return -1;
    }
    set_pos(env, file, 0);
    0
}

/// Moves the cursor, unless that would leave the file, and returns its position,
/// or -1 where it did not move.
pub fn gzseek(env: &mut Environment, file: GuestAddr, offset: i64, whence: i32) -> (r: i64)
    requires
        old(env).wf(),
    ensures
        final(env).wf(),
        ({
            let target = old(env).libc_state.zlib@[file].seek_target(offset as int, whence);
            if old(env).libc_state.zlib@.contains_key(file) && target is Some {
                &&& r == as_off_t(target->0)
                &&& final(env).libc_state.zlib@ == old(env).libc_state.zlib@.insert(
                    file,
                    old(env).libc_state.zlib@[file].at(target->0),
                )
                &&& final(env).mem == old(env).mem
                &&& *final(env) == with_files(*old(env), *final(env))
            } else {
                r == -1 && *final(env) == *old(env)
            }
        }),
{
    let newpos: usize = match env.libc_state.zlib.get(file) {
        None => {
            return -1;
        },
        Some(s) => {
            let base: i128 = if whence == SEEK_SET {
                0
            } else if whence == SEEK_CUR {
                s.pos as i128
            } else if whence == SEEK_END {
                s.data.len() as i128
            } else {
                return -1;
            };
            let newpos: i128 = base + offset as i128;
            if newpos < 0 || newpos > s.data.len() as i128 {
                return -1;
            }
            newpos as usize
        },
    };
    set_pos(env, file, newpos);
    to_off_t(newpos)
}

/// Closes the file and frees its handle.
pub fn gzclose(env: &mut Environment, file: GuestAddr) -> (r: i32)
    requires
        old(env).wf(),
        old(env).libc_state.zlib@.contains_key(file) ==> old(env).mem@.live.contains_key(file),
    ensures
        final(env).wf(),
        if old(env).libc_state.zlib@.contains_key(file) {
            &&& r == 0
            &&& final(env).libc_state.zlib@ == old(env).libc_state.zlib@.remove(file)
            &&& final(env).mem@ == old(env).mem@.without_block(file)
            &&& *final(env) == with_files(*old(env), *final(env))
        } else {
            r == -1 && *final(env) == *old(env)
        },
{
    if env.libc_state.zlib.get(file).is_none() {
        return -1;
    }
    let _ = env.libc_state.zlib.remove(file);
    env.mem.free(file);
    0
}

/// Two reads give what one read of both lengths gives, and leave the cursor at
/// the same place.
pub proof fn law_reads_join(s: GzView, a: int, b: int)
    requires
        s.wf(),
        a >= 0,
        b >= 0,
    ensures
        s.read_bytes(a) + s.after_read(a).read_bytes(b) == s.read_bytes(a + b),
        s.after_read(a).after_read(b) == s.after_read(a + b),
{
    assert(s.read_bytes(a) + s.after_read(a).read_bytes(b) =~= s.read_bytes(a + b));
}

/// A file without a gzip header is read as it is, whatever decoding it would
/// give.
pub proof fn law_plain_file_is_transparent(raw: Seq<u8>, decoded: Option<Seq<u8>>, len: int)
    requires
        !has_gzip_header(raw),
        len >= raw.len(),
    ensures
        opened(raw, decoded).direct,
        opened(raw, decoded).read_bytes(len) == raw,
{
    assert(opened(raw, decoded).read_bytes(len) =~= raw);
}

/// A line is a part of what is left of the file: not empty where there is room
/// for it, no longer than that, and with a newline at its end only.
pub proof fn law_line_shape(s: Seq<u8>, max: int)
    requires
        max >= 0,
    ensures
        0 <= line_len(s, max) <= s.len(),
        line_len(s, max) <= max,
        s.len() > 0 && max > 0 ==> line_len(s, max) > 0,
        forall|i: int| 0 <= i < line_len(s, max) - 1 ==> s[i] != 0x0a,
        line_len(s, max) < s.len() && line_len(s, max) < max ==> s[line_len(s, max) - 1] == 0x0a,
    decreases s.len(),
{
    if s.len() > 0 && max > 0 && s[0] != 0x0a {
        law_line_shape(s.skip(1), max - 1);
        let n = line_len(s.skip(1), max - 1);
        assert forall|i: int| 0 <= i < line_len(s, max) - 1 implies s[i] != 0x0a by {
            if i > 0 {
                assert(s.skip(1)[i - 1] == s[i]);
            }
        }
        if n < s.skip(1).len() && n < max - 1 {
            assert(s.skip(1)[n - 1] == s[n]);
        }
    }
}

/// A seek that succeeds is undone by a seek back to where the cursor was.
pub proof fn law_seek_back(s: GzView, offset: int, whence: i32)
    requires
        s.wf(),
        s.seek_target(offset, whence) is Some,
    ensures
        s.at(s.seek_target(offset, whence)->0).wf(),
        s.at(s.seek_target(offset, whence)->0).seek_target(s.pos, SEEK_SET) == Some(s.pos),
        s.at(s.seek_target(offset, whence)->0).at(s.pos) == s,
{
}

/// A read gives the next bytes of the file, as many as were asked for or as there
/// are, and the cursor is behind them. The file itself does not change.
pub proof fn law_read_gives_the_next_bytes(s: GzView, len: int, i: int)
    requires
        s.wf(),
        len >= 0,
        0 <= i < s.read_bytes(len).len(),
    ensures
        ({
            let n = s.read_bytes(len).len() as int;
            let left = s.data.len() - s.pos;
            &&& n == s.read_len(len)
            &&& n <= len && n <= left
            &&& n == len || n == left
            &&& s.read_bytes(len)[i] == s.data[s.pos + i]
            &&& s.after_read(len) == (GzView { pos: s.pos + n, ..s })
            &&& s.after_read(len).wf()
        }),
{
}

/// Nothing is read only where nothing was asked for or nothing is left.
pub proof fn law_nothing_is_read_at_the_end(s: GzView, len: int)
    requires
        s.wf(),
        len >= 0,
    ensures
        s.read_bytes(len).len() == 0 <==> len == 0 || s.pos == s.data.len(),
        s.read_len(len) == s.read_bytes(len).len(),
        s.read_bytes(len).len() == 0 ==> s.after_read(len) == s,
{
}

/// A gzip file is read as what it was decoded to, from the start, and any other,
/// or one that cannot be decoded, as it is. `gzdirect` tells which.
pub proof fn law_opened_file(raw: Seq<u8>, decoded: Option<Seq<u8>>)
    ensures
        ({
            let gzip = raw.len() >= 2 && raw[0] == 0x1f && raw[1] == 0x8b;
            let file = opened(raw, decoded);
            &&& file.pos == 0
            &&& file.wf()
            &&& file.direct <==> !(gzip && decoded is Some)
            &&& file.data == if gzip && decoded is Some {
                decoded->Some_0
            } else {
                raw
            }
        }),
{
}

/// A seek goes to where it is asked to, from the start, the cursor or the end, and
/// refuses only to leave the file and what is none of the three.
pub proof fn law_seek(s: GzView, offset: int, whence: i32)
    requires
        s.wf(),
    ensures
        ({
            let from: int = if whence == 0 {
                0
            } else if whence == 1 {
                s.pos
            } else {
                s.data.len() as int
            };
            let target = s.seek_target(offset, whence);
            &&& target is Some <==> (whence == 0 || whence == 1 || whence == 2) && 0 <= from
                + offset && from + offset <= s.data.len()
            &&& target is Some ==> target->Some_0 - from == offset && s.at(target->Some_0).wf()
                && s.at(target->Some_0) == (GzView { pos: from + offset, ..s })
        }),
{
}

/// A line is read from the cursor on, and fits the buffer with its terminator. It
/// ends with the first newline, or where the buffer or the file does.
pub proof fn law_next_line(s: GzView, len: i32, i: int)
    requires
        s.wf(),
        len > 0,
        0 <= i < next_line(s, len).len(),
    ensures
        next_line(s, len).len() < len,
        next_line(s, len)[i] == s.data[s.pos + i],
        i + 1 < next_line(s, len).len() ==> next_line(s, len)[i] != 0x0a,
        i + 1 == next_line(s, len).len() ==> {
            ||| next_line(s, len)[i] == 0x0a
            ||| next_line(s, len).len() == len - 1
            ||| s.pos + i + 1 == s.data.len()
        },
{
    law_line_shape(s.rest(), len - 1);
}

/// Counts and positions are what the guest's types have of them: the same but for
/// what does not fit, which wraps around.
pub proof fn law_counts_wrap(n: u32, m: u64)
    ensures
        i32::MIN <= as_int(n as int) <= i32::MAX,
        (as_int(n as int) - n) % 0x1_0000_0000 == 0,
        i64::MIN <= as_off_t(m as int) <= i64::MAX,
        (as_off_t(m as int) - m) % 0x1_0000_0000_0000_0000 == 0,
{
}

/// What is done with files leaves all else of the environment alone, but for memory.
pub proof fn law_files_are_apart(pre: Environment, post: Environment)
    ensures
        ({
            let after = with_files(pre, post);
            &&& after.mem == post.mem
            &&& after.libc_state.zlib == post.libc_state.zlib
            &&& after.libc_state.crypto == pre.libc_state.crypto
            &&& after.libc_state.stdlib == pre.libc_state.stdlib
            &&& after.libc_state.unwind_sjlj == pre.libc_state.unwind_sjlj
            &&& after.errno == pre.errno
            &&& after.env_vars == pre.env_vars
            &&& after.current_thread == pre.current_thread
            &&& after.regs == pre.regs
            &&& after.executable_path == pre.executable_path
            &&& after.ctype_locale == pre.ctype_locale
        }),
{
}

/// Reading a byte is reading one: `gzgetc` gives the byte that `gzread` would write,
/// and leaves the cursor where that would. At the end of the file neither moves it.
pub proof fn law_a_byte_is_a_read_of_one(file: GuestAddr, buf: GuestAddr, c: i32, n: i32)
    ensures
        forall|x: &mut Environment, y: &mut Environment|
            #[trigger] call_ensures(gzgetc, (x, file), c) && #[trigger] call_ensures(
                gzread,
                (y, file, buf, 1),
                n,
            ) && *x == *y && x.wf() && x.libc_state.zlib@.contains_key(file) && x.mem@.valid(
                buf as int,
                1,
            ) ==> {
                &&& n == 0 || n == 1
                &&& c == -1 <==> n == 0
                &&& n == 1 ==> final(y).mem@.bytes[buf as int] == c
                &&& final(x).libc_state.zlib@ == final(y).libc_state.zlib@
            },
{
    assert forall|x: &mut Environment, y: &mut Environment|
        #[trigger] call_ensures(gzgetc, (x, file), c) && #[trigger] call_ensures(
            gzread,
            (y, file, buf, 1),
            n,
        ) && *x == *y && x.wf() && x.libc_state.zlib@.contains_key(file) && x.mem@.valid(
            buf as int,
            1,
        ) implies {
        &&& n == 0 || n == 1
        &&& c == -1 <==> n == 0
        &&& n == 1 ==> final(y).mem@.bytes[buf as int] == c
        &&& final(x).libc_state.zlib@ == final(y).libc_state.zlib@
    } by {
        assert(x.libc_state.zlib@.contains_key(file));
        let s = x.libc_state.zlib@[file];
        assert(s.wf());
        if s.pos >= s.data.len() {
            assert(s.after_read(1) == s);
            assert(final(y).libc_state.zlib@ =~= y.libc_state.zlib@);
        } else {
            assert(s.after_read(1) == s.at(s.pos + 1));
        }
    }
}

/// Where the cursor is, how much is left and whether anything is belong together, and
/// seeking there by any of the three ways leaves it there.
pub proof fn law_cursor_is_told(
    env: Environment,
    file: GuestAddr,
    pos: i64,
    left: usize,
    eof: i32,
    r: i64,
)
    requires
        env.wf(),
        env.libc_state.zlib@.contains_key(file),
        env.libc_state.zlib@[file].data.len() <= i64::MAX,
        call_ensures(gztell, (&env, file), pos),
        call_ensures(gzremaining, (&env, file), left),
        call_ensures(gzeof, (&env, file), eof),
    ensures
        pos >= 0,
        pos + left == env.libc_state.zlib@[file].data.len(),
        eof == 0 || eof == 1,
        eof == 1 <==> left == 0,
        forall|x: &mut Environment|
            *x == env && #[trigger] call_ensures(gzseek, (x, file, pos, SEEK_SET), r) ==> r == pos
                && final(x).libc_state.zlib@ == env.libc_state.zlib@,
        forall|x: &mut Environment|
            *x == env && #[trigger] call_ensures(gzseek, (x, file, 0, SEEK_CUR), r) ==> r == pos
                && final(x).libc_state.zlib@ == env.libc_state.zlib@,
        forall|x: &mut Environment|
            *x == env && #[trigger] call_ensures(
                gzseek,
                (x, file, (-(left as int)) as i64, SEEK_END),
                r,
            ) ==> r == pos && final(x).libc_state.zlib@ == env.libc_state.zlib@,
{
    assert(env.libc_state.zlib@.contains_key(file));
    let s = env.libc_state.zlib@[file];
    assert(s.wf());
    assert(env.libc_state.zlib@.insert(file, s.at(s.pos)) =~= env.libc_state.zlib@);
}

/// Rewinding is seeking to the start.
pub proof fn law_rewind_seeks_the_start(file: GuestAddr, r: i32, at: i64)
    ensures
        forall|x: &mut Environment, y: &mut Environment|
            #[trigger] call_ensures(gzrewind, (x, file), r) && #[trigger] call_ensures(
                gzseek,
                (y, file, 0, SEEK_SET),
                at,
            ) && *x == *y ==> r == at && final(x).libc_state.zlib@ == final(y).libc_state.zlib@,
{
}

/// A read puts the next bytes of the file in the buffer, and nothing else of memory
/// changes. The count is that of the bytes.
pub proof fn law_read_fills_the_buffer(
    file: GuestAddr,
    buf: GuestAddr,
    len: GuestUSize,
    n: i32,
    i: int,
)
    requires
        len <= i32::MAX,
    ensures
        forall|x: &mut Environment|
            #[trigger] call_ensures(gzread, (x, file, buf, len), n) && x.wf()
                && x.libc_state.zlib@.contains_key(file) && x.mem@.valid(buf as int, len as int)
                ==> {
                let s = x.libc_state.zlib@[file];
                &&& 0 <= n <= len
                &&& n == len || s.pos + n == s.data.len()
                &&& final(x).libc_state.zlib@[file].pos == s.pos + n
                &&& final(x).libc_state.zlib@[file].data == s.data
                &&& 0 <= i < n ==> final(x).mem@.bytes[buf + i] == s.data[s.pos + i]
                &&& 0 <= i < x.mem@.bytes.len() && (i < buf || buf + n <= i) ==> final(x).mem@.bytes[i] == x.mem@.bytes[i]
            },
        forall|x: &mut Environment|
            #[trigger] call_ensures(gzread, (x, file, buf, len), n)
                && !x.libc_state.zlib@.contains_key(file) ==> n == -1 && *final(x) == *x,
{
    assert forall|x: &mut Environment|
        #[trigger] call_ensures(gzread, (x, file, buf, len), n) && x.wf()
            && x.libc_state.zlib@.contains_key(file) && x.mem@.valid(
            buf as int,
            len as int,
        ) implies {
        let s = x.libc_state.zlib@[file];
        &&& 0 <= n <= len
        &&& n == len || s.pos + n == s.data.len()
        &&& final(x).libc_state.zlib@[file].pos == s.pos + n
        &&& final(x).libc_state.zlib@[file].data == s.data
        &&& 0 <= i < n ==> final(x).mem@.bytes[buf + i] == s.data[s.pos + i]
        &&& 0 <= i < x.mem@.bytes.len() && (i < buf || buf + n <= i) ==> final(x).mem@.bytes[i]
            == x.mem@.bytes[i]
    } by {
        assert(x.libc_state.zlib@.contains_key(file));
        let s = x.libc_state.zlib@[file];
        assert(s.wf());
    }
}

/// A file that is opened is read from its start, as what it holds, by a handle of its
/// own, and one that is not there has none. Closing it makes the handle unknown.
pub proof fn law_files_are_opened_and_closed(raw: Vec<u8>, handle: GuestAddr, r: i32)
    ensures
        forall|x: &mut Environment|
            #[trigger] call_ensures(gzopen, (x, Some(raw)), handle) ==> {
                let s = final(x).libc_state.zlib@[handle];
                let gzip = raw@.len() >= 2 && raw@[0] == 0x1f && raw@[1] == 0x8b;
                &&& handle != NULL
                &&& final(x).libc_state.zlib@.contains_key(handle)
                &&& s.pos == 0
                &&& gzip && gunzip(raw@) is Some ==> s.data == gunzip(raw@)->Some_0 && !s.direct
                &&& !gzip || gunzip(raw@) is None ==> s.data == raw@ && s.direct
            },
        forall|x: &mut Environment|
            #[trigger] call_ensures(gzopen, (x, None::<Vec<u8>>), handle) ==> handle == NULL
                && *final(x) == *x,
        forall|x: &mut Environment|
            #[trigger] call_ensures(gzclose, (x, handle), r) ==> {
                &&& r == 0 <==> x.libc_state.zlib@.contains_key(handle)
                &&& !final(x).libc_state.zlib@.contains_key(handle)
                &&& r != 0 ==> r == -1 && *final(x) == *x
            },
{
}

/// A line is put in the buffer with a terminator behind it, and read on from there the
/// next time. At the end of the file there is none, and nothing changes.
pub proof fn law_lines_are_read_one_by_one(
    file: GuestAddr,
    buf: GuestAddr,
    len: i32,
    r: GuestAddr,
    i: int,
)
    requires
        len > 1,
        buf != NULL,
    ensures
        forall|x: &mut Environment|
            #[trigger] call_ensures(gzgets, (x, file, buf, len), r) && x.wf()
                && x.libc_state.zlib@.contains_key(file) && x.mem@.valid(buf as int, len as int)
                ==> {
                let s = x.libc_state.zlib@[file];
                let n = final(x).libc_state.zlib@[file].pos - s.pos;
                &&& r == NULL <==> s.pos == s.data.len()
                &&& r == NULL ==> *final(x) == *x
                &&& r != NULL ==> {
                    &&& r == buf
                    &&& 0 < n < len
                    &&& final(x).mem@.bytes[buf + n] == 0
                    &&& 0 <= i < n ==> final(x).mem@.bytes[buf + i] == s.data[s.pos + i]
                    &&& 0 <= i < n - 1 ==> s.data[s.pos + i] != 0x0a
                    &&& s.data[s.pos + n - 1] == 0x0a || n == len - 1 || s.pos + n == s.data.len()
                }
            },
{
    assert forall|x: &mut Environment|
        #[trigger] call_ensures(gzgets, (x, file, buf, len), r) && x.wf()
            && x.libc_state.zlib@.contains_key(file) && x.mem@.valid(
            buf as int,
            len as int,
        ) implies {
        let s = x.libc_state.zlib@[file];
        let n = final(x).libc_state.zlib@[file].pos - s.pos;
        &&& r == NULL <==> s.pos == s.data.len()
        &&& r == NULL ==> *final(x) == *x
        &&& r != NULL ==> {
            &&& r == buf
            &&& 0 < n < len
            &&& final(x).mem@.bytes[buf + n] == 0
            &&& 0 <= i < n ==> final(x).mem@.bytes[buf + i] == s.data[s.pos + i]
            &&& 0 <= i < n - 1 ==> s.data[s.pos + i] != 0x0a
            &&& s.data[s.pos + n - 1] == 0x0a || n == len - 1 || s.pos + n == s.data.len()
        }
    } by {
        assert(x.libc_state.zlib@.contains_key(file));
        let s = x.libc_state.zlib@[file];
        assert(s.wf());
        let rest = s.rest();
        law_line_shape(rest, len - 1);
        let n = line_len(rest, len - 1);
        if s.pos < s.data.len() {
            assert(rest.len() == s.data.len() - s.pos);
            assert(rest[n - 1] == s.data[s.pos + n - 1]);
            if 0 <= i < n {
                assert(rest[i] == s.data[s.pos + i]);
            }
        }
    }
}

} // verus!
