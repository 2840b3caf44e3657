//! CommonCrypto and friends
use crate::environment::{Environment, LibcState};
use crate::mem::{splice, GuestAddr, MemState, NULL};
use digest::Digest;
use md5::Md5;
use sha1::Sha1;
use sha2::Sha256;
use std::collections::HashMap;
use vstd::prelude::*;

verus! {

broadcast use vstd::std_specs::hash::group_hash_axioms;

/// State for the streaming CommonCrypto hash APIs (`CC_SHA256_Init/Update/Final`),
/// keyed by the guest `CC_SHA256_CTX *` pointer: the bytes that were hashed so
/// far. The guest's context struct itself is not used.
pub struct State {
    sha256_ctxs: HashMap<u32, Vec<u8>>,
}

impl View for State {
    type V = Map<u32, Seq<u8>>;

    closed spec fn view(&self) -> Map<u32, Seq<u8>> {
        self.sha256_ctxs@.map_values(|v: Vec<u8>| v@)
    }
}

impl Default for State {
    fn default() -> (r: State)
        ensures
            r@ == Map::<u32, Seq<u8>>::empty(),
    {
        let r = State { sha256_ctxs: HashMap::new() };
        assert(r@ =~= Map::<u32, Seq<u8>>::empty());
        r
    }
}

impl State {
    fn insert(&mut self, c: u32, bytes: Vec<u8>)
        ensures
            final(self)@ == old(self)@.insert(c, bytes@),
    {
        self.sha256_ctxs.insert(c, bytes);
        assert(self@ =~= old(self)@.insert(c, bytes@));
    }

    fn remove(&mut self, c: u32) -> (r: Option<Vec<u8>>)
        ensures
            match r {
                Some(bytes) => old(self)@.contains_key(c) && bytes@ == old(self)@[c],
                None => !old(self)@.contains_key(c),
            },
            final(self)@ == old(self)@.remove(c),
    {
        let r = self.sha256_ctxs.remove(&c);
        assert(self@ =~= old(self)@.remove(c));
        r
    }
}

/// The MD5 digest of `data`.
pub uninterp spec fn md5_of(data: Seq<u8>) -> [u8; 16];

/// The SHA-1 digest of `data`.
pub uninterp spec fn sha1_of(data: Seq<u8>) -> [u8; 20];

/// The SHA-256 digest of `data`.
pub uninterp spec fn sha256_of(data: Seq<u8>) -> [u8; 32];

/// Hashes `data` with `md5::Md5`, whose digests have 16 bytes.
#[verifier::external_body]
fn md5_digest(data: &Vec<u8>) -> (r: Vec<u8>)
    ensures
        r@ == md5_of(data@)@,
{
    let mut hasher = Md5::new();
    hasher.update(&data[..]);
    hasher.finalize().to_vec()
}

/// Hashes `data` with `sha1::Sha1`, whose digests have 20 bytes.
#[verifier::external_body]
fn sha1_digest(data: &Vec<u8>) -> (r: Vec<u8>)
    ensures
        r@ == sha1_of(data@)@,
{
    let mut hasher = Sha1::new();
    hasher.update(&data[..]);
    hasher.finalize().to_vec()
}

/// Hashes `data` with `sha2::Sha256`, whose digests have 32 bytes.
#[verifier::external_body]
fn sha256_digest(data: &Vec<u8>) -> (r: Vec<u8>)
    ensures
        r@ == sha256_of(data@)@,
{
    let mut hasher = Sha256::new();
    hasher.update(&data[..]);
    hasher.finalize().to_vec()
}

/// Writes `digest` to `md` and returns that.
pub fn store_digest(env: &mut Environment, md: GuestAddr, digest: &Vec<u8>) -> (r: GuestAddr)
    requires
        old(env).wf(),
        old(env).mem@.valid(md as int, digest@.len() as int),
    ensures
        r == md,
        final(env).wf(),
        final(env).mem@ == old(env).mem@.write(md as int, digest@),
        *final(env) == (Environment { mem: final(env).mem, ..*old(env) }),
{
    env.mem.write_bytes(md, digest);
    md
}

/// `CC_MD5(data, len, md)`: one-shot MD5.
#[allow(non_snake_case)]
pub fn CC_MD5(env: &mut Environment, data: GuestAddr, len: u32, md: GuestAddr) -> (r: GuestAddr)
    requires
        old(env).wf(),
        old(env).mem@.valid(data as int, len as int),
        old(env).mem@.valid(md as int, 16),
    ensures
        r == md,
        final(env).wf(),
        final(env).mem@ == old(env).mem@.write(
            md as int,
            md5_of(old(env).mem@.bytes_at(data as int, len as int))@,
        ),
        md5_of(old(env).mem@.bytes_at(data as int, len as int))@.len() == 16,
        *final(env) == (Environment { mem: final(env).mem, ..*old(env) }),
{
    let digest: Vec<u8> = md5_digest(&env.mem.bytes_at(data, len));
    store_digest(env, md, &digest)
}

/// `CC_SHA1(data, len, md)`: one-shot SHA-1.
#[allow(non_snake_case)]
pub fn CC_SHA1(env: &mut Environment, data: GuestAddr, len: u32, md: GuestAddr) -> (r: GuestAddr)
    requires
        old(env).wf(),
        old(env).mem@.valid(data as int, len as int),
        old(env).mem@.valid(md as int, 20),
    ensures
        r == md,
        final(env).wf(),
        final(env).mem@ == old(env).mem@.write(
            md as int,
            sha1_of(old(env).mem@.bytes_at(data as int, len as int))@,
        ),
        sha1_of(old(env).mem@.bytes_at(data as int, len as int))@.len() == 20,
        *final(env) == (Environment { mem: final(env).mem, ..*old(env) }),
{
    let digest: Vec<u8> = sha1_digest(&env.mem.bytes_at(data, len));
    store_digest(env, md, &digest)
}

/// `CC_SHA256(data, len, md)`: one-shot SHA-256.
#[allow(non_snake_case)]
pub fn CC_SHA256(env: &mut Environment, data: GuestAddr, len: u32, md: GuestAddr) -> (r: GuestAddr)
    requires
        old(env).wf(),
        old(env).mem@.valid(data as int, len as int),
        old(env).mem@.valid(md as int, 32),
    ensures
        r == md,
        final(env).wf(),
        final(env).mem@ == old(env).mem@.write(
            md as int,
            sha256_of(old(env).mem@.bytes_at(data as int, len as int))@,
        ),
        sha256_of(old(env).mem@.bytes_at(data as int, len as int))@.len() == 32,
        *final(env) == (Environment { mem: final(env).mem, ..*old(env) }),
{
    let digest: Vec<u8> = sha256_digest(&env.mem.bytes_at(data, len));
    store_digest(env, md, &digest)
}

/// The contexts after `c` was begun.
pub open spec fn after_init(ctxs: Map<u32, Seq<u8>>, c: u32) -> Map<u32, Seq<u8>> {
    ctxs.insert(c, Seq::empty())
}

/// The contexts after `bytes` were added to `c`. Nothing is added to a context
/// that was not begun.
pub open spec fn after_update(ctxs: Map<u32, Seq<u8>>, c: u32, bytes: Seq<u8>) -> Map<
    u32,
    Seq<u8>,
> {
    if ctxs.contains_key(c) {
        ctxs.insert(c, ctxs[c] + bytes)
    } else {
        ctxs
    }
}

/// The contexts after the digest of `c` was taken.
pub open spec fn after_final(ctxs: Map<u32, Seq<u8>>, c: u32) -> Map<u32, Seq<u8>> {
    ctxs.remove(c)
}

/// Memory after the digest of `c` was written to `md`. Nothing is written for a
/// context that was not begun.
pub open spec fn with_digest(
    mem: MemState,
    ctxs: Map<u32, Seq<u8>>,
    md: GuestAddr,
    c: u32,
) -> MemState {
    if ctxs.contains_key(c) {
        mem.write(md as int, sha256_of(ctxs[c])@)
    } else {
        mem
    }
}

/// The environment `pre` with other memory and other hash contexts.
pub open spec fn with_contexts(pre: Environment, post: Environment) -> Environment {
    Environment {
        mem: post.mem,
        libc_state: LibcState { crypto: post.libc_state.crypto, ..pre.libc_state },
        ..pre
    }
}

/// `CC_SHA256_Init(CC_SHA256_CTX *c)`: begin a streaming SHA-256.
#[allow(non_snake_case)]
pub fn CC_SHA256_Init(env: &mut Environment, c: GuestAddr) -> (r: i32)
    ensures
        r == 1,
        final(env).libc_state.crypto@ == after_init(old(env).libc_state.crypto@, c),
        final(env).mem == old(env).mem,
        *final(env) == with_contexts(*old(env), *final(env)),
{
    let empty: Vec<u8> = Vec::new();
    assert(empty@ =~= Seq::empty());
    env.libc_state.crypto.insert(c, empty);
    1  // CommonCrypto returns 1 on success
}

/// `CC_SHA256_Update(CC_SHA256_CTX *c, const void *data, CC_LONG len)`.
#[allow(non_snake_case)]
pub fn CC_SHA256_Update(env: &mut Environment, c: GuestAddr, data: GuestAddr, len: u32) -> (r: i32)
    requires
        old(env).wf(),
        old(env).mem@.valid(data as int, len as int),
    ensures
        r == 1,
        final(env).libc_state.crypto@ == after_update(
            old(env).libc_state.crypto@,
            c,
            old(env).mem@.bytes_at(data as int, len as int),
        ),
        final(env).mem == old(env).mem,
        *final(env) == with_contexts(*old(env), *final(env)),
{
    let bytes: Vec<u8> = env.mem.bytes_at(data, len);
    let ghost ctxs = env.libc_state.crypto@;
    match env.libc_state.crypto.remove(c) {
        Some(mut hashed) => {
            hashed.extend_from_slice(bytes.as_slice());
            assert(hashed@ =~= ctxs[c] + bytes@);
            env.libc_state.crypto.insert(c, hashed);
            assert(env.libc_state.crypto@ =~= ctxs.insert(c, ctxs[c] + bytes@));
        },
        None => {
            assert(env.libc_state.crypto@ =~= ctxs);
        },
    }
    1
}

/// `CC_SHA256_Final(unsigned char *md, CC_SHA256_CTX *c)`: write the 32-byte
/// digest. Nothing is written for a context that was not begun.
#[allow(non_snake_case)]
pub fn CC_SHA256_Final(env: &mut Environment, md: GuestAddr, c: GuestAddr) -> (r: i32)
    requires
        old(env).wf(),
        old(env).libc_state.crypto@.contains_key(c) ==> old(env).mem@.valid(md as int, 32),
    ensures
        r == 1,
        final(env).wf(),
        final(env).libc_state.crypto@ == after_final(old(env).libc_state.crypto@, c),
        final(env).mem@ == with_digest(old(env).mem@, old(env).libc_state.crypto@, md, c),
        sha256_of(old(env).libc_state.crypto@[c])@.len() == 32,
        *final(env) == with_contexts(*old(env), *final(env)),
{
    if let Some(hashed) = env.libc_state.crypto.remove(c) {
        let digest: Vec<u8> = sha256_digest(&hashed);
        let _ = store_digest(env, md, &digest);
    }
    1
}

/// A call of one of the streaming functions, on the context that is named first.
pub enum StreamCall {
    Init(u32),
    Update(u32, Seq<u8>),
    Final(u32),
}

/// The contexts after a call.
pub open spec fn after_call(ctxs: Map<u32, Seq<u8>>, call: StreamCall) -> Map<u32, Seq<u8>> {
    match call {
        StreamCall::Init(c) => after_init(ctxs, c),
        StreamCall::Update(c, bytes) => after_update(ctxs, c, bytes),
        StreamCall::Final(c) => after_final(ctxs, c),
    }
}

/// The contexts after each of `calls`.
pub open spec fn after_calls(ctxs: Map<u32, Seq<u8>>, calls: Seq<StreamCall>) -> Map<u32, Seq<u8>>
    decreases calls.len(),
{
    if calls.len() == 0 {
        ctxs
    } else {
        after_call(after_calls(ctxs, calls.drop_last()), calls.last())
    }
}

/// The strings of bytes that `calls` add to `c`, in order.
pub open spec fn chunks_for(calls: Seq<StreamCall>, c: u32) -> Seq<Seq<u8>>
    decreases calls.len(),
{
    if calls.len() == 0 {
        Seq::empty()
    } else {
        let before = chunks_for(calls.drop_last(), c);
        match calls.last() {
            StreamCall::Update(d, bytes) if d == c => before.push(bytes),
            _ => before,
        }
    }
}

/// Whether none of `calls` begins `c` anew.
pub open spec fn never_begun(calls: Seq<StreamCall>, c: u32) -> bool {
    forall|i: int| 0 <= i < calls.len() ==> #[trigger] calls[i] != StreamCall::Init(c)
}

/// Whether none of `calls` takes the digest of `c`.
pub open spec fn never_taken(calls: Seq<StreamCall>, c: u32) -> bool {
    forall|i: int| 0 <= i < calls.len() ==> #[trigger] calls[i] != StreamCall::Final(c)
}

/// Once a context is begun, it holds all that is added to it, one after the
/// other, whatever calls on other contexts come in between.
pub proof fn law_sha256_streaming(ctxs: Map<u32, Seq<u8>>, c: u32, calls: Seq<StreamCall>)
    requires
        never_begun(calls, c),
        never_taken(calls, c),
    ensures
        after_calls(after_init(ctxs, c), calls).contains_key(c),
        after_calls(after_init(ctxs, c), calls)[c] == chunks_for(calls, c).flatten(),
    decreases calls.len(),
{
    broadcast use Seq::lemma_flatten_push;

    if calls.len() > 0 {
        let before = calls.drop_last();
        assert(calls.last() == calls[calls.len() - 1]);
        assert(never_begun(before, c)) by {
            assert(forall|i: int| 0 <= i < before.len() ==> #[trigger] before[i] == calls[i]);
        }
        assert(never_taken(before, c)) by {
            assert(forall|i: int| 0 <= i < before.len() ==> #[trigger] before[i] == calls[i]);
        }
        law_sha256_streaming(ctxs, c, before);
    } else {
        assert(chunks_for(calls, c).flatten() =~= Seq::empty());
    }
}

/// What `CC_SHA256_Final` writes for a context is what `CC_SHA256` writes for all
/// that was added to it together, whatever calls on other contexts came in
/// between. Both write 32 bytes.
///
/// `mem` is the memory in which the digest is taken, and `one_shot` the one in
/// which all the bytes lie together.
pub proof fn law_sha256_final_is_one_shot(
    ctxs: Map<u32, Seq<u8>>,
    c: u32,
    calls: Seq<StreamCall>,
    mem: MemState,
    md: GuestAddr,
    one_shot: MemState,
    data: GuestAddr,
    len: u32,
    out: GuestAddr,
)
    requires
        never_begun(calls, c),
        never_taken(calls, c),
        mem.wf(),
        mem.valid(md as int, 32),
        one_shot.wf(),
        one_shot.valid(data as int, len as int),
        one_shot.valid(out as int, 32),
        one_shot.bytes_at(data as int, len as int) == chunks_for(calls, c).flatten(),
    ensures
        ({
            let digest = sha256_of(one_shot.bytes_at(data as int, len as int))@;
            let taken = with_digest(mem, after_calls(after_init(ctxs, c), calls), md, c);
            &&& digest.len() == 32
            &&& taken == mem.write(md as int, digest)
            &&& taken.bytes_at(md as int, 32) == digest
            &&& one_shot.write(out as int, digest).bytes_at(out as int, 32) == digest
        }),
{
    law_sha256_streaming(ctxs, c, calls);
    let digest = sha256_of(one_shot.bytes_at(data as int, len as int))@;
    assert(mem.write(md as int, digest).bytes_at(md as int, 32) =~= digest);
    assert(one_shot.write(out as int, digest).bytes_at(out as int, 32) =~= digest);
}

/// A digest is taken once: until the context is begun anew, memory stays as it is
/// when its digest is asked for again, whatever calls come in between.
pub proof fn law_sha256_final_once(
    ctxs: Map<u32, Seq<u8>>,
    c: u32,
    calls: Seq<StreamCall>,
    mem: MemState,
    md: GuestAddr,
)
    requires
        never_begun(calls, c),
    ensures
        !after_calls(after_final(ctxs, c), calls).contains_key(c),
        with_digest(mem, after_calls(after_final(ctxs, c), calls), md, c) == mem,
    decreases calls.len(),
{
    if calls.len() > 0 {
        let before = calls.drop_last();
        assert(calls.last() == calls[calls.len() - 1]);
        assert(never_begun(before, c)) by {
            assert(forall|i: int| 0 <= i < before.len() ==> #[trigger] before[i] == calls[i]);
        }
        law_sha256_final_once(ctxs, c, before, mem, md);
    }
}

// Security.framework Keychain stubs. The app uses these to store/retrieve
// credentials. "Not found" makes the app take its "no saved data" fallback path
// instead of crashing when it dereferences a null result pointer.

pub const ERR_SEC_ITEM_NOT_FOUND: i32 = -25300;

pub const ERR_SEC_SUCCESS: i32 = 0;

/// `OSStatus SecItemCopyMatching(CFDictionaryRef query, CFTypeRef *result)`
#[allow(non_snake_case)]
pub fn SecItemCopyMatching(env: &mut Environment, query: GuestAddr, result: GuestAddr) -> (r: i32)
    ensures
        r == ERR_SEC_ITEM_NOT_FOUND,
        *final(env) == *old(env),
{
    ERR_SEC_ITEM_NOT_FOUND
}

/// `OSStatus SecItemAdd(CFDictionaryRef attributes, CFTypeRef *result)`
#[allow(non_snake_case)]
pub fn SecItemAdd(env: &mut Environment, attributes: GuestAddr, result: GuestAddr) -> (r: i32)
    ensures
        r == ERR_SEC_SUCCESS,
        *final(env) == *old(env),
{
    ERR_SEC_SUCCESS
}

/// `OSStatus SecItemUpdate(CFDictionaryRef query, CFDictionaryRef attributesToUpdate)`
#[allow(non_snake_case)]
pub fn SecItemUpdate(env: &mut Environment, query: GuestAddr, attrs: GuestAddr) -> (r: i32)
    ensures
        r == ERR_SEC_SUCCESS,
        *final(env) == *old(env),
{
    ERR_SEC_SUCCESS
}

/// `OSStatus SecItemDelete(CFDictionaryRef query)`
#[allow(non_snake_case)]
pub fn SecItemDelete(env: &mut Environment, query: GuestAddr) -> (r: i32)
    ensures
        r == ERR_SEC_SUCCESS,
        *final(env) == *old(env),
{
    ERR_SEC_SUCCESS
}

pub const KCC_SUCCESS: i32 = 0;

pub const KCC_BUFFER_TOO_SMALL: i32 = -4301;

/// Whether `CCCrypt` copies anything.
pub open spec fn crypt_copies(data_in: GuestAddr, len: u32, data_out: GuestAddr) -> bool {
    len > 0 && data_in != NULL && data_out != NULL
}

/// Memory after a `CCCrypt` that succeeds.
pub open spec fn crypted(
    mem: MemState,
    data_in: GuestAddr,
    len: u32,
    data_out: GuestAddr,
    moved: GuestAddr,
) -> MemState {
    let copied = if crypt_copies(data_in, len, data_out) {
        mem.write(data_out as int, mem.bytes_at(data_in as int, len as int))
    } else {
        mem
    };
    if moved != NULL {
        copied.write_u32(moved as int, len)
    } else {
        copied
    }
}

/// `CCCrypt`: one-shot CommonCrypto encrypt/decrypt.
///
/// TODO: real cipher (AES/DES). For now this is a PASSTHROUGH stub: it copies the
/// input to the output unchanged and reports `kCCSuccess`. This unblocks apps
/// that round-trip their own data (encrypt then later decrypt, which preserves
/// the data) or that only encrypt for transport (e.g. an ad SDK). It does NOT
/// correctly decrypt data encrypted elsewhere (e.g. a pre-encrypted asset).
#[allow(non_snake_case)]
pub fn CCCrypt(
    env: &mut Environment,
    op: u32,
    alg: u32,
    options: u32,
    key: GuestAddr,
    key_length: u32,
    iv: GuestAddr,
    data_in: GuestAddr,
    data_in_length: u32,
    data_out: GuestAddr,
    data_out_available: u32,
    data_out_moved: GuestAddr,
) -> (r: i32)
    requires
        old(env).wf(),
        data_out_available >= data_in_length ==> {
            &&& crypt_copies(data_in, data_in_length, data_out) ==> {
                &&& old(env).mem@.valid(data_in as int, data_in_length as int)
                &&& old(env).mem@.valid(data_out as int, data_in_length as int)
            }
            &&& data_out_moved == NULL || old(env).mem@.valid(data_out_moved as int, 4)
        },
    ensures
        final(env).wf(),
        if data_out_available < data_in_length {
            r == KCC_BUFFER_TOO_SMALL && final(env).mem@ == old(env).mem@
        } else {
            r == KCC_SUCCESS && final(env).mem@ == crypted(
                old(env).mem@,
                data_in,
                data_in_length,
                data_out,
                data_out_moved,
            )
        },
        *final(env) == (Environment { mem: final(env).mem, ..*old(env) }),
{
    if data_out_available < data_in_length {
        return KCC_BUFFER_TOO_SMALL;
    }
    if data_in_length > 0 && data_in != NULL && data_out != NULL {
        let input: Vec<u8> = env.mem.bytes_at(data_in, data_in_length);
        env.mem.write_bytes(data_out, &input);
    }
    if data_out_moved != NULL {
        env.mem.write_u32(data_out_moved, data_in_length);
    }
    KCC_SUCCESS
}

/// Whether the four bytes at `p` are clear of the `len` bytes at `at`, or `p` is
/// null.
pub open spec fn clear_of(p: GuestAddr, at: GuestAddr, len: u32) -> bool {
    p == NULL || p + 4 <= at || at + len <= p
}

/// Encrypting data to `mid` and decrypting that to `out` gives the data back.
/// The two calls must not report their lengths into the data.
pub proof fn law_crypt_round_trip(
    mem: MemState,
    data: GuestAddr,
    len: u32,
    mid: GuestAddr,
    moved: GuestAddr,
    out: GuestAddr,
    moved_again: GuestAddr,
)
    requires
        mem.wf(),
        data != NULL,
        mid != NULL,
        out != NULL,
        mem.valid(data as int, len as int),
        mem.valid(mid as int, len as int),
        mem.valid(out as int, len as int),
        moved == NULL || mem.valid(moved as int, 4),
        moved_again == NULL || mem.valid(moved_again as int, 4),
        clear_of(moved, mid, len),
        clear_of(moved_again, out, len),
    ensures
        crypted(crypted(mem, data, len, mid, moved), mid, len, out, moved_again).bytes_at(
            out as int,
            len as int,
        ) == mem.bytes_at(data as int, len as int),
{
    let first = crypted(mem, data, len, mid, moved);
    let second = crypted(first, mid, len, out, moved_again);
    assert(second.bytes_at(out as int, len as int) =~= mem.bytes_at(data as int, len as int));
}

/// Data passes through `CCCrypt` unchanged, and its length is reported where that is
/// asked for. Nothing else changes, and nothing at all where there is no data or no
/// place for it.
pub proof fn law_crypt_passes_data_through(
    mem: MemState,
    data: GuestAddr,
    len: u32,
    out: GuestAddr,
    moved: GuestAddr,
    other: int,
)
    requires
        mem.wf(),
        data == NULL || mem.valid(data as int, len as int),
        out == NULL || mem.valid(out as int, len as int),
        moved == NULL || mem.valid(moved as int, 4),
        clear_of(moved, out, len),
        0 <= other < mem.bytes.len(),
    ensures
        ({
            let after = crypted(mem, data, len, out, moved);
            &&& data != NULL && out != NULL ==> after.bytes_at(out as int, len as int)
                == mem.bytes_at(data as int, len as int)
            &&& moved != NULL ==> after.u32_at(moved as int) == len
            &&& (data == NULL || out == NULL || other < out || out + len <= other) && (moved == NULL
                || other < moved || moved + 4 <= other) ==> after.bytes[other] == mem.bytes[other]
            &&& after.live == mem.live
        }),
{
    let copied = crypted(mem, data, len, out, NULL);
    let after = crypted(mem, data, len, out, moved);
    if moved != NULL {
        crate::mem::lemma_le32_roundtrip(copied.bytes, moved as int, len);
    }
    if data != NULL && out != NULL {
        assert(after.bytes_at(out as int, len as int) =~= mem.bytes_at(data as int, len as int));
    }
}

/// What is done with hash contexts leaves all else of the environment alone, but for
/// memory.
pub proof fn law_contexts_are_apart(pre: Environment, post: Environment)
    ensures
        ({
            let after = with_contexts(pre, post);
            &&& after.mem == post.mem
            &&& after.libc_state.crypto == post.libc_state.crypto
            &&& after.libc_state.stdlib == pre.libc_state.stdlib
            &&& after.libc_state.unwind_sjlj == pre.libc_state.unwind_sjlj
            &&& after.libc_state.zlib == pre.libc_state.zlib
            &&& after.errno == pre.errno
            &&& after.env_vars == pre.env_vars
            &&& after.current_thread == pre.current_thread
            &&& after.regs == pre.regs
            &&& after.executable_path == pre.executable_path
            &&& after.ctype_locale == pre.ctype_locale
        }),
{
}

/// The one-shot functions write just the digest of the data, whatever is at the place
/// that they write to, and give that place back.
pub proof fn law_one_shot_digests(
    data: GuestAddr,
    len: u32,
    md: GuestAddr,
    r: GuestAddr,
    other: int,
)
    ensures
        forall|x: &mut Environment|
            #[trigger] call_ensures(CC_MD5, (x, data, len, md), r) && x.mem@.valid(md as int, 16)
                && x.wf() ==> {
                &&& r == md
                &&& final(x).mem@.bytes_at(md as int, 16) == md5_of(
                    x.mem@.bytes_at(data as int, len as int),
                )@
                &&& 0 <= other < x.mem@.bytes.len() && (other < md || md + 16 <= other) ==> final(x).mem@.bytes[other] == x.mem@.bytes[other]
            },
        forall|x: &mut Environment|
            #[trigger] call_ensures(CC_SHA1, (x, data, len, md), r) && x.mem@.valid(md as int, 20)
                && x.wf() ==> {
                &&& r == md
                &&& final(x).mem@.bytes_at(md as int, 20) == sha1_of(
                    x.mem@.bytes_at(data as int, len as int),
                )@
                &&& 0 <= other < x.mem@.bytes.len() && (other < md || md + 20 <= other) ==> final(x).mem@.bytes[other] == x.mem@.bytes[other]
            },
        forall|x: &mut Environment|
            #[trigger] call_ensures(CC_SHA256, (x, data, len, md), r) && x.mem@.valid(
                md as int,
                32,
            ) && x.wf() ==> {
                &&& r == md
                &&& final(x).mem@.bytes_at(md as int, 32) == sha256_of(
                    x.mem@.bytes_at(data as int, len as int),
                )@
                &&& 0 <= other < x.mem@.bytes.len() && (other < md || md + 32 <= other) ==> final(x).mem@.bytes[other] == x.mem@.bytes[other]
            },
{
    assert forall|x: &mut Environment|
        #[trigger] call_ensures(CC_MD5, (x, data, len, md), r) && x.mem@.valid(md as int, 16)
            && x.wf() implies final(x).mem@.bytes_at(md as int, 16) == md5_of(
        x.mem@.bytes_at(data as int, len as int),
    )@ by {
        assert(final(x).mem@.bytes_at(md as int, 16) =~= md5_of(
            x.mem@.bytes_at(data as int, len as int),
        )@);
    }
    assert forall|x: &mut Environment|
        #[trigger] call_ensures(CC_SHA1, (x, data, len, md), r) && x.mem@.valid(md as int, 20)
            && x.wf() implies final(x).mem@.bytes_at(md as int, 20) == sha1_of(
        x.mem@.bytes_at(data as int, len as int),
    )@ by {
        assert(final(x).mem@.bytes_at(md as int, 20) =~= sha1_of(
            x.mem@.bytes_at(data as int, len as int),
        )@);
    }
    assert forall|x: &mut Environment|
        #[trigger] call_ensures(CC_SHA256, (x, data, len, md), r) && x.mem@.valid(md as int, 32)
            && x.wf() implies final(x).mem@.bytes_at(md as int, 32) == sha256_of(
        x.mem@.bytes_at(data as int, len as int),
    )@ by {
        assert(final(x).mem@.bytes_at(md as int, 32) =~= sha256_of(
            x.mem@.bytes_at(data as int, len as int),
        )@);
    }
}

} // verus!
