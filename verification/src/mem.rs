//! Guest memory: a flat, byte-addressed, little-endian 32-bit address space
//! with a heap.
//!
//! A guest address is a plain `u32`. The lowest addresses form the null
//! segment, which nothing may access, so the null pointer is never valid.
use vstd::prelude::*;

verus! {

/// A guest pointer, as the bits of the address.
pub type GuestAddr = u32;

/// The guest's `size_t`.
pub type GuestUSize = u32;

/// The null pointer.
pub const NULL: GuestAddr = 0;

/// Every heap block starts on this boundary and has a multiple of it as size.
pub const BLOCK_ALIGN: u32 = 16;

/// `valloc` hands out blocks on this boundary.
pub const PAGE_ALIGN: u32 = 4096;

/// What a guest program can observe of its memory.
#[verifier::ext_equal]
pub struct MemState {
    /// The byte at each address.
    pub bytes: Seq<u8>,
    /// Addresses below this one are the null segment.
    pub null_size: int,
    /// Heap blocks lie at or above this address.
    pub heap_base: int,
    /// The size of each live heap block, by the block's address.
    pub live: Map<u32, u32>,
}

/// `s` with `data` written over it from index `at` on.
pub open spec fn splice(s: Seq<u8>, at: int, data: Seq<u8>) -> Seq<u8> {
    Seq::new(s.len(), |i: int| if at <= i < at + data.len() { data[i - at] } else { s[i] })
}

/// The 32-bit little-endian number at index `at` of `s`.
pub open spec fn le32(s: Seq<u8>, at: int) -> int {
    s[at] + 256 * s[at + 1] + 65536 * s[at + 2] + 16777216 * s[at + 3]
}

/// The four little-endian bytes of `v`.
pub open spec fn le32_bytes(v: u32) -> Seq<u8> {
    seq![
        (v as int % 256) as u8,
        (v as int / 256 % 256) as u8,
        (v as int / 65536 % 256) as u8,
        (v as int / 16777216) as u8,
    ]
}

/// The two little-endian bytes of `v`.
pub open spec fn le16_bytes(v: u16) -> Seq<u8> {
    seq![(v as int % 256) as u8, (v as int / 256) as u8]
}

/// The index of the first zero byte of `s` at or after `at`, or the length of
/// `s` where there is none.
pub open spec fn nul_index(s: Seq<u8>, at: int) -> int
    decreases s.len() - at,
{
    if at >= s.len() {
        s.len() as int
    } else if s[at] == 0 {
        at
    } else {
        nul_index(s, at + 1)
    }
}

/// Whether `a` lies on a page boundary, where `page` holds, or else on a block
/// boundary.
pub open spec fn aligned(a: int, page: bool) -> bool {
    if page {
        a % 4096 == 0
    } else {
        a % 16 == 0
    }
}

/// The size of the heap block that a request for `size` bytes gets.
pub open spec fn block_size(size: int) -> int {
    if size <= BLOCK_ALIGN {
        BLOCK_ALIGN as int
    } else {
        (size + 15) / 16 * 16
    }
}

impl MemState {
    pub open spec fn wf(self) -> bool {
        &&& self.bytes.len() <= 0x1_0000_0000
        &&& BLOCK_ALIGN <= self.null_size <= self.heap_base <= self.bytes.len()
        &&& forall|a: u32| #[trigger]
            self.live.contains_key(a) ==> {
                &&& self.heap_base <= a
                &&& a + self.live[a] <= self.bytes.len()
                &&& self.live[a] >= BLOCK_ALIGN
                &&& a % BLOCK_ALIGN == 0
            }
        &&& forall|a: u32, b: u32|
            (#[trigger] self.live.contains_key(a)) && (#[trigger] self.live.contains_key(b)) && a < b
                ==> a + self.live[a] <= b
    }

    /// Whether the `len` bytes at `addr` may be accessed.
    pub open spec fn valid(self, addr: int, len: int) -> bool {
        self.null_size <= addr && addr + len <= self.bytes.len()
    }

    pub open spec fn write(self, addr: int, data: Seq<u8>) -> MemState {
        MemState { bytes: splice(self.bytes, addr, data), ..self }
    }

    pub open spec fn write_u32(self, addr: int, v: u32) -> MemState {
        self.write(addr, le32_bytes(v))
    }

    pub open spec fn u32_at(self, addr: int) -> u32 {
        le32(self.bytes, addr) as u32
    }

    pub open spec fn bytes_at(self, addr: int, len: int) -> Seq<u8> {
        self.bytes.subrange(addr, addr + len)
    }

    /// Whether a NUL-terminated string starts at `addr`.
    pub open spec fn has_cstr(self, addr: int) -> bool {
        self.null_size <= addr && nul_index(self.bytes, addr) < self.bytes.len()
    }

    /// The bytes of the string at `addr`, without the terminator.
    pub open spec fn cstr(self, addr: int) -> Seq<u8> {
        self.bytes.subrange(addr, nul_index(self.bytes, addr))
    }

    /// Whether a block of `n` bytes at `a` would lie in the heap, clear of all
    /// live blocks and, where `page` holds, on a page boundary.
    pub open spec fn gap(self, a: int, n: int, page: bool) -> bool {
        &&& aligned(a, page)
        &&& self.heap_base <= a
        &&& a + n <= self.bytes.len()
        &&& forall|b: u32| #[trigger]
            self.live.contains_key(b) ==> b + self.live[b] <= a || a + n <= b
    }

    /// Whether the heap can serve a request for `size` bytes.
    pub open spec fn has_room(self, size: int, page: bool) -> bool {
        exists|a: int| #[trigger] self.gap(a, block_size(size), page)
    }

    pub open spec fn with_block(self, a: u32, n: u32) -> MemState {
        MemState { live: self.live.insert(a, n), ..self }
    }

    pub open spec fn without_block(self, a: u32) -> MemState {
        MemState { live: self.live.remove(a), ..self }
    }
}

/// Whether `post` is `pre` with a block for `size` bytes taken at `r`.
pub open spec fn takes_block(
    pre: MemState,
    post: MemState,
    r: GuestAddr,
    size: int,
    page: bool,
) -> bool {
    &&& r != NULL
    &&& pre.gap(r as int, block_size(size), page)
    &&& size <= block_size(size) <= u32::MAX
    &&& post == pre.with_block(r, block_size(size) as u32)
}

/// Whether `post` is `pre` with a block taken at `r` that holds `data`.
pub open spec fn takes_block_with(
    pre: MemState,
    post: MemState,
    r: GuestAddr,
    data: Seq<u8>,
) -> bool {
    &&& r != NULL
    &&& pre.gap(r as int, block_size(data.len() as int), false)
    &&& data.len() <= block_size(data.len() as int) <= u32::MAX
    &&& post == pre.with_block(r, block_size(data.len() as int) as u32).write(r as int, data)
}

/// Whether `post` is what `realloc` makes of `pre` for the live block at `ptr`:
/// the block stays where it is large enough, and else moves with its contents.
pub open spec fn moves_block(
    pre: MemState,
    post: MemState,
    ptr: GuestAddr,
    size: int,
    r: GuestAddr,
) -> bool {
    if pre.live[ptr] >= size {
        r == ptr && post == pre
    } else {
        &&& r != NULL
        &&& pre.gap(r as int, block_size(size), false)
        &&& size <= block_size(size) <= u32::MAX
        &&& post == pre.with_block(r, block_size(size) as u32).write(
            r as int,
            pre.bytes_at(ptr as int, pre.live[ptr] as int),
        ).without_block(ptr)
    }
}

/// Reading back a number gives what was written.
pub proof fn lemma_le32_roundtrip(s: Seq<u8>, at: int, v: u32)
    requires
        0 <= at,
        at + 4 <= s.len(),
    ensures
        le32(splice(s, at, le32_bytes(v)), at) == v,
{
    let t = splice(s, at, le32_bytes(v));
    assert(t[at] == (v as int % 256) as u8);
    assert(t[at + 1] == (v as int / 256 % 256) as u8);
    assert(t[at + 2] == (v as int / 65536 % 256) as u8);
    assert(t[at + 3] == (v as int / 16777216) as u8);
}

/// A write leaves every number outside the written bytes as it was.
pub proof fn lemma_le32_frame(s: Seq<u8>, at: int, data: Seq<u8>, other: int)
    requires
        0 <= other,
        other + 4 <= s.len(),
        other + 4 <= at || at + data.len() <= other,
    ensures
        le32(splice(s, at, data), other) == le32(s, other),
{
}

pub proof fn lemma_nul_index(s: Seq<u8>, at: int)
    requires
        0 <= at <= s.len(),
    ensures
        at <= nul_index(s, at) <= s.len(),
        nul_index(s, at) < s.len() ==> s[nul_index(s, at)] == 0,
        forall|i: int| at <= i < nul_index(s, at) ==> s[i] != 0,
    decreases s.len() - at,
{
    if at < s.len() && s[at] != 0 {
        lemma_nul_index(s, at + 1);
    }
}

/// The first zero byte is where a zero byte follows only non-zero ones.
pub proof fn lemma_nul_index_is(s: Seq<u8>, at: int, n: int)
    requires
        0 <= at <= n < s.len(),
        s[n] == 0,
        forall|i: int| at <= i < n ==> s[i] != 0,
    ensures
        nul_index(s, at) == n,
    decreases n - at,
{
    if at < n {
        lemma_nul_index_is(s, at + 1, n);
    }
}

/// A live heap block.
#[derive(Clone, Copy)]
struct Block {
    base: u32,
    size: u32,
}

spec fn has_base(s: Seq<Block>, a: u32) -> bool {
    exists|i: int| 0 <= i < s.len() && (#[trigger] s[i]).base == a
}

spec fn block_map(s: Seq<Block>) -> Map<u32, u32> {
    Map::new(
        |a: u32| has_base(s, a),
        |a: u32| s[choose|i: int| 0 <= i < s.len() && (#[trigger] s[i]).base == a].size,
    )
}

spec fn distinct_bases(s: Seq<Block>) -> bool {
    forall|i: int, j: int| 0 <= i < j < s.len() ==> (#[trigger] s[i]).base != (#[trigger] s[j]).base
}

proof fn lemma_block_map_at(s: Seq<Block>, i: int)
    requires
        distinct_bases(s),
        0 <= i < s.len(),
    ensures
        block_map(s).contains_key(s[i].base),
        block_map(s)[s[i].base] == s[i].size,
{
    let a = s[i].base;
    assert(has_base(s, a));
    let j = choose|j: int| 0 <= j < s.len() && (#[trigger] s[j]).base == a;
    assert(i == j);
}

proof fn lemma_block_map_push(s: Seq<Block>, b: Block)
    requires
        distinct_bases(s),
        !has_base(s, b.base),
    ensures
        distinct_bases(s.push(b)),
        block_map(s.push(b)) == block_map(s).insert(b.base, b.size),
{
    let t = s.push(b);
    assert(distinct_bases(t));
    assert forall|a: u32| has_base(t, a) == (a == b.base || has_base(s, a)) by {
        if has_base(s, a) {
            let i = choose|i: int| 0 <= i < s.len() && (#[trigger] s[i]).base == a;
            assert(t[i].base == a);
        }
        if a == b.base {
            assert(t[s.len() as int].base == a);
        }
        if has_base(t, a) {
            let i = choose|i: int| 0 <= i < t.len() && (#[trigger] t[i]).base == a;
            if i < s.len() {
                assert(s[i].base == a);
            }
        }
    }
    assert forall|a: u32| has_base(t, a) implies block_map(t)[a] == block_map(s).insert(
        b.base,
        b.size,
    )[a] by {
        let i = choose|i: int| 0 <= i < t.len() && (#[trigger] t[i]).base == a;
        lemma_block_map_at(t, i);
        if i < s.len() {
            assert(s[i].base == a);
            lemma_block_map_at(s, i);
        }
    }
    assert(block_map(t) =~= block_map(s).insert(b.base, b.size));
}

proof fn lemma_block_map_remove(s: Seq<Block>, k: int)
    requires
        distinct_bases(s),
        0 <= k < s.len(),
    ensures
        distinct_bases(s.remove(k)),
        block_map(s.remove(k)) == block_map(s).remove(s[k].base),
{
    let t = s.remove(k);
    assert forall|i: int| 0 <= i < t.len() implies #[trigger] t[i] == (if i < k {
        s[i]
    } else {
        s[i + 1]
    }) by {}
    assert(distinct_bases(t));
    assert forall|a: u32| has_base(t, a) == (a != s[k].base && has_base(s, a)) by {
        if a != s[k].base && has_base(s, a) {
            let i = choose|i: int| 0 <= i < s.len() && (#[trigger] s[i]).base == a;
            if i < k {
                assert(t[i].base == a);
            } else {
                assert(t[i - 1].base == a);
            }
        }
        if has_base(t, a) {
            let i = choose|i: int| 0 <= i < t.len() && (#[trigger] t[i]).base == a;
            if i < k {
                assert(s[i].base == a);
            } else {
                assert(s[i + 1].base == a);
            }
        }
    }
    assert forall|a: u32| has_base(t, a) implies block_map(t)[a] == block_map(s)[a] by {
        let i = choose|i: int| 0 <= i < t.len() && (#[trigger] t[i]).base == a;
        lemma_block_map_at(t, i);
        lemma_block_map_at(
            s,
            if i < k {
                i
            } else {
                i + 1
            },
        );
    }
    assert(block_map(t) =~= block_map(s).remove(s[k].base));
}

/// The guest's memory.
pub struct Mem {
    bytes: Vec<u8>,
    null_size: u32,
    heap_base: u32,
    blocks: Vec<Block>,
}

impl View for Mem {
    type V = MemState;

    closed spec fn view(&self) -> MemState {
        MemState {
            bytes: self.bytes@,
            null_size: self.null_size as int,
            heap_base: self.heap_base as int,
            live: block_map(self.blocks@),
        }
    }
}

impl Mem {
    pub closed spec fn distinct(&self) -> bool {
        distinct_bases(self.blocks@)
    }

    pub open spec fn wf(&self) -> bool {
        &&& self@.wf()
        &&& self.distinct()
    }

    /// A zeroed memory of `size` bytes with nothing on its heap.
    pub fn new(size: usize, null_size: u32, heap_base: u32) -> (mem: Mem)
        requires
            size <= 0x1_0000_0000,
            BLOCK_ALIGN <= null_size <= heap_base <= size,
        ensures
            mem.wf(),
            mem@.bytes == Seq::new(size as nat, |i: int| 0u8),
            mem@.null_size == null_size,
            mem@.heap_base == heap_base,
            mem@.live == Map::<u32, u32>::empty(),
    {
        let bytes: Vec<u8> = vec![0u8; size];
        let blocks: Vec<Block> = Vec::new();
        let mem = Mem { bytes, null_size, heap_base, blocks };
        assert(mem@.bytes =~= Seq::new(size as nat, |i: int| 0u8));
        assert(mem@.live =~= Map::<u32, u32>::empty());
        mem
    }

    /// The number of addresses, the null segment's among them.
    pub fn size(&self) -> (r: usize)
        ensures
            r == self@.bytes.len(),
    {
        self.bytes.len()
    }

    /// Whether the `len` bytes at `addr` may be accessed.
    pub fn is_valid(&self, addr: GuestAddr, len: GuestUSize) -> (r: bool)
        ensures
            r == self@.valid(addr as int, len as int),
    {
        self.null_size <= addr && addr as u64 + len as u64 <= self.bytes.len() as u64
    }

    /// Whether a NUL-terminated string starts at `addr`.
    pub fn has_cstr(&self, addr: GuestAddr) -> (r: bool)
        requires
            self.wf(),
        ensures
            r == self@.has_cstr(addr as int),
    {
        if addr < self.null_size {
            return false;
        }
        let mut i: usize = addr as usize;
        while i < self.bytes.len()
            invariant
                self.wf(),
                self@.bytes == self.bytes@,
                self@.null_size <= addr,
                nul_index(self@.bytes, addr as int) == nul_index(self@.bytes, i as int),
            decreases self.bytes@.len() - i,
        {
            if self.bytes[i] == 0 {
                return true;
            }
            i += 1;
        }
        false
    }

    /// Whether a block is live at `addr`.
    pub fn is_live(&self, addr: GuestAddr) -> (r: bool)
        requires
            self.wf(),
        ensures
            r == self@.live.contains_key(addr),
    {
        let mut i: usize = 0;
        while i < self.blocks.len()
            invariant
                i <= self.blocks@.len(),
                forall|j: int| 0 <= j < i ==> (#[trigger] self.blocks@[j]).base != addr,
            decreases self.blocks@.len() - i,
        {
            if self.blocks[i].base == addr {
                return true;
            }
            i += 1;
        }
        false
    }

    /// Whether the heap can serve a request for `size` bytes, on a page boundary
    /// where `page` holds.
    pub fn has_room(&self, size: GuestUSize, page: bool) -> (r: bool)
        requires
            self.wf(),
        ensures
            r == self@.has_room(size as int, page),
    {
        self.find_gap(Self::rounded(size), page).is_some()
    }

    pub fn read_u8(&self, addr: GuestAddr) -> (r: u8)
        requires
            self@.valid(addr as int, 1),
        ensures
            r == self@.bytes[addr as int],
    {
        self.bytes[addr as usize]
    }

    pub fn write_u8(&mut self, addr: GuestAddr, v: u8)
        requires
            old(self).wf(),
            old(self)@.valid(addr as int, 1),
        ensures
            final(self).wf(),
            final(self)@ == old(self)@.write(addr as int, seq![v]),
    {
        self.bytes.set(addr as usize, v);
        assert(self@.live == old(self)@.live);
        assert(self@.bytes =~= splice(old(self)@.bytes, addr as int, seq![v]));
    }

    pub fn read_u32(&self, addr: GuestAddr) -> (r: u32)
        requires
            self.wf(),
            self@.valid(addr as int, 4),
        ensures
            r == self@.u32_at(addr as int),
            r == le32(self@.bytes, addr as int),
    {
        let i: usize = addr as usize;
        self.bytes[i] as u32 + 256 * self.bytes[i + 1] as u32 + 65536 * self.bytes[i + 2] as u32
            + 16777216 * self.bytes[i + 3] as u32
    }

    pub fn write_u32(&mut self, addr: GuestAddr, v: u32)
        requires
            old(self).wf(),
            old(self)@.valid(addr as int, 4),
        ensures
            final(self).wf(),
            final(self)@ == old(self)@.write_u32(addr as int, v),
            final(self)@.u32_at(addr as int) == v,
    {
        let i: usize = addr as usize;
        self.bytes.set(i, (v % 256) as u8);
        self.bytes.set(i + 1, (v / 256 % 256) as u8);
        self.bytes.set(i + 2, (v / 65536 % 256) as u8);
        self.bytes.set(i + 3, (v / 16777216) as u8);
        proof {
            assert(self@.live == old(self)@.live);
            assert(self@.bytes =~= splice(old(self)@.bytes, addr as int, le32_bytes(v)));
            lemma_le32_roundtrip(old(self)@.bytes, addr as int, v);
        }
    }

    pub fn write_u16(&mut self, addr: GuestAddr, v: u16)
        requires
            old(self).wf(),
            old(self)@.valid(addr as int, 2),
        ensures
            final(self).wf(),
            final(self)@ == old(self)@.write(addr as int, le16_bytes(v)),
    {
        let i: usize = addr as usize;
        self.bytes.set(i, (v % 256) as u8);
        self.bytes.set(i + 1, (v / 256) as u8);
        assert(self@.live == old(self)@.live);
        assert(self@.bytes =~= splice(old(self)@.bytes, addr as int, le16_bytes(v)));
    }

    /// A copy of the `len` bytes at `addr`.
    pub fn bytes_at(&self, addr: GuestAddr, len: GuestUSize) -> (r: Vec<u8>)
        requires
            self@.valid(addr as int, len as int),
        ensures
            r@ == self@.bytes_at(addr as int, len as int),
    {
        let start: usize = addr as usize;
        assert(start + len <= self.bytes.len());
        let end: usize = start + len as usize;
        let mut r: Vec<u8> = Vec::new();
        r.extend_from_slice(&self.bytes[start..end]);
        assert(r@ =~= self@.bytes_at(addr as int, len as int));
        r
    }

    /// Copies `data` to `addr`.
    pub fn write_bytes(&mut self, addr: GuestAddr, data: &Vec<u8>)
        requires
            old(self).wf(),
            old(self)@.valid(addr as int, data@.len() as int),
        ensures
            final(self).wf(),
            final(self)@ == old(self)@.write(addr as int, data@),
    {
        let start: usize = addr as usize;
        let mut i: usize = 0;
        while i < data.len()
            invariant
                start == addr,
                self.wf(),
                self@.null_size == old(self)@.null_size,
                self@.heap_base == old(self)@.heap_base,
                self@.live == old(self)@.live,
                start + data@.len() <= self@.bytes.len(),
                i <= data@.len(),
                self@.bytes =~= splice(old(self)@.bytes, addr as int, data@.take(i as int)),
            decreases data@.len() - i,
        {
            self.bytes.set(start + i, data[i]);
            i += 1;
        }
        assert(data@.take(i as int) =~= data@);
    }

    /// The length of the string at `s`.
    pub fn strlen(&self, s: GuestAddr) -> (r: GuestUSize)
        requires
            self.wf(),
            self@.has_cstr(s as int),
        ensures
            r == self@.cstr(s as int).len(),
            self@.valid(s as int, r + 1),
    {
        let mut i: usize = s as usize;
        proof {
            lemma_nul_index(self@.bytes, s as int);
        }
        while self.bytes[i] != 0
            invariant
                s <= i < self.bytes@.len(),
                self.wf(),
                self@.bytes == self.bytes@,
                nul_index(self@.bytes, s as int) == nul_index(self@.bytes, i as int),
                nul_index(self@.bytes, s as int) < self@.bytes.len(),
            decreases self.bytes@.len() - i,
        {
            proof {
                lemma_nul_index(self@.bytes, i + 1);
            }
            i += 1;
        }
        (i - s as usize) as u32
    }

    /// A copy of the string at `s`, without the terminator.
    pub fn cstr_at(&self, s: GuestAddr) -> (r: Vec<u8>)
        requires
            self.wf(),
            self@.has_cstr(s as int),
        ensures
            r@ == self@.cstr(s as int),
    {
        let n: u32 = self.strlen(s);
        proof {
            lemma_nul_index(self@.bytes, s as int);
        }
        self.bytes_at(s, n)
    }

    /// Whether a block of `n` bytes could be placed at `addr`.
    fn fits(&self, addr: u64, n: u64) -> (r: bool)
        requires
            self.wf(),
            addr <= 0x1_0000_1000,
            n <= 0x1_0000_0000,
        ensures
            r == {
                &&& addr + n <= self@.bytes.len()
                &&& forall|b: u32| #[trigger]
                    self@.live.contains_key(b) ==> b + self@.live[b] <= addr || addr + n <= b
            },
    {
        if addr + n > self.bytes.len() as u64 {
            return false;
        }
        let mut i: usize = 0;
        while i < self.blocks.len()
            invariant
                self.wf(),
                i <= self.blocks@.len(),
                addr + n <= self@.bytes.len(),
                forall|j: int|
                    0 <= j < i ==> (#[trigger] self.blocks@[j]).base + self.blocks@[j].size <= addr
                        || addr + n <= self.blocks@[j].base,
            decreases self.blocks@.len() - i,
        {
            let b = self.blocks[i];
            proof {
                lemma_block_map_at(self.blocks@, i as int);
            }
            if addr < b.base as u64 + b.size as u64 && (b.base as u64) < addr + n {
                assert(self@.live.contains_key(b.base));
                return false;
            }
            i += 1;
        }
        assert forall|b: u32| #[trigger] self@.live.contains_key(b) implies b + self@.live[b]
            <= addr || addr + n <= b by {
            let j = choose|j: int| 0 <= j < self.blocks@.len() && (#[trigger] self.blocks@[j]).base == b;
            lemma_block_map_at(self.blocks@, j);
        }
        true
    }

    /// The first address at or after `addr` on the requested boundary.
    fn align_up(addr: u64, page: bool) -> (r: u64)
        requires
            addr <= 0x1_0000_0000,
        ensures
            aligned(r as int, page),
            addr <= r < addr + (if page { PAGE_ALIGN } else { BLOCK_ALIGN }),
    {
        if page {
            let r: u64 = (addr + 4095) / 4096 * 4096;
            r
        } else {
            let r: u64 = (addr + 15) / 16 * 16;
            r
        }
    }

    /// Where a block of `n` bytes can go, if anywhere.
    fn find_gap(&self, n: u64, page: bool) -> (r: Option<u32>)
        requires
            self.wf(),
            BLOCK_ALIGN <= n <= 0x1_0000_0000,
        ensures
            match r {
                Some(a) => self@.gap(a as int, n as int, page),
                None => forall|a: int| !#[trigger] self@.gap(a, n as int, page),
            },
    {
        let first: u64 = Self::align_up(self.heap_base as u64, page);
        if self.fits(first, n) {
            return Some(first as u32);
        }
        let mut i: usize = 0;
        while i < self.blocks.len()
            invariant
                self.wf(),
                BLOCK_ALIGN <= n <= 0x1_0000_0000,
                i <= self.blocks@.len(),
                forall|j: int, c: int|
                    0 <= j < i && #[trigger] self.least_aligned(c, self.end_of(j), page)
                        ==> !self@.gap(c, n as int, page),
            decreases self.blocks@.len() - i,
        {
            let b = self.blocks[i];
            proof {
                lemma_block_map_at(self.blocks@, i as int);
                assert(self@.live.contains_key(b.base));
            }
            let c: u64 = Self::align_up(b.base as u64 + b.size as u64, page);
            if self.fits(c, n) {
                return Some(c as u32);
            }
            assert(self.end_of(i as int) == b.base + b.size);
            assert forall|d: int| #[trigger]
                self.least_aligned(d, self.end_of(i as int), page) implies !self@.gap(
                d,
                n as int,
                page,
            ) by {
                assert(d == c);
            }
            i += 1;
        }
        proof {
            if exists|a: int| #[trigger] self@.gap(a, n as int, page) {
                let a = choose|a: int| #[trigger] self@.gap(a, n as int, page);
                self.lemma_slide_down(a, n as int, page, self.blocks@.len() as int);
                assert(self.least_aligned(first as int, self@.heap_base, page));
            }
        }
        None
    }

    spec fn end_of(&self, j: int) -> int {
        self.blocks@[j].base + self.blocks@[j].size
    }

    spec fn least_aligned(&self, c: int, from: int, page: bool) -> bool {
        &&& aligned(c, page)
        &&& from <= c < from + (if page {
            PAGE_ALIGN
        } else {
            BLOCK_ALIGN
        })
    }

    /// The greatest end of a block among the first `k` that is at most `a`, or
    /// the heap's base.
    spec fn floor_below(&self, a: int, k: int) -> int
        decreases k,
    {
        if k <= 0 {
            self@.heap_base
        } else {
            let rest = self.floor_below(a, k - 1);
            if rest < self.end_of(k - 1) <= a {
                self.end_of(k - 1)
            } else {
                rest
            }
        }
    }

    proof fn lemma_floor_below(&self, a: int, k: int)
        requires
            self.wf(),
            0 <= k <= self.blocks@.len(),
            self@.heap_base <= a,
        ensures
            self@.heap_base <= self.floor_below(a, k) <= a,
            forall|j: int| 0 <= j < k && #[trigger] self.end_of(j) <= a ==> self.end_of(j) <= self.floor_below(a, k),
            self.floor_below(a, k) == self@.heap_base || exists|j: int|
                0 <= j < k && self.floor_below(a, k) == #[trigger] self.end_of(j),
        decreases k,
    {
        if k > 0 {
            self.lemma_floor_below(a, k - 1);
        }
    }

    /// A gap can be slid down to the heap's base or to the end of a live block.
    proof fn lemma_slide_down(&self, a: int, n: int, page: bool, k: int)
        requires
            self.wf(),
            self@.gap(a, n, page),
            n >= BLOCK_ALIGN,
            k == self.blocks@.len(),
        ensures
            exists|c: int|
                self@.gap(c, n, page) && (self.least_aligned(c, self@.heap_base, page) || exists|
                    j: int,
                |
                    0 <= j < k && #[trigger] self.least_aligned(c, self.end_of(j), page)),
    {
        self.lemma_floor_below(a, k);
        let from = self.floor_below(a, k);
        let c: int = if page {
            (from + 4095) / 4096 * 4096
        } else {
            (from + 15) / 16 * 16
        };
        assert(self.least_aligned(c, from, page));
        assert(c <= a);
        assert forall|b: u32| #[trigger] self@.live.contains_key(b) implies b + self@.live[b] <= c
            || c + n <= b by {
            let j = choose|j: int| 0 <= j < k && (#[trigger] self.blocks@[j]).base == b;
            lemma_block_map_at(self.blocks@, j);
            assert(self.end_of(j) == b + self@.live[b]);
        }
        assert(self@.gap(c, n, page));
    }

    /// Takes a block for `size` bytes from the heap. Its contents are whatever
    /// that part of memory held.
    pub fn malloc(&mut self, size: GuestUSize) -> (r: GuestAddr)
        requires
            old(self).wf(),
            old(self)@.has_room(size as int, false),
        ensures
            final(self).wf(),
            takes_block(old(self)@, final(self)@, r, size as int, false),
    {
        self.alloc_inner(size, false)
    }

    /// As `malloc`, on a page boundary.
    pub fn valloc(&mut self, size: GuestUSize) -> (r: GuestAddr)
        requires
            old(self).wf(),
            old(self)@.has_room(size as int, true),
        ensures
            final(self).wf(),
            takes_block(old(self)@, final(self)@, r, size as int, true),
    {
        self.alloc_inner(size, true)
    }

    /// The size of the block that a request for `size` bytes gets.
    fn rounded(size: GuestUSize) -> (n: u64)
        ensures
            n == block_size(size as int),
            BLOCK_ALIGN <= n <= 0x1_0000_0000,
    {
        if size <= BLOCK_ALIGN {
            BLOCK_ALIGN as u64
        } else {
            (size as u64 + 15) / 16 * 16
        }
    }

    fn alloc_inner(&mut self, size: GuestUSize, page: bool) -> (r: GuestAddr)
        requires
            old(self).wf(),
            old(self)@.has_room(size as int, page),
        ensures
            final(self).wf(),
            takes_block(old(self)@, final(self)@, r, size as int, page),
    {
        let n: u64 = Self::rounded(size);
        match self.find_gap(n, page) {
            Some(a) => {
                let block = Block { base: a, size: n as u32 };
                proof {
                    if self@.live.contains_key(a) {
                        assert(a + self@.live[a] <= a || a + n <= a);
                    }
                    lemma_block_map_push(self.blocks@, block);
                }
                self.blocks.push(block);
                assert(self@ =~= old(self)@.with_block(a, n as u32));
                assert forall|b: u32| #[trigger] self@.live.contains_key(b) implies b == a
                    || old(self)@.live.contains_key(b) && self@.live[b] == old(self)@.live[b] by {}
                a
            },
            None => {
                assert(false);
                NULL
            },
        }
    }

    fn index_of(&self, addr: GuestAddr) -> (r: usize)
        requires
            self.wf(),
            self@.live.contains_key(addr),
        ensures
            r < self.blocks@.len(),
            self.blocks@[r as int].base == addr,
    {
        let mut i: usize = 0;
        while i < self.blocks.len()
            invariant
                self.wf(),
                has_base(self.blocks@, addr),
                i <= self.blocks@.len(),
                forall|j: int| 0 <= j < i ==> (#[trigger] self.blocks@[j]).base != addr,
            decreases self.blocks@.len() - i,
        {
            if self.blocks[i].base == addr {
                return i;
            }
            i += 1;
        }
        assert(false);
        i
    }

    /// The size of the live block at `addr`.
    pub fn malloc_size(&self, addr: GuestAddr) -> (r: GuestUSize)
        requires
            self.wf(),
            self@.live.contains_key(addr),
        ensures
            r == self@.live[addr],
    {
        let i: usize = self.index_of(addr);
        proof {
            lemma_block_map_at(self.blocks@, i as int);
        }
        self.blocks[i].size
    }

    /// Gives the live block at `addr` back to the heap.
    pub fn free(&mut self, addr: GuestAddr)
        requires
            old(self).wf(),
            old(self)@.live.contains_key(addr),
        ensures
            final(self).wf(),
            final(self)@ == old(self)@.without_block(addr),
    {
        let i: usize = self.index_of(addr);
        proof {
            lemma_block_map_remove(self.blocks@, i as int);
        }
        let _ = self.blocks.remove(i);
        assert(self@ =~= old(self)@.without_block(addr));
        assert forall|b: u32| #[trigger] self@.live.contains_key(b) implies old(
            self,
        )@.live.contains_key(b) && self@.live[b] == old(self)@.live[b] by {}
    }

    /// Whether the heap could serve a request for `size` bytes once the live block
    /// at `addr` is given back, which it is not.
    pub fn has_room_without(&mut self, addr: GuestAddr, size: GuestUSize, page: bool) -> (r: bool)
        requires
            old(self).wf(),
            old(self)@.live.contains_key(addr),
        ensures
            final(self).wf(),
            final(self)@ == old(self)@,
            r == old(self)@.without_block(addr).has_room(size as int, page),
    {
        let block = Block { base: addr, size: self.malloc_size(addr) };
        self.free(addr);
        let r: bool = self.has_room(size, page);
        proof {
            assert(!self@.live.contains_key(addr));
            lemma_block_map_push(self.blocks@, block);
        }
        self.blocks.push(block);
        assert(self@.live =~= old(self)@.live);
        assert(self@ =~= old(self)@);
        r
    }

    /// As `malloc`, with the `size` bytes zeroed.
    pub fn calloc(&mut self, size: GuestUSize) -> (r: GuestAddr)
        requires
            old(self).wf(),
            old(self)@.has_room(size as int, false),
        ensures
            final(self).wf(),
            takes_block_with(old(self)@, final(self)@, r, Seq::new(size as nat, |i: int| 0u8)),
    {
        let r: u32 = self.malloc(size);
        let zeros: Vec<u8> = vec![0u8; size as usize];
        assert(zeros@ =~= Seq::new(size as nat, |i: int| 0u8));
        self.write_bytes(r, &zeros);
        r
    }

    /// Makes the live block at `ptr` hold at least `size` bytes, at another
    /// place if need be.
    pub fn realloc(&mut self, ptr: GuestAddr, size: GuestUSize) -> (r: GuestAddr)
        requires
            old(self).wf(),
            old(self)@.live.contains_key(ptr),
            old(self)@.live[ptr] >= size || old(self)@.has_room(size as int, false),
        ensures
            final(self).wf(),
            moves_block(old(self)@, final(self)@, ptr, size as int, r),
    {
        let held: u32 = self.malloc_size(ptr);
        if held >= size {
            return ptr;
        }
        let r: u32 = self.malloc(size);
        let contents: Vec<u8> = self.bytes_at(ptr, held);
        self.write_bytes(r, &contents);
        self.free(ptr);
        r
    }

    /// Takes a block that holds `text` and a terminator.
    pub fn alloc_and_write_cstr(&mut self, text: &Vec<u8>) -> (r: GuestAddr)
        requires
            old(self).wf(),
            text@.len() < u32::MAX,
            old(self)@.has_room(text@.len() as int + 1, false),
        ensures
            final(self).wf(),
            takes_block_with(old(self)@, final(self)@, r, text@.push(0)),
    {
        let r: u32 = self.malloc(text.len() as u32 + 1);
        let mut data: Vec<u8> = text.clone();
        data.push(0);
        assert(data@ =~= text@.push(0));
        self.write_bytes(r, &data);
        r
    }
}

/// What was written is what is read, and nothing else has changed.
pub proof fn law_written_bytes_are_read(mem: MemState, addr: int, data: Seq<u8>, other: int, len: int)
    requires
        mem.wf(),
        mem.valid(addr, data.len() as int),
        mem.valid(other, len),
        len >= 0,
        other + len <= addr || addr + data.len() <= other,
    ensures
        mem.write(addr, data).wf(),
        mem.write(addr, data).bytes_at(addr, data.len() as int) == data,
        mem.write(addr, data).bytes_at(other, len) == mem.bytes_at(other, len),
{
    assert(mem.write(addr, data).bytes_at(addr, data.len() as int) =~= data);
    assert(mem.write(addr, data).bytes_at(other, len) =~= mem.bytes_at(other, len));
}

/// A block that was taken lies in the heap, apart from every other live block,
/// and nothing in memory changes by it.
pub proof fn law_blocks_are_apart(
    pre: MemState,
    post: MemState,
    r: GuestAddr,
    size: int,
    page: bool,
    other: GuestAddr,
)
    requires
        pre.wf(),
        0 <= size,
        takes_block(pre, post, r, size, page),
        pre.live.contains_key(other),
    ensures
        post.wf(),
        other != r,
        post.live.contains_key(other),
        post.live[other] == pre.live[other],
        other + post.live[other] <= r || r + post.live[r] <= other,
        post.live[r] >= size,
        post.bytes == pre.bytes,
{
    assert(pre.live.contains_key(other));
    assert forall|b: u32| #[trigger] post.live.contains_key(b) implies b == r
        || pre.live.contains_key(b) && post.live[b] == pre.live[b] by {}
}

/// Freeing a block undoes taking it.
pub proof fn law_free_undoes_malloc(
    pre: MemState,
    post: MemState,
    r: GuestAddr,
    size: int,
    page: bool,
)
    requires
        pre.wf(),
        takes_block(pre, post, r, size, page),
    ensures
        post.live.contains_key(r),
        post.without_block(r) == pre,
{
    if pre.live.contains_key(r) {
        assert(r + pre.live[r] <= r || r + block_size(size) <= r);
    }
    assert(post.without_block(r) =~= pre);
}

/// A block that was taken with contents holds them, and every other live block
/// keeps its own.
pub proof fn law_block_contents(
    pre: MemState,
    post: MemState,
    r: GuestAddr,
    data: Seq<u8>,
    other: GuestAddr,
)
    requires
        pre.wf(),
        takes_block_with(pre, post, r, data),
        pre.live.contains_key(other),
    ensures
        post.bytes_at(r as int, data.len() as int) == data,
        post.live[r] >= data.len(),
        post.bytes_at(other as int, pre.live[other] as int) == pre.bytes_at(
            other as int,
            pre.live[other] as int,
        ),
{
    assert(pre.live.contains_key(other));
    assert(post.bytes_at(r as int, data.len() as int) =~= data);
    assert(post.bytes_at(other as int, pre.live[other] as int) =~= pre.bytes_at(
        other as int,
        pre.live[other] as int,
    ));
}

/// What was in a block is still there after its size was changed, and the block
/// is large enough.
pub proof fn law_realloc_keeps_contents(
    pre: MemState,
    post: MemState,
    ptr: GuestAddr,
    size: int,
    r: GuestAddr,
)
    requires
        pre.wf(),
        pre.live.contains_key(ptr),
        moves_block(pre, post, ptr, size, r),
    ensures
        post.live.contains_key(r),
        post.live[r] >= size,
        post.bytes_at(r as int, pre.live[ptr] as int) == pre.bytes_at(
            ptr as int,
            pre.live[ptr] as int,
        ),
{
    if pre.live[ptr] < size {
        assert(pre.live.contains_key(ptr));
        assert(post.bytes_at(r as int, pre.live[ptr] as int) =~= pre.bytes_at(
            ptr as int,
            pre.live[ptr] as int,
        ));
    }
}

/// Numbers are in memory with their lowest byte first: reading one adds up the bytes
/// that are there, each counting 256 times the one before it, and writing one puts
/// there just the bytes that add up to it.
pub proof fn law_numbers_are_little_endian(mem: MemState, addr: int, v: u32, w: u16)
    requires
        mem.wf(),
        mem.valid(addr, 4),
    ensures
        ({
            let b = mem.bytes_at(addr, 4);
            mem.u32_at(addr) == b[0] + 0x100 * b[1] + 0x1_0000 * b[2] + 0x100_0000 * b[3]
        }),
        ({
            let b = mem.write_u32(addr, v).bytes_at(addr, 4);
            v == b[0] + 0x100 * b[1] + 0x1_0000 * b[2] + 0x100_0000 * b[3]
        }),
        mem.write_u32(addr, v).u32_at(addr) == v,
        le16_bytes(w).len() == 2,
        w == le16_bytes(w)[0] + 0x100 * le16_bytes(w)[1],
{
    lemma_le32_roundtrip(mem.bytes, addr, v);
    let after = mem.write_u32(addr, v);
    assert(after.bytes_at(addr, 4) =~= le32_bytes(v));
}

/// A number that is written changes its own four bytes and nothing else.
pub proof fn law_number_changes_four_bytes(mem: MemState, addr: int, v: u32, other: int)
    requires
        mem.wf(),
        mem.valid(addr, 4),
        0 <= other < mem.bytes.len(),
        other < addr || addr + 4 <= other,
    ensures
        mem.write_u32(addr, v).bytes[other] == mem.bytes[other],
        mem.write_u32(addr, v) == (MemState { bytes: mem.write_u32(addr, v).bytes, ..mem }),
{
}

/// A string is all up to the first zero: where there is some text without a zero in
/// it and a zero behind it, the string is just that text.
pub proof fn law_string_ends_at_zero(mem: MemState, s: int, text: Seq<u8>)
    requires
        mem.null_size <= s,
        0 <= s,
        s + text.len() < mem.bytes.len(),
        mem.bytes.subrange(s, s + text.len()) == text,
        forall|i: int| 0 <= i < text.len() ==> #[trigger] text[i] != 0,
        mem.bytes[s + text.len()] == 0,
    ensures
        mem.has_cstr(s),
        mem.cstr(s) == text,
{
    assert forall|i: int| s <= i < s + text.len() implies mem.bytes[i] != 0 by {
        assert(mem.bytes.subrange(s, s + text.len())[i - s] == text[i - s]);
    }
    lemma_nul_index_is(mem.bytes, s, s + text.len());
}

/// A block is as large as was asked for, with less than 16 bytes to spare where
/// anything was asked for, and lies on the boundary that was asked for.
pub proof fn law_blocks_are_aligned(
    pre: MemState,
    post: MemState,
    r: GuestAddr,
    size: int,
    page: bool,
)
    requires
        pre.wf(),
        0 <= size,
        takes_block(pre, post, r, size, page),
    ensures
        post.live.contains_key(r),
        size <= post.live[r],
        post.live[r] < size + 16 || size == 0 && post.live[r] == 16,
        post.live[r] % 16 == 0,
        r % 16 == 0,
        page ==> r % 4096 == 0,
        r >= pre.heap_base,
        r + post.live[r] <= pre.bytes.len(),
{
    if page {
        assert(r as int % 16 == 0) by (nonlinear_arith)
            requires
                r as int % 4096 == 0,
        ;
    }
}

/// A block that is given back makes room for another of its size.
pub proof fn law_freed_room_is_used_again(mem: MemState, a: GuestAddr, size: int)
    requires
        mem.wf(),
        mem.live.contains_key(a),
        0 <= size,
        block_size(size) <= mem.live[a],
    ensures
        mem.without_block(a).has_room(size, false),
{
    assert(mem.live.contains_key(a));
    assert(mem.without_block(a).gap(a as int, block_size(size), false)) by {
        assert forall|b: u32| #[trigger] mem.without_block(a).live.contains_key(b) implies b
            + mem.without_block(a).live[b] <= a || a + block_size(size) <= b by {
            assert(mem.live.contains_key(b) && mem.live.contains_key(a));
        }
    }
}

/// Changing a block's size leaves every other block where it is, with its contents.
/// A block that is large enough stays; one that has moved is no longer where it was.
pub proof fn law_realloc_keeps_others(
    pre: MemState,
    post: MemState,
    ptr: GuestAddr,
    size: int,
    r: GuestAddr,
    other: GuestAddr,
)
    requires
        pre.wf(),
        0 <= size,
        pre.live.contains_key(ptr),
        pre.live.contains_key(other),
        other != ptr,
        moves_block(pre, post, ptr, size, r),
    ensures
        size <= pre.live[ptr] ==> r == ptr && post == pre,
        size > pre.live[ptr] ==> r != ptr && !post.live.contains_key(ptr),
        other != r,
        post.live.contains_key(other),
        post.live[other] == pre.live[other],
        post.bytes_at(other as int, pre.live[other] as int) == pre.bytes_at(
            other as int,
            pre.live[other] as int,
        ),
{
    assert(pre.live.contains_key(other));
    assert(pre.live.contains_key(ptr));
    assert(post.bytes_at(other as int, pre.live[other] as int) =~= pre.bytes_at(
        other as int,
        pre.live[other] as int,
    ));
}

} // verus!
