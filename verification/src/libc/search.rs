//! `bsearch` and `dispatch_once`, which call back into the guest. The calls are
//! the caller's to make; what to call, and what follows, is decided here.
use crate::environment::Environment;
use crate::mem::{lemma_le32_roundtrip, GuestAddr, GuestUSize, MemState};
use vstd::prelude::*;

verus! {

/// A binary search under way: of `len` items from the one with index `low` on it
/// is not known yet how they compare to the key.
pub struct Bsearch {
    items: GuestAddr,
    item_size: GuestUSize,
    low: GuestUSize,
    len: GuestUSize,
}

/// The index of the item to compare the key with next.
pub open spec fn probe_index(low: int, len: int) -> int {
    low + len / 2
}

/// What is left to search after the key was compared with the item at
/// [probe_index]: the items above it where the key is greater, else those below.
pub open spec fn narrowed(low: int, len: int, key_is_greater: bool) -> (int, int) {
    if key_is_greater {
        (low + len / 2 + 1, len - len / 2 - 1)
    } else {
        (low, len / 2)
    }
}

/// The index at which a search ends that gets `compare(i)` as the answer for the
/// item with index `i`, if it finds one.
pub open spec fn bsearch_result(compare: spec_fn(int) -> int, low: int, len: int) -> Option<int>
    decreases len,
{
    if len <= 0 {
        None
    } else if compare(probe_index(low, len)) == 0 {
        Some(probe_index(low, len))
    } else {
        let (l, n) = narrowed(low, len, compare(probe_index(low, len)) > 0);
        bsearch_result(compare, l, n)
    }
}

/// Whether the answers are those of sorted items: the key is greater than all
/// items below one that it is not less than, and less than all items above one
/// that it is less than.
pub open spec fn sorted_for(compare: spec_fn(int) -> int, low: int, len: int) -> bool {
    forall|i: int, j: int|
        low <= i < j < low + len ==> (#[trigger] compare(i) < 0 ==> #[trigger] compare(j) < 0) && (
        compare(j) > 0 ==> compare(i) > 0)
}

/// A search finds only items that equal the key, and on sorted items it finds
/// one wherever there is one.
pub proof fn law_bsearch_finds(compare: spec_fn(int) -> int, low: int, len: int)
    requires
        len >= 0,
    ensures
        match bsearch_result(compare, low, len) {
            Some(i) => low <= i < low + len && compare(i) == 0,
            None => sorted_for(compare, low, len) ==> forall|i: int|
                low <= i < low + len ==> #[trigger] compare(i) != 0,
        },
    decreases len,
{
    if len > 0 {
        let p = probe_index(low, len);
        if compare(p) != 0 {
            let (l, n) = narrowed(low, len, compare(p) > 0);
            law_bsearch_finds(compare, l, n);
        }
    }
}

impl Bsearch {
    pub closed spec fn items(&self) -> int {
        self.items as int
    }

    pub closed spec fn item_size(&self) -> int {
        self.item_size as int
    }

    pub closed spec fn low(&self) -> int {
        self.low as int
    }

    pub closed spec fn len(&self) -> int {
        self.len as int
    }

    /// All items that are still searched lie inside the address space.
    pub open spec fn wf(&self) -> bool {
        &&& 0 <= self.low()
        &&& 0 <= self.len()
        &&& self.low() + self.len() <= u32::MAX
        &&& self.items() + self.item_size() * (self.low() + self.len()) <= 0x1_0000_0000
        &&& 0 <= self.items() <= u32::MAX
        &&& 0 <= self.item_size() <= u32::MAX
    }

    /// Starts a search in `item_count` items of size `item_size` at `items`.
    pub fn new(items: GuestAddr, item_count: GuestUSize, item_size: GuestUSize) -> (r: Bsearch)
        requires
            items + item_size * item_count <= 0x1_0000_0000,
        ensures
            r.wf(),
            r.items() == items,
            r.item_size() == item_size,
            r.low() == 0,
            r.len() == item_count,
    {
        Bsearch { items, item_size, low: 0, len: item_count }
    }

    /// The address of the item that the key must be compared with next, or none
    /// where no item is left: then the search has failed.
    pub fn probe(&self) -> (r: Option<GuestAddr>)
        requires
            self.wf(),
        ensures
            match r {
                Some(item) => {
                    &&& self.len() > 0
                    &&& item == self.items() + self.item_size() * probe_index(
                        self.low(),
                        self.len(),
                    )
                },
                None => self.len() == 0,
            },
    {
        if self.len == 0 {
            return None;
        }
        let index: u64 = self.low as u64 + (self.len / 2) as u64;
        proof {
            let size = self.item_size as int;
            let count = self.low + self.len;
            assert(size * index + size <= size * count) by (nonlinear_arith)
                requires
                    index + 1 <= count,
                    size >= 0,
            ;
            assert(size * index >= 0) by (nonlinear_arith)
                requires
                    size >= 0,
                    index >= 0,
            ;
            if size == 0 {
                assert(size * index == 0) by (nonlinear_arith)
                    requires
                        size == 0,
                ;
            }
        }
        let offset: u64 = self.item_size as u64 * index;
        Some((self.items as u64 + offset) as u32)
    }

    /// Takes the answer of the comparison for the item that [Self::probe] gave:
    /// negative, zero or positive as the key is less than, equal to or greater
    /// than the item. Returns whether that item is the result.
    pub fn answer(&mut self, compared: i32) -> (found: bool)
        requires
            old(self).wf(),
            old(self).len() > 0,
        ensures
            final(self).wf(),
            found == (compared == 0),
            final(self).items() == old(self).items(),
            final(self).item_size() == old(self).item_size(),
            !found ==> (final(self).low(), final(self).len()) == narrowed(
                old(self).low(),
                old(self).len(),
                compared > 0,
            ),
            !found ==> final(self).len() < old(self).len(),
    {
        let half: u32 = self.len / 2;
        if compared == 0 {
            return true;
        }
        if compared > 0 {
            self.low = self.low + half + 1;
            self.len = self.len - half - 1;
            assert(self.low + self.len == old(self).low + old(self).len);
        } else {
            proof {
                let size = self.item_size as int;
                let less = self.low + half;
                let more = self.low + self.len;
                assert(size * less <= size * more) by (nonlinear_arith)
                    requires
                        less <= more,
                        size >= 0,
                ;
            }
            self.len = half;
        }
        false
    }
}

/// Where a block holds the address of its function.
pub const BLOCK_INVOKE_OFFSET: u32 = 12;

/// Memory after a `dispatch_once`, and the function to call, if any.
pub open spec fn once(mem: MemState, predicate: GuestAddr, block: GuestAddr) -> (
    MemState,
    Option<GuestAddr>,
) {
    if mem.u32_at(predicate as int) != 0 {
        (mem, None)
    } else {
        let set = mem.write_u32(predicate as int, 1);
        let invoke = set.u32_at(block + BLOCK_INVOKE_OFFSET);
        (
            set,
            if invoke != 0 {
                Some(invoke)
            } else {
                None
            },
        )
    }
}

/// However often it is asked for, with whatever block, nothing is called again
/// once the predicate has been set.
pub proof fn law_once_only(
    mem: MemState,
    predicate: GuestAddr,
    block: GuestAddr,
    other_block: GuestAddr,
)
    requires
        mem.wf(),
        mem.valid(predicate as int, 4),
    ensures
        once(once(mem, predicate, block).0, predicate, other_block) == (
            once(mem, predicate, block).0,
            None::<GuestAddr>,
        ),
{
    lemma_le32_roundtrip(mem.bytes, predicate as int, 1);
}

/// `void dispatch_once(dispatch_once_t *predicate, dispatch_block_t block)`.
///
/// GCD's run-once primitive. Guest code does not truly preempt, so this just
/// checks and sets the predicate. The block is a struct whose function pointer
/// is at offset 12 (armv7). Where the block must be run, the address of that
/// function is returned; it takes the block as its argument.
pub fn dispatch_once(env: &mut Environment, predicate: GuestAddr, block: GuestAddr) -> (r: Option<
    GuestAddr,
>)
    requires
        old(env).wf(),
        old(env).mem@.valid(predicate as int, 4),
        old(env).mem@.u32_at(predicate as int) == 0 ==> old(env).mem@.valid(
            block + BLOCK_INVOKE_OFFSET,
            4,
        ) && block + BLOCK_INVOKE_OFFSET <= u32::MAX,
    ensures
        final(env).wf(),
        (final(env).mem@, r) == once(old(env).mem@, predicate, block),
        *final(env) == (Environment { mem: final(env).mem, ..*old(env) }),
{
    if env.mem.read_u32(predicate) != 0 {
        return None;  // already executed
    }
    // Mark as done BEFORE invoking (prevents re-entrancy from triggering again).
    env.mem.write_u32(predicate, 1);
    let invoke: u32 = env.mem.read_u32(block + BLOCK_INVOKE_OFFSET);
    if invoke != 0 {
        Some(invoke)
    } else {
        None
    }
}

/// The first time that it is asked for, the block's function is called, and from
/// then on the predicate is set. A predicate that is set, to whatever value, keeps
/// everything as it is.
pub proof fn law_once_runs_the_block(mem: MemState, predicate: GuestAddr, block: GuestAddr)
    requires
        mem.wf(),
        mem.valid(predicate as int, 4),
        mem.valid(block + 12, 4),
        predicate + 4 <= block + 12 || block + 16 <= predicate,
    ensures
        ({
            let (after, call) = once(mem, predicate, block);
            let function = mem.u32_at(block + 12);
            &&& mem.u32_at(predicate as int) == 0 && function != 0 ==> call == Some(function)
            &&& mem.u32_at(predicate as int) == 0 ==> after.u32_at(predicate as int) != 0
            &&& mem.u32_at(predicate as int) != 0 ==> call is None && after == mem
            &&& after.u32_at(block + 12) == function
        }),
{
    lemma_le32_roundtrip(mem.bytes, predicate as int, 1);
    crate::mem::lemma_le32_frame(
        mem.bytes,
        predicate as int,
        crate::mem::le32_bytes(1),
        block + 12,
    );
}

/// Each answer leaves at most half of the items, none of which is the one that was
/// compared, on the side where the key belongs.
pub proof fn law_answers_halve_the_items(low: int, len: int, key_is_greater: bool)
    requires
        len > 0,
    ensures
        ({
            let (l, n) = narrowed(low, len, key_is_greater);
            let p = probe_index(low, len);
            &&& low <= p < low + len
            &&& 2 * n <= len
            &&& key_is_greater ==> l == p + 1 && l + n == low + len
            &&& !key_is_greater ==> l == low && l + n == p
        }),
{
}

/// The item that is compared is a whole one of those that are left, and each answer
/// goes on with those on the side where the key belongs, until it is found or none is
/// left.
pub proof fn law_search_goes_on(search: Bsearch, item: Option<GuestAddr>, compared: i32, found: bool)
    requires
        search.wf(),
        call_ensures(Bsearch::probe, (&search,), item),
    ensures
        item is None <==> search.len() == 0,
        item matches Some(at) ==> exists|i: int|
            search.low() <= i < search.low() + search.len() && at == search.items()
                + search.item_size() * #[trigger] (i + 0),
        forall|s: &mut Bsearch|
            *s == search && #[trigger] call_ensures(Bsearch::answer, (s, compared), found) ==> {
                &&& found <==> compared == 0
                &&& !found ==> 0 <= final(s).len() && 2 * final(s).len() <= search.len()
                &&& compared > 0 ==> final(s).low() + final(s).len() == search.low() + search.len()
                &&& compared < 0 ==> final(s).low() == search.low()
                &&& final(s).items() == search.items() && final(s).item_size() == search.item_size()
            },
{
    if let Some(at) = item {
        let i = probe_index(search.low(), search.len());
        assert(at == search.items() + search.item_size() * (i + 0));
    }
}

} // verus!
