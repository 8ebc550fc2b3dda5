//! The kernel heap allocator hierarchy.
//!
//! Three designs, from simplest to the production one: a bump allocator
//! that never reclaims, a first-fit linked-list allocator over free
//! regions, and a size-classed block allocator that serves small
//! allocations from per-class free lists and falls back to the list
//! allocator for everything else.
//!
//! The heap is modelled as a range of plain addresses; a free region is a
//! value carrying its address and size, standing for the intrusive node
//! the kernel stores inside the region's own bytes (16 bytes, aligned to
//! 8).  The allocators' views are sets of free byte addresses.

use vstd::prelude::*;

verus! {

use vstd::set::Set;
use vstd::arithmetic::power2::pow2;
use vstd::arithmetic::power2::lemma_pow2_pos;
use vstd::arithmetic::power2::lemma_pow2_adds;
use vstd::arithmetic::power2::lemma_pow2_strictly_increases;
use vstd::arithmetic::power2::lemma2_to64;
use vstd::arithmetic::div_mod::lemma_fundamental_div_mod;
use vstd::arithmetic::div_mod::lemma_mod_multiples_basic;
use vstd::arithmetic::div_mod::lemma_mod_bound;
use vstd::bits::low_bits_mask;
use vstd::bits::lemma_u64_low_bits_mask_is_mod;

pub const HEAP_START: u64 = 0x4444_4444_0000;

pub const HEAP_SIZE: u64 = 100 * 1024;

/// Size and alignment of the intrusive free-region node.
pub const NODE_SIZE: u64 = 16;

pub const NODE_ALIGN: u64 = 8;

/// The number of block size classes.
pub const BLOCK_CLASS_COUNT: usize = 9;

/// A power of two.
pub open spec fn is_pow2(a: u64) -> bool {
    exists|n: nat| n < 64 && a == pow2(n)
}

/// The block size of a size class.
pub open spec fn spec_block_size(i: int) -> u64 {
    if i == 0 {
        8
    } else if i == 1 {
        16
    } else if i == 2 {
        32
    } else if i == 3 {
        64
    } else if i == 4 {
        128
    } else if i == 5 {
        256
    } else if i == 6 {
        512
    } else if i == 7 {
        1024
    } else {
        2048
    }
}

/// The block size of a size class.
pub fn block_size(i: usize) -> (r: u64)
    requires
        i < BLOCK_CLASS_COUNT,
    ensures
        r == spec_block_size(i as int),
{
    if i == 0 {
        8
    } else if i == 1 {
        16
    } else if i == 2 {
        32
    } else if i == 3 {
        64
    } else if i == 4 {
        128
    } else if i == 5 {
        256
    } else if i == 6 {
        512
    } else if i == 7 {
        1024
    } else {
        2048
    }
}

/// The smallest size class that fits a request of the given size and
/// alignment, or `None` for requests beyond the largest class.
pub fn list_index(size: u64, align: u64) -> (r: Option<usize>)
    ensures
        ({
            let required = if size >= align {
                size
            } else {
                align
            };
            match r {
                Some(i) => i < BLOCK_CLASS_COUNT && spec_block_size(i as int) >= required
                    && (forall|j: int| 0 <= j < i ==> spec_block_size(j) < required),
                None => forall|j: int|
                    0 <= j < BLOCK_CLASS_COUNT ==> spec_block_size(j) < required,
            }
        }),
{
    let required = if size >= align {
        size
    } else {
        align
    };
    let mut i: usize = 0;
    while i < BLOCK_CLASS_COUNT
        invariant
            i <= BLOCK_CLASS_COUNT,
            required == (if size >= align { size } else { align }),
            forall|j: int| 0 <= j < i ==> spec_block_size(j) < required,
        decreases BLOCK_CLASS_COUNT - i,
    {
        if block_size(i) >= required {
            return Some(i);
        }
        i = i + 1;
    }
    None
}

/// Round `addr` up to the next multiple of `align` (a power of two).
pub fn align_up(addr: u64, align: u64) -> (r: u64)
    requires
        is_pow2(align),
        addr + align <= u64::MAX,
    ensures
        r == spec_align_up(addr, align),
        r % align == 0,
        addr <= r < addr + align,
{
    proof {
        lemma_align_up(addr, align);
    }
    (addr + align - 1) & !(align - 1)
}

/// The rounded value, before the power-of-two rounding identity is known.
pub open spec fn spec_align_up(addr: u64, align: u64) -> u64
    recommends
        addr + align <= u64::MAX,
{
    ((addr + align - 1) as u64) & !((align - 1) as u64)
}

/// The usual power-of-two rounding identity.
proof fn lemma_align_up(addr: u64, align: u64)
    requires
        is_pow2(align),
        addr + align <= u64::MAX,
    ensures
        spec_align_up(addr, align) % align == 0,
        addr <= spec_align_up(addr, align) < addr + align,
{
    let n = choose|n: nat| n < 64 && align == pow2(n);
    lemma_pow2_pos(n);
    let x = (addr + align - 1) as u64;
    let mask = (align - 1) as u64;
    assert(mask == low_bits_mask(n));
    let r = spec_align_up(addr, align);
    assert(r == x & !mask);
    assert(x & !mask == (x - (x & mask)) as u64 && x & mask <= mask && x & mask <= x) by (bit_vector);
    lemma_u64_low_bits_mask_is_mod(x, n);
    assert(x & mask == x % align);
    lemma_mod_bound(x as int, align as int);
    lemma_fundamental_div_mod(x as int, align as int);
    let q = x as int / align as int;
    assert(r == align * q);
    assert(align * q == q * align) by (nonlinear_arith);
    lemma_mod_multiples_basic(q, align as int);
    assert((q * align) % (align as int) == 0);
    assert(r % align == 0);
    assert(addr <= r);
    assert(r <= x);
}

/// A power of two no smaller than eight is a multiple of eight.
proof fn lemma_pow2_divides_eight(a: u64)
    requires
        is_pow2(a),
        a >= 8,
    ensures
        a % 8 == 0,
{
    let n = choose|n: nat| n < 64 && a == pow2(n);
    lemma2_to64();
    if n < 3 {
        lemma_pow2_strictly_increases(n, 3);
        assert(false);
    }
    lemma_pow2_adds(3, (n - 3) as nat);
    assert(a == pow2(3) * pow2((n - 3) as nat));
    lemma_mod_multiples_basic(pow2((n - 3) as nat) as int, 8);
}

/// Divisibility is transitive.
proof fn lemma_mod_divides_trans(a: int, b: int, c: int)
    requires
        a >= 0,
        b > 0,
        c > 0,
        a % b == 0,
        b % c == 0,
    ensures
        a % c == 0,
{
    lemma_fundamental_div_mod(a, b);
    lemma_fundamental_div_mod(b, c);
    assert(a == (c * (b / c)) * (a / b));
    assert(a == c * ((b / c) * (a / b))) by (nonlinear_arith)
        requires
            a == (c * (b / c)) * (a / b),
    ;
    lemma_mod_multiples_basic((b / c) * (a / b), c);
}

/// The bytes of a half-open address range.
pub open spec fn range_set(addr: int, size: int) -> Set<int> {
    Set::new(|x: int| addr <= x < addr + size)
}

/// A free region of the heap, carrying its own address and size; it
/// stands for the list node the kernel stores inside the region.
#[derive(Debug, Clone, Copy, PartialEq, Eq, Structural)]
pub struct VarSizeListNode {
    pub addr: u64,
    pub size: u64,
}

impl VarSizeListNode {
    /// A region of `size` bytes at `addr`.
    pub fn new(addr: u64, size: u64) -> (r: VarSizeListNode)
        ensures
            r.addr == addr,
            r.size == size,
    {
        VarSizeListNode { addr, size }
    }

    /// First byte of the region.
    pub fn start_addr(&self) -> (r: u64)
        ensures
            r == self.addr,
    {
        self.addr
    }

    /// One past the last byte of the region.
    pub fn end_addr(&self) -> (r: u64)
        requires
            self.addr + self.size <= u64::MAX,
        ensures
            r == self.addr + self.size,
    {
        self.addr + self.size
    }
}

/// A region the list allocator may hold: node-aligned, big enough to
/// host a node, and not wrapping the address space.
pub open spec fn node_wf(n: VarSizeListNode) -> bool {
    &&& n.addr % NODE_ALIGN == 0
    &&& n.size >= NODE_SIZE
    &&& n.addr + n.size <= u64::MAX
}

/// Whether byte `x` lies in the region.
pub open spec fn region_contains(n: VarSizeListNode, x: int) -> bool {
    n.addr <= x < n.addr + n.size
}

/// Where an allocation of `size` aligned to `align` starts inside
/// `region`, if it fits without leaving an unusably small tail.
pub open spec fn spec_alloc_from_region(region: VarSizeListNode, size: u64, align: u64) -> Option<u64> {
    if region.addr > u64::MAX - align {
        None
    } else {
        let a = spec_align_up(region.addr, align);
        if a + size > region.addr + region.size {
            None
        } else if region.addr + region.size - (a + size) > 0 && region.addr + region.size - (a
            + size) < NODE_SIZE {
            None
        } else {
            Some(a)
        }
    }
}

/// First-fit allocator over a list of free regions.  Freed regions are
/// pushed to the front and never merged with their neighbours, an
/// accepted fragmentation trade-off of this design.
pub struct LinkedListAllocator {
    pub regions: Vec<VarSizeListNode>,
}

impl LinkedListAllocator {
    /// The set of free byte addresses.
    pub open spec fn free_bytes(self) -> Set<int> {
        Set::new(
            |x: int|
                exists|k: int|
                    0 <= k < self.regions@.len() && region_contains(#[trigger] self.regions@[k], x),
        )
    }

    /// Regions are well formed and pairwise disjoint.
    pub open spec fn wf(self) -> bool {
        &&& (forall|k: int| 0 <= k < self.regions@.len() ==> node_wf(#[trigger] self.regions@[k]))
        &&& (forall|k: int, j: int|
            #![trigger self.regions@[k], self.regions@[j]]
            0 <= k < self.regions@.len() && 0 <= j < self.regions@.len() && k != j
                ==> self.regions@[k].addr + self.regions@[k].size <= self.regions@[j].addr
                || self.regions@[j].addr + self.regions@[j].size <= self.regions@[k].addr)
    }

    /// An empty free list.
    pub fn new() -> (r: LinkedListAllocator)
        ensures
            r.wf(),
            r.regions@.len() == 0,
            r.free_bytes() =~= Set::<int>::empty(),
    {
        let r = LinkedListAllocator { regions: Vec::new() };
        r
    }

    /// Hand the allocator its heap: one free region spanning it.
    pub fn init(&mut self, heap_start: u64, heap_size: u64)
        requires
            old(self).regions@.len() == 0,
            heap_start % NODE_ALIGN == 0,
            heap_size >= NODE_SIZE,
            heap_start + heap_size <= u64::MAX,
        ensures
            final(self).wf(),
            final(self).free_bytes() =~= range_set(heap_start as int, heap_size as int),
    {
        self.add_free_region(heap_start, heap_size);
        proof {
            assert(self.free_bytes() =~= range_set(heap_start as int, heap_size as int));
        }
    }

    /// Push a region onto the front of the free list.
    fn add_free_region(&mut self, addr: u64, size: u64)
        requires
            addr % NODE_ALIGN == 0,
            size >= NODE_SIZE,
            addr + size <= u64::MAX,
            forall|k: int|
                0 <= k < old(self).regions@.len() ==> (#[trigger] old(self).regions@[k]).addr + old(
                    self,
                ).regions@[k].size <= addr || addr + size <= old(self).regions@[k].addr,
            old(self).wf(),
        ensures
            final(self).wf(),
            final(self).regions@ == old(self).regions@.insert(0, (VarSizeListNode { addr, size })),
            final(self).free_bytes() =~= old(self).free_bytes() + range_set(
                addr as int,
                size as int,
            ),
    {
        let node = VarSizeListNode::new(addr, size);
        self.regions.insert(0, node);
        proof {
            let post = self.regions@;
            let pre = old(self).regions@;
            assert forall|x: int|
                self.free_bytes().contains(x) == (old(self).free_bytes().contains(x) || range_set(
                    addr as int,
                    size as int,
                ).contains(x)) by {
                if self.free_bytes().contains(x) {
                    let k = choose|k: int| 0 <= k < post.len() && region_contains(post[k], x);
                    if k > 0 {
                        assert(region_contains(pre[k - 1], x));
                    }
                } else {
                    if old(self).free_bytes().contains(x) {
                        let k = choose|k: int| 0 <= k < pre.len() && region_contains(pre[k], x);
                        assert(region_contains(post[k + 1], x));
                    }
                    if range_set(addr as int, size as int).contains(x) {
                        assert(region_contains(post[0], x));
                    }
                }
            }
        }
    }

    /// Where an allocation of `size` aligned to `align` would start inside
    /// `region`, if it fits without leaving an unusably small tail: the
    /// executable twin of `spec_alloc_from_region`, with the usual fit
    /// properties restated for callers.
    pub fn alloc_from_region(region: &VarSizeListNode, size: u64, align: u64) -> (r: Result<
        u64,
        (),
    >)
        requires
            is_pow2(align),
            node_wf(*region),
        ensures
            r == (match spec_alloc_from_region(*region, size, align) {
                Some(a) => Result::<u64, ()>::Ok(a),
                None => Result::<u64, ()>::Err(()),
            }),
            match r {
                Ok(a) => a % align == 0 && region.addr <= a && a + size <= region.addr + region.size
                    && (a + size == region.addr + region.size || region.addr + region.size - (a
                    + size) >= NODE_SIZE),
                Err(_) => true,
            },
    {
        if region.start_addr() > u64::MAX - align {
            return Err(());
        }
        let alloc_start = align_up(region.start_addr(), align);
        let alloc_end = match alloc_start.checked_add(size) {
            Some(e) => e,
            None => {
                return Err(());
            },
        };
        if alloc_end > region.end_addr() {
            return Err(());
        }
        let excess_size = region.end_addr() - alloc_end;
        if excess_size > 0 && excess_size < NODE_SIZE {
            return Err(());
        }
        Ok(alloc_start)
    }

    /// The first region front to back that can host the request; the
    /// region leaves the list (the others keep their order) and is
    /// returned with the allocation start.  `None` only when no region
    /// fits.
    pub fn find_region(&mut self, size: u64, align: u64) -> (r: Option<(VarSizeListNode, u64)>)
        requires
            old(self).wf(),
            is_pow2(align),
            align <= 0x8000_0000_0000_0000,
        ensures
            final(self).wf(),
            match r {
                Some((node, a)) => {
                    &&& node_wf(node)
                    &&& a % align == 0
                    &&& node.addr <= a && a + size <= node.addr + node.size
                    &&& (a + size == node.addr + node.size || node.addr + node.size - (a + size)
                        >= NODE_SIZE)
                    &&& (exists|idx: int|
                        0 <= idx < old(self).regions@.len() && node == old(self).regions@[idx]
                            && spec_alloc_from_region(node, size, align) == Some(a) && (
                        forall|k: int|
                            0 <= k < idx ==> spec_alloc_from_region(
                                #[trigger] old(self).regions@[k],
                                size,
                                align,
                            ) is None) && final(self).regions@ == old(self).regions@.remove(idx))
                    &&& final(self).free_bytes() =~= old(self).free_bytes() - range_set(
                        node.addr as int,
                        node.size as int,
                    )
                    &&& range_set(node.addr as int, node.size as int) <= old(self).free_bytes()
                    &&& forall|k: int|
                        0 <= k < final(self).regions@.len() ==> (
                        #[trigger] final(self).regions@[k]).addr + final(self).regions@[k].size
                            <= node.addr || node.addr + node.size <= final(self).regions@[k].addr
                },
                None => *final(self) == *old(self) && forall|k: int|
                    0 <= k < old(self).regions@.len() ==> spec_alloc_from_region(
                        #[trigger] old(self).regions@[k],
                        size,
                        align,
                    ) is None,
            },
    {
        let ghost pre = *old(self);
        let mut idx: usize = 0;
        let n = self.regions.len();
        while idx < n
            invariant
                pre == *old(self),
                *self == pre,
                pre.wf(),
                n == self.regions@.len(),
                idx <= n,
                is_pow2(align),
                align <= 0x8000_0000_0000_0000,
                forall|k: int|
                    0 <= k < idx ==> spec_alloc_from_region(
                        #[trigger] pre.regions@[k],
                        size,
                        align,
                    ) is None,
            decreases n - idx,
        {
            let region = self.regions[idx];
            match Self::alloc_from_region(&region, size, align) {
                Ok(alloc_start) => {
                    let node = self.regions.remove(idx);
                    proof {
                        let post = self.regions@;
                        let prer = pre.regions@;
                        assert(node == prer[idx as int]);
                        assert forall|k: int| 0 <= k < post.len() implies (post[k] == (if k
                            < idx as int {
                            prer[k]
                        } else {
                            prer[k + 1]
                        })) by {}
                        assert forall|k: int| 0 <= k < post.len() implies node_wf(
                            #[trigger] post[k],
                        ) && (post[k].addr + post[k].size <= node.addr || node.addr + node.size
                            <= post[k].addr) by {
                            if k < idx as int {
                                assert(node_wf(prer[k]));
                                assert(prer[k].addr + prer[k].size <= prer[idx as int].addr
                                    || prer[idx as int].addr + prer[idx as int].size
                                    <= prer[k].addr);
                            } else {
                                assert(node_wf(prer[k + 1]));
                                assert(prer[k + 1].addr + prer[k + 1].size <= prer[idx as int].addr
                                    || prer[idx as int].addr + prer[idx as int].size <= prer[k
                                    + 1].addr);
                            }
                        }
                        assert forall|k: int, j: int|
                            #![trigger post[k], post[j]]
                            0 <= k < post.len() && 0 <= j < post.len() && k != j implies
                            post[k].addr + post[k].size <= post[j].addr || post[j].addr
                            + post[j].size <= post[k].addr by {
                            let k0 = if k < idx as int {
                                k
                            } else {
                                k + 1
                            };
                            let j0 = if j < idx as int {
                                j
                            } else {
                                j + 1
                            };
                            assert(prer[k0].addr + prer[k0].size <= prer[j0].addr || prer[j0].addr
                                + prer[j0].size <= prer[k0].addr);
                        }
                        assert forall|x: int|
                            self.free_bytes().contains(x) == (pre.free_bytes().contains(x)
                                && !range_set(node.addr as int, node.size as int).contains(
                                x,
                            )) by {
                            if self.free_bytes().contains(x) {
                                let k = choose|k: int|
                                    0 <= k < post.len() && region_contains(#[trigger] post[k], x);
                                if k < idx as int {
                                    assert(region_contains(prer[k], x));
                                } else {
                                    assert(region_contains(prer[k + 1], x));
                                }
                                assert(!region_contains(node, x));
                            } else {
                                if pre.free_bytes().contains(x) && !range_set(
                                    node.addr as int,
                                    node.size as int,
                                ).contains(x) {
                                    let k = choose|k: int|
                                        0 <= k < prer.len() && region_contains(
                                            #[trigger] prer[k],
                                            x,
                                        );
                                    if k < idx as int {
                                        assert(region_contains(post[k], x));
                                    } else if k > idx as int {
                                        assert(region_contains(post[k - 1], x));
                                    }
                                }
                            }
                        }
                        assert forall|x: int|
                            range_set(node.addr as int, node.size as int).contains(
                                x,
                            ) implies pre.free_bytes().contains(x) by {
                            assert(region_contains(prer[idx as int], x));
                        }
                    }
                    return Some((node, alloc_start));
                },
                Err(()) => {},
            }
            idx = idx + 1;
        }
        None
    }

    /// The padded size and alignment a request is served with: alignment
    /// at least the node's, size rounded up to the alignment and at least
    /// one node.
    pub fn size_align(size: u64, align: u64) -> (r: (u64, u64))
        requires
            is_pow2(align),
            align <= 0x1_0000_0000,
            size <= 0x1000_0000_0000,
        ensures
            r.0 == spec_eff_size(size, align),
            r.1 == spec_eff_align(align),
            is_pow2(r.1),
            r.1 >= NODE_ALIGN,
            r.1 >= align,
            r.1 % NODE_ALIGN == 0,
            r.0 >= NODE_SIZE,
            r.0 >= size,
            r.0 % NODE_ALIGN == 0,
            r.0 % r.1 == 0 || r.0 == NODE_SIZE,
            r.0 <= 0x1000_0001_0000_0000,
    {
        let eff_align = if align >= NODE_ALIGN {
            align
        } else {
            proof {
                lemma2_to64();
                assert(8u64 == pow2(3));
            }
            NODE_ALIGN
        };
        proof {
            lemma_pow2_divides_eight(eff_align);
        }
        let padded = align_up(size, eff_align);
        proof {
            lemma_mod_divides_trans(padded as int, eff_align as int, NODE_ALIGN as int);
            assert(16int % 8int == 0);
        }
        let eff_size = if padded >= NODE_SIZE {
            padded
        } else {
            NODE_SIZE
        };
        (eff_size, eff_align)
    }
}

/// The alignment a request is actually served with.
pub open spec fn spec_eff_align(align: u64) -> u64 {
    if align >= NODE_ALIGN {
        align
    } else {
        NODE_ALIGN
    }
}

/// The size a request is actually served with.
pub open spec fn spec_eff_size(size: u64, align: u64) -> u64 {
    let padded = spec_align_up(size, spec_eff_align(align));
    if padded >= NODE_SIZE {
        padded
    } else {
        NODE_SIZE
    }
}

/// What one list-allocator allocation guarantees, shared with the block
/// allocator's paths that delegate to it.  On success the block starts
/// where the first fitting region (front to back) hosts it, and the free
/// bytes afterwards are exactly the old ones minus that region plus its
/// leftover tail; any bytes skipped at the region's front for alignment
/// are dropped with the region.  On failure nothing changes, and no
/// region fits the padded request.
pub open spec fn spec_list_alloc_post(
    pre: LinkedListAllocator,
    post: LinkedListAllocator,
    size: u64,
    align: u64,
    r: Option<u64>,
) -> bool {
    let es = spec_eff_size(size, align);
    let ea = spec_eff_align(align);
    match r {
        Some(a) => {
            &&& a % align == 0
            &&& a % ea == 0
            &&& range_set(a as int, es as int) <= pre.free_bytes()
            &&& post.free_bytes() <= pre.free_bytes() - range_set(a as int, es as int)
            &&& exists|idx: int|
                0 <= idx < pre.regions@.len() && spec_alloc_from_region(
                    #[trigger] pre.regions@[idx],
                    es,
                    ea,
                ) == Some(a) && (forall|k: int|
                    0 <= k < idx ==> spec_alloc_from_region(
                        #[trigger] pre.regions@[k],
                        es,
                        ea,
                    ) is None) && post.free_bytes() =~= pre.free_bytes() - range_set(
                    pre.regions@[idx].addr as int,
                    pre.regions@[idx].size as int,
                ) + range_set(
                    a + es,
                    pre.regions@[idx].addr + pre.regions@[idx].size - (a + es),
                )
        },
        None => {
            &&& post.regions@ == pre.regions@
            &&& forall|k: int|
                0 <= k < pre.regions@.len() ==> spec_alloc_from_region(
                    #[trigger] pre.regions@[k],
                    spec_eff_size(size, align),
                    spec_eff_align(align),
                ) is None
        },
    }
}

impl LinkedListAllocator {
    /// Serve a request: pad it as `size_align` does, carve it out of the
    /// first fitting free region, and return the leftover tail (if any)
    /// to the list.  `spec_list_alloc_post` pins the result and the new
    /// free bytes down exactly; on failure nothing changes and no region
    /// fits.
    pub fn allocate(&mut self, size: u64, align: u64) -> (r: Option<u64>)
        requires
            old(self).wf(),
            is_pow2(align),
            align <= 0x1_0000_0000,
            size <= 0x1000_0000_0000,
        ensures
            final(self).wf(),
            spec_list_alloc_post(*old(self), *final(self), size, align, r),
    {
        let ghost pre = *old(self);
        let (esize, ealign) = Self::size_align(size, align);
        proof {
            lemma_pow2_le_divides(align, ealign);
        }
        match self.find_region(esize, ealign) {
            Some((region, alloc_start)) => {
                let ghost mid = *self;
                let alloc_end = alloc_start + esize;
                let excess_size = region.end_addr() - alloc_end;
                if excess_size > 0 {
                    proof {
                        lemma_pow2_divides_eight(ealign);
                        lemma_mod_divides_trans(
                            alloc_start as int,
                            ealign as int,
                            NODE_ALIGN as int,
                        );
                        lemma_mod_add_zero(alloc_start as int, esize as int, NODE_ALIGN as int);
                    }
                    self.add_free_region(alloc_end, excess_size);
                }
                proof {
                    lemma_pow2_pos_u64(align);
                    lemma_mod_divides_trans(alloc_start as int, ealign as int, align as int);
                    assert forall|x: int|
                        final(self).free_bytes().contains(x) implies (old(
                        self,
                    ).free_bytes() - range_set(alloc_start as int, esize as int)).contains(x) by {
                        if mid.free_bytes().contains(x) {
                            assert(pre.free_bytes().contains(x));
                            assert(!region_contains(region, x));
                        } else {
                            assert(region_contains(region, x));
                            assert(x >= alloc_end);
                        }
                    }
                    assert forall|x: int|
                        range_set(alloc_start as int, esize as int).contains(x) implies pre.free_bytes().contains(
                        x,
                    ) by {
                        assert(region_contains(region, x));
                    }
                    // The exact free-byte account: the carved region left,
                    // its tail (possibly empty) came back.
                    let idx = choose|idx: int|
                        0 <= idx < pre.regions@.len() && region == pre.regions@[idx]
                            && spec_alloc_from_region(pre.regions@[idx], esize, ealign) == Some(
                            alloc_start,
                        ) && (forall|k: int|
                            0 <= k < idx ==> spec_alloc_from_region(
                                #[trigger] pre.regions@[k],
                                esize,
                                ealign,
                            ) is None) && mid.regions@ == pre.regions@.remove(idx);
                    assert(self.free_bytes() =~= pre.free_bytes() - range_set(
                        pre.regions@[idx].addr as int,
                        pre.regions@[idx].size as int,
                    ) + range_set(
                        alloc_start + spec_eff_size(size, align),
                        pre.regions@[idx].addr + pre.regions@[idx].size - (alloc_start
                            + spec_eff_size(size, align)),
                    )) by {
                        if excess_size == 0 {
                            assert(range_set(alloc_end as int, 0) =~= Set::<int>::empty());
                        }
                    }
                    assert(spec_alloc_from_region(pre.regions@[idx], esize, ealign) == Some(
                        alloc_start,
                    ));
                }
                Some(alloc_start)
            },
            None => None,
        }
    }

    /// Give a block back: it rejoins the free list as its own region,
    /// unmerged.  The block must be one this allocator handed out, so it
    /// is disjoint from everything still free.
    pub fn dealloc(&mut self, ptr: u64, size: u64, align: u64)
        requires
            old(self).wf(),
            is_pow2(align),
            align <= 0x1_0000_0000,
            size <= 0x1000_0000_0000,
            ptr % NODE_ALIGN == 0,
            ptr + spec_eff_size(size, align) <= u64::MAX,
            forall|k: int|
                0 <= k < old(self).regions@.len() ==> (#[trigger] old(self).regions@[k]).addr + old(
                    self,
                ).regions@[k].size <= ptr || ptr + spec_eff_size(size, align) <= old(
                    self,
                ).regions@[k].addr,
        ensures
            final(self).wf(),
            final(self).free_bytes() =~= old(self).free_bytes() + range_set(
                ptr as int,
                spec_eff_size(size, align) as int,
            ),
    {
        let (size, _) = Self::size_align(size, align);
        self.add_free_region(ptr, size);
    }
}

/// Sums of multiples stay multiples.
proof fn lemma_mod_add_zero(a: int, b: int, c: int)
    requires
        a >= 0,
        b >= 0,
        c > 0,
        a % c == 0,
        b % c == 0,
    ensures
        (a + b) % c == 0,
{
    lemma_fundamental_div_mod(a, c);
    lemma_fundamental_div_mod(b, c);
    assert(a + b == c * (a / c + b / c)) by (nonlinear_arith)
        requires
            a == c * (a / c) + a % c,
            b == c * (b / c) + b % c,
            a % c == 0,
            b % c == 0,
    ;
    lemma_mod_multiples_basic(a / c + b / c, c);
    assert(c * (a / c + b / c) == (a / c + b / c) * c) by (nonlinear_arith);
}

/// A smaller power of two divides a larger one.
proof fn lemma_pow2_le_divides(small: u64, large: u64)
    requires
        is_pow2(small),
        is_pow2(large),
        small <= large,
    ensures
        large % small == 0,
{
    let ns = choose|n: nat| n < 64 && small == pow2(n);
    let nl = choose|n: nat| n < 64 && large == pow2(n);
    lemma_pow2_pos(ns);
    lemma_pow2_pos(nl);
    if nl < ns {
        lemma_pow2_strictly_increases(nl, ns);
        assert(false);
    }
    lemma_pow2_adds(ns, (nl - ns) as nat);
    assert(large == pow2(ns) * pow2((nl - ns) as nat));
    assert(pow2(ns) * pow2((nl - ns) as nat) == pow2((nl - ns) as nat) * pow2(ns))
        by (nonlinear_arith);
    lemma_mod_multiples_basic(pow2((nl - ns) as nat) as int, small as int);
}

/// A power of two is positive.
proof fn lemma_pow2_pos_u64(a: u64)
    requires
        is_pow2(a),
    ensures
        a >= 1,
{
    let n = choose|n: nat| n < 64 && a == pow2(n);
    lemma_pow2_pos(n);
}

/// Law: two allocations with no intervening free never overlap.  The
/// first block was carved out of the free bytes; whatever is allocated
/// from the remaining free bytes cannot meet it.
pub proof fn lemma_live_allocations_disjoint(
    free_before: Set<int>,
    free_between: Set<int>,
    a1: int,
    s1: int,
    a2: int,
    s2: int,
)
    requires
        range_set(a1, s1) <= free_before,
        free_between <= free_before - range_set(a1, s1),
        range_set(a2, s2) <= free_between,
    ensures
        range_set(a1, s1).disjoint(range_set(a2, s2)),
{
    assert forall|x: int| range_set(a1, s1).contains(x) implies !range_set(a2, s2).contains(x) by {
        if range_set(a2, s2).contains(x) {
            assert(free_between.contains(x));
        }
    }
}

/// The size-classed block allocator: one free list of block addresses per
/// class, falling back to the list allocator for big or irregular
/// requests and to refill empty classes.
pub struct FixedSizeBlockAllocator {
    pub list_heads: Vec<Vec<u64>>,
    pub fallback_allocator: LinkedListAllocator,
}

/// Which size class a request falls in: the smallest block size that
/// holds both the size and the alignment.
pub open spec fn spec_list_index(size: u64, align: u64) -> Option<int> {
    let required: u64 = if size >= align {
        size
    } else {
        align
    };
    if required <= 8 {
        Some(0int)
    } else if required <= 16 {
        Some(1int)
    } else if required <= 32 {
        Some(2int)
    } else if required <= 64 {
        Some(3int)
    } else if required <= 128 {
        Some(4int)
    } else if required <= 256 {
        Some(5int)
    } else if required <= 512 {
        Some(6int)
    } else if required <= 1024 {
        Some(7int)
    } else if required <= 2048 {
        Some(8int)
    } else {
        None
    }
}

impl FixedSizeBlockAllocator {
    pub open spec fn wf(self) -> bool {
        &&& self.list_heads@.len() == BLOCK_CLASS_COUNT
        &&& (forall|i: int, k: int|
            #![trigger self.list_heads@[i]@[k]]
            0 <= i < BLOCK_CLASS_COUNT && 0 <= k < self.list_heads@[i]@.len()
                ==> self.list_heads@[i]@[k] % spec_block_size(i) == 0)
        &&& self.fallback_allocator.wf()
    }

    /// An allocator with empty class lists and an empty fallback.
    pub fn new() -> (r: FixedSizeBlockAllocator)
        ensures
            r.wf(),
            r.fallback_allocator.regions@.len() == 0,
            forall|i: int| 0 <= i < BLOCK_CLASS_COUNT ==> (#[trigger] r.list_heads@[i])@.len() == 0,
    {
        let mut list_heads: Vec<Vec<u64>> = Vec::new();
        let mut i: usize = 0;
        while i < BLOCK_CLASS_COUNT
            invariant
                i <= BLOCK_CLASS_COUNT,
                list_heads@.len() == i,
                forall|j: int| 0 <= j < i ==> (#[trigger] list_heads@[j])@.len() == 0,
            decreases BLOCK_CLASS_COUNT - i,
        {
            list_heads.push(Vec::new());
            i = i + 1;
        }
        FixedSizeBlockAllocator { list_heads, fallback_allocator: LinkedListAllocator::new() }
    }

    /// Hand the allocator its heap, which goes to the fallback whole.
    pub fn init(&mut self, heap_start: u64, heap_size: u64)
        requires
            old(self).wf(),
            old(self).fallback_allocator.regions@.len() == 0,
            heap_start % NODE_ALIGN == 0,
            heap_size >= NODE_SIZE,
            heap_start + heap_size <= u64::MAX,
        ensures
            final(self).wf(),
            final(self).list_heads@ == old(self).list_heads@,
            final(self).fallback_allocator.free_bytes() =~= range_set(
                heap_start as int,
                heap_size as int,
            ),
    {
        self.fallback_allocator.init(heap_start, heap_size);
    }

    /// Serve a request: pop the class's free list if the request falls in
    /// a class, refill from the fallback when the list is empty, and
    /// delegate big or irregular requests to the fallback directly.  The
    /// returned address is aligned as asked.
    pub fn allocate(&mut self, size: u64, align: u64) -> (r: Option<u64>)
        requires
            old(self).wf(),
            is_pow2(align),
            align <= 0x1_0000_0000,
            size <= 0x1000_0000_0000,
        ensures
            final(self).wf(),
            match r {
                Some(a) => a % align == 0,
                None => true,
            },
            match spec_list_index(size, align) {
                Some(i) => {
                    if old(self).list_heads@[i]@.len() > 0 {
                        // The class list is popped; nothing else moves.
                        &&& r == Some(old(self).list_heads@[i]@.last())
                        &&& final(self).list_heads@[i]@ == old(self).list_heads@[i]@.drop_last()
                        &&& (forall|j: int|
                            0 <= j < BLOCK_CLASS_COUNT && j != i ==> final(self).list_heads@[j]@
                                == old(self).list_heads@[j]@)
                        &&& final(self).fallback_allocator.regions@ == old(
                            self,
                        ).fallback_allocator.regions@
                        &&& old(self).list_heads@[i]@.last() % spec_block_size(i) == 0
                    } else {
                        // A fresh block of exactly the class's size and
                        // alignment comes from the fallback.
                        &&& (forall|j: int|
                            0 <= j < BLOCK_CLASS_COUNT ==> final(self).list_heads@[j]@ == old(
                                self,
                            ).list_heads@[j]@)
                        &&& spec_list_alloc_post(
                            old(self).fallback_allocator,
                            final(self).fallback_allocator,
                            spec_block_size(i),
                            spec_block_size(i),
                            r,
                        )
                        &&& match r {
                            Some(a) => a % spec_block_size(i) == 0,
                            None => true,
                        }
                    }
                },
                // Beyond the classes the request goes to the fallback
                // unchanged.
                None => (forall|j: int|
                    0 <= j < BLOCK_CLASS_COUNT ==> final(self).list_heads@[j]@ == old(
                        self,
                    ).list_heads@[j]@) && spec_list_alloc_post(
                    old(self).fallback_allocator,
                    final(self).fallback_allocator,
                    size,
                    align,
                    r,
                ),
            },
    {
        proof {
            lemma_list_index_agrees(size, align);
        }
        match list_index(size, align) {
            Some(index) => {
                let popped = self.list_heads[index].pop();
                match popped {
                    Some(block) => {
                        proof {
                            let pre = old(self).list_heads@[index as int]@;
                            assert(block == pre[pre.len() - 1]);
                            lemma_block_size_pow2(index as int);
                            lemma_pow2_pos_u64(align);
                            lemma_pow2_le_divides(align, spec_block_size(index as int));
                            lemma_mod_divides_trans(
                                block as int,
                                spec_block_size(index as int) as int,
                                align as int,
                            );
                        }
                        Some(block)
                    },
                    None => {
                        let bs = block_size(index);
                        proof {
                            lemma_block_size_pow2(index as int);
                        }
                        let block = self.fallback_allocator.allocate(bs, bs);
                        proof {
                            lemma_pow2_pos_u64(align);
                            lemma_pow2_le_divides(align, spec_block_size(index as int));
                            if block is Some {
                                lemma_mod_divides_trans(
                                    block->0 as int,
                                    spec_block_size(index as int) as int,
                                    align as int,
                                );
                            }
                        }
                        block
                    },
                }
            },
            None => self.fallback_allocator.allocate(size, align),
        }
    }

    /// Take a block back: blocks of a class go onto that class's free
    /// list for O(1) reuse, everything else returns to the fallback.
    pub fn dealloc(&mut self, ptr: u64, size: u64, align: u64)
        requires
            old(self).wf(),
            is_pow2(align),
            align <= 0x1_0000_0000,
            size <= 0x1000_0000_0000,
            match spec_list_index(size, align) {
                Some(i) => ptr % spec_block_size(i) == 0,
                None => ptr % NODE_ALIGN == 0 && ptr + spec_eff_size(size, align) <= u64::MAX
                    && (forall|k: int|
                    0 <= k < old(self).fallback_allocator.regions@.len() ==> (#[trigger] old(
                        self,
                    ).fallback_allocator.regions@[k]).addr
                        + old(self).fallback_allocator.regions@[k].size <= ptr || ptr
                        + spec_eff_size(size, align) <= old(
                        self,
                    ).fallback_allocator.regions@[k].addr),
            },
        ensures
            final(self).wf(),
            match spec_list_index(size, align) {
                Some(i) => final(self).list_heads@[i]@ == old(self).list_heads@[i]@.push(ptr)
                    && final(self).fallback_allocator == old(self).fallback_allocator,
                None => final(self).fallback_allocator.free_bytes() =~= old(
                    self,
                ).fallback_allocator.free_bytes() + range_set(
                    ptr as int,
                    spec_eff_size(size, align) as int,
                ),
            },
    {
        match list_index(size, align) {
            Some(index) => {
                self.list_heads[index].push(ptr);
            },
            None => {
                self.fallback_allocator.dealloc(ptr, size, align);
            },
        }
    }
}

/// The first-fit class scan lands exactly on the ladder's class.
proof fn lemma_list_index_agrees(size: u64, align: u64)
    ensures
        ({
            let required = if size >= align {
                size
            } else {
                align
            };
            match spec_list_index(size, align) {
                Some(i) => 0 <= i < BLOCK_CLASS_COUNT && spec_block_size(i) >= required && (
                forall|j: int| 0 <= j < i ==> spec_block_size(j) < required),
                None => forall|j: int|
                    0 <= j < BLOCK_CLASS_COUNT ==> spec_block_size(j) < required,
            }
        }),
{
}

/// Every block size is a power of two.
proof fn lemma_block_size_pow2(i: int)
    requires
        0 <= i < BLOCK_CLASS_COUNT,
    ensures
        is_pow2(spec_block_size(i)),
        spec_block_size(i) % NODE_ALIGN == 0 || spec_block_size(i) == 8,
{
    lemma2_to64();
    assert(pow2(3) == 8 && pow2(4) == 16 && pow2(5) == 32 && pow2(6) == 64 && pow2(7) == 128
        && pow2(8) == 256 && pow2(9) == 512 && pow2(10) == 1024 && pow2(11) == 2048);
}

/// The historical baseline: a cursor that only moves forward; nothing is
/// ever reclaimed.
pub struct BumpAllocator {
    pub heap_start: u64,
    pub heap_end: u64,
    pub next: u64,
}

impl BumpAllocator {
    pub open spec fn wf(self) -> bool {
        &&& self.heap_start <= self.next <= self.heap_end
        &&& self.heap_end < u64::MAX
    }

    /// A bump allocator over the given heap range.
    pub fn new(heap_start: u64, heap_end: u64) -> (r: BumpAllocator)
        requires
            heap_start <= heap_end,
            heap_end < u64::MAX,
        ensures
            r.wf(),
            r.heap_start == heap_start,
            r.heap_end == heap_end,
            r.next == heap_start,
    {
        BumpAllocator { heap_start, heap_end, next: heap_start }
    }

    /// Round the cursor up to the alignment and advance it by the size;
    /// fail without moving if that would pass the end of the heap.  The
    /// result is exactly the rounded cursor, and success is owed whenever
    /// the rounded request fits.
    pub fn allocate(&mut self, size: u64, align: u64) -> (r: Option<u64>)
        requires
            old(self).wf(),
            is_pow2(align),
            align <= 0x1_0000_0000,
        ensures
            final(self).wf(),
            final(self).heap_start == old(self).heap_start,
            final(self).heap_end == old(self).heap_end,
            match r {
                Some(a) => a == spec_align_up(old(self).next, align) && a % align == 0 && old(
                    self,
                ).next <= a && a + size <= old(self).heap_end && final(self).next == a + size,
                None => *final(self) == *old(self),
            },
            old(self).next + align <= u64::MAX && spec_align_up(old(self).next, align) + size
                <= old(self).heap_end ==> r is Some,
    {
        proof {
            lemma_pow2_pos_u64(align);
        }
        if self.next > u64::MAX - align {
            return None;
        }
        let alloc_start = align_up(self.next, align);
        let alloc_end = alloc_start.saturating_add(size);
        if alloc_end > self.heap_end {
            None
        } else {
            self.next = alloc_end;
            Some(alloc_start)
        }
    }

    /// Reclaiming is not part of this design: a deliberate no-op.
    pub fn dealloc(&mut self, ptr: u64, size: u64, align: u64)
        ensures
            *final(self) == *old(self),
    {
        let _ = ptr;
        let _ = size;
        let _ = align;
    }
}

} // verus!
