//! The bin (segregated free-list) physical memory allocator.
//!
//! The allocator owns one contiguous byte range and keeps every free byte
//! in exactly one of 30 size classes: class `k` holds free blocks of exactly
//! `2^(k+3)` bytes (8 B up to 4 GiB), each aligned to its own size. A block
//! is carved greedily when a range is absorbed, and an allocation takes the
//! head of a large-enough block and re-absorbs what is left of it. Freed
//! blocks are re-absorbed the same way; adjacent free blocks are never
//! coalesced.

use vstd::prelude::*;
use vstd::arithmetic::power2::{pow2, lemma_pow2_unfold, lemma_pow2_pos, lemma2_to64,
    lemma_pow2_strictly_increases};
use vstd::arithmetic::div_mod::{lemma_fundamental_div_mod,
    lemma_mod_division_less_than_divisor, lemma_mod_multiples_basic,
    lemma_fundamental_div_mod_converse_mod};
use vstd::arithmetic::mul::{lemma_mul_is_commutative, lemma_mul_is_distributive_add,
    lemma_mul_inequality, lemma_mul_strict_inequality};
use crate::util::{align_up_spec, is_pow2_align, lemma_pow2_is_pow2, lemma_pow2_get_exp};

verus! {

/// Number of size classes.
pub const BIN_COUNT: usize = 30;

/// Size in bytes of a free block of class `k`: `2^(k+3)`.
pub open spec fn class_size(k: int) -> int {
    pow2((k + 3) as nat) as int
}

/// Two byte ranges `[a, a+sa)` and `[b, b+sb)` have no byte in common.
pub open spec fn ranges_disjoint(a: int, sa: int, b: int, sb: int) -> bool {
    a + sa <= b || b + sb <= a
}

/// The least power of two that is at least `n`.
pub open spec fn next_pow2(n: int) -> int
    recommends
        n >= 1,
    decreases n,
{
    if n <= 1 {
        1
    } else {
        2 * next_pow2((n + 1) / 2)
    }
}

/// The size of the block that serves a request of `size` bytes at
/// alignment `align`: the largest of 8, the request rounded up to a power
/// of two, and the alignment.
pub open spec fn block_size_for(size: int, align: int) -> int {
    let n = next_pow2(size);
    if n >= align && n >= 8 {
        n
    } else if align >= 8 {
        align
    } else {
        8
    }
}

/// The alignment actually applied to a request: at least 8.
pub open spec fn eff_align(align: int) -> int {
    if align >= 8 {
        align
    } else {
        8
    }
}

/// A free block starting at `addr` in class `k` can serve a block of
/// `bsize` bytes at alignment `balign` (both already effective values).
pub open spec fn block_fits(addr: int, k: int, bsize: int, balign: int) -> bool {
    align_up_spec(addr, balign) + bsize <= addr + class_size(k)
}

pub proof fn lemma_class_size_facts(k: int)
    requires
        0 <= k < 30,
    ensures
        class_size(k) >= 8,
        class_size(k) <= 0x1_0000_0000,
        class_size(k) % 8 == 0,
{
    lemma2_to64();
    if k + 3 < 32 {
        lemma_pow2_strictly_increases((k + 3) as nat, 32);
    }
    if 3 < k + 3 {
        lemma_pow2_strictly_increases(3, (k + 3) as nat);
    }
    lemma_pow2_divides_8((k + 3) as nat);
}

/// Every power of two with exponent at least 3 is a multiple of 8.
proof fn lemma_pow2_divides_8(e: nat)
    requires
        e >= 3,
    ensures
        pow2(e) as int % 8 == 0,
    decreases e,
{
    lemma2_to64();
    if e == 3 {
    } else {
        lemma_pow2_divides_8((e - 1) as nat);
        lemma_pow2_unfold(e);
        let h = pow2((e - 1) as nat) as int;
        lemma_fundamental_div_mod(h, 8);
        let q = h / 8;
        assert(2 * h == 8 * (2 * q));
        lemma_mod_multiples_basic(2 * q, 8);
        assert((8 * (2 * q)) % 8 == 0) by {
            lemma_mul_is_commutative(8, 2 * q);
        }
    }
}

pub proof fn lemma_next_pow2_bounds(n: int)
    requires
        n >= 1,
    ensures
        next_pow2(n) >= n,
        next_pow2(n) <= 2 * n - 1,
        is_pow2_align(next_pow2(n)),
    decreases n,
{
    if n <= 1 {
        lemma2_to64();
        lemma_pow2_is_pow2(0);
    } else {
        let m = (n + 1) / 2;
        lemma_next_pow2_bounds(m);
        lemma_pow2_get_exp(next_pow2(m));
        let e = choose|e: nat| pow2(e) == next_pow2(m);
        assert(2 * next_pow2(m) == pow2(e + 1)) by {
            lemma_pow2_unfold(e + 1);
        }
        lemma_pow2_is_pow2(e + 1);
    }
}

/// Two powers of two that both lie in `[n, 2n)` are equal; this makes the
/// block size computed by doubling unique.
pub proof fn lemma_pow2_in_window_unique(p: int, q: int, n: int)
    requires
        n >= 1,
        is_pow2_align(p),
        is_pow2_align(q),
        p >= n,
        q >= n,
        p / 2 < n,
        q / 2 < n,
    ensures
        p == q,
{
    lemma_pow2_get_exp(p);
    lemma_pow2_get_exp(q);
    let a = choose|a: nat| pow2(a) == p;
    let b = choose|b: nat| pow2(b) == q;
    if a < b {
        lemma_pow2_divide_down(b);
        lemma_pow2_monotone(a, (b - 1) as nat);
        assert(q / 2 == pow2((b - 1) as nat));
        assert(pow2(a) <= pow2((b - 1) as nat));
    } else if b < a {
        lemma_pow2_divide_down(a);
        lemma_pow2_monotone(b, (a - 1) as nat);
        assert(p / 2 == pow2((a - 1) as nat));
        assert(pow2(b) <= pow2((a - 1) as nat));
    }
}

proof fn lemma_pow2_divide_down(e: nat)
    requires
        e >= 1,
    ensures
        pow2(e) as int / 2 == pow2((e - 1) as nat) as int,
{
    lemma_pow2_unfold(e);
    lemma_pow2_pos((e - 1) as nat);
}

/// The least power of two at least `n` is no larger than any power of two
/// that is at least `n`.
pub proof fn lemma_next_pow2_le(n: int, cap: int)
    requires
        1 <= n <= cap,
        is_pow2_align(cap),
    ensures
        next_pow2(n) <= cap,
{
    lemma_next_pow2_bounds(n);
    let p = next_pow2(n);
    if p > cap {
        lemma_pow2_get_exp(p);
        lemma_pow2_get_exp(cap);
        let a = choose|a: nat| pow2(a) == p;
        let b = choose|b: nat| pow2(b) == cap;
        if a <= b {
            lemma_pow2_monotone(a, b);
        }
        assert(b < a);
        lemma_pow2_divide_down(a);
        lemma_pow2_monotone(b, (a - 1) as nat);
        assert(p / 2 >= cap);
        vstd::arithmetic::div_mod::lemma_div_is_ordered(p, 2 * n - 1, 2);
        assert(p / 2 <= (2 * n - 1) / 2);
    }
}

proof fn lemma_pow2_monotone(a: nat, b: nat)
    requires
        a <= b,
    ensures
        pow2(a) <= pow2(b),
{
    if a < b {
        lemma_pow2_strictly_increases(a, b);
    }
}

/// Computes `class_size(k)` at run time.
fn class_size_x(k: usize) -> (r: u64)
    requires
        k < 30,
    ensures
        r as int == class_size(k as int),
{
    proof {
        lemma2_to64();
    }
    let mut r: u64 = 8;
    let mut i: usize = 0;
    while i < k
        invariant
            i <= k < 30,
            r as int == class_size(i as int),
        decreases k - i,
    {
        proof {
            lemma_class_size_facts(i as int);
            lemma_class_size_facts(i + 1);
            lemma_pow2_unfold((i + 4) as nat);
        }
        r = r * 2;
        i = i + 1;
    }
    r
}

/// Computes `block_size_for(size, align)` at run time.
fn block_size_x(size: u64, align: u64) -> (b: u64)
    requires
        1 <= size <= 0x1_0000_0000,
        is_pow2_align(align as int),
        align <= 0x1_0000_0000,
    ensures
        b as int == block_size_for(size as int, align as int),
        is_pow2_align(b as int),
        8 <= b <= 0x1_0000_0000,
        b as int % 8 == 0,
        b >= size,
        b as int % eff_align(align as int) == 0,
{
    proof {
        lemma_next_pow2_bounds(size as int);
        lemma2_to64();
        lemma_pow2_is_pow2(0);
    }
    let mut n: u64 = 1;
    while n < size
        invariant
            1 <= n,
            size <= 0x1_0000_0000,
            is_pow2_align(n as int),
            n as int / 2 < size,
        decreases 2 * size - n,
    {
        proof {
            lemma_pow2_get_exp(n as int);
            let e = choose|e: nat| pow2(e) == n as int;
            assert(2 * n as int == pow2(e + 1)) by {
                lemma_pow2_unfold(e + 1);
            }
            lemma_pow2_is_pow2(e + 1);
        }
        n = n * 2;
    }
    proof {
        lemma_pow2_in_window_unique(n as int, next_pow2(size as int), size as int);
        lemma_block_size_multiple(size as int, align as int);
        assert(is_pow2_align(0x1_0000_0000)) by {
            lemma2_to64();
            lemma_pow2_is_pow2(32);
        }
        lemma_next_pow2_le(size as int, 0x1_0000_0000);
    }
    if n >= align && n >= 8 {
        n
    } else if align >= 8 {
        align
    } else {
        8
    }
}

/// The block size is a multiple of 8 and of the effective alignment.
pub proof fn lemma_block_size_multiple(size: int, align: int)
    requires
        1 <= size,
        is_pow2_align(align),
    ensures
        block_size_for(size, align) % 8 == 0,
        block_size_for(size, align) % eff_align(align) == 0,
        block_size_for(size, align) >= 8,
        block_size_for(size, align) >= size,
        block_size_for(size, align) >= eff_align(align),
        is_pow2_align(block_size_for(size, align)),
{
    lemma_next_pow2_bounds(size);
    let n = next_pow2(size);
    let b = block_size_for(size, align);
    let a = eff_align(align);
    assert(is_pow2_align(8)) by {
        lemma2_to64();
        lemma_pow2_is_pow2(3);
    }
    lemma_pow2_divides_pow2(8, b);
    lemma_pow2_divides_pow2(a, b);
}

/// A smaller power of two divides a larger one.
pub proof fn lemma_pow2_divides_pow2(small: int, large: int)
    requires
        is_pow2_align(small),
        is_pow2_align(large),
        small <= large,
    ensures
        large % small == 0,
{
    lemma_pow2_get_exp(small);
    lemma_pow2_get_exp(large);
    let a = choose|a: nat| pow2(a) == small;
    let b = choose|b: nat| pow2(b) == large;
    if b < a {
        lemma_pow2_strictly_increases(b, a);
    }
    vstd::arithmetic::power2::lemma_pow2_adds(a, (b - a) as nat);
    let q = pow2((b - a) as nat) as int;
    assert(large == small * q);
    lemma_mod_multiples_basic(q, small);
    assert((q * small) % small == 0);
    assert(q * small == small * q) by {
        lemma_mul_is_commutative(q, small);
    }
}

/// Mutable access to one free list.
fn bin_mut(bins: &mut Vec<Vec<u64>>, i: usize) -> (r: &mut Vec<u64>)
    requires
        i < old(bins).len(),
    ensures
        *r == old(bins)@[i as int],
        final(bins)@ == old(bins)@.update(i as int, *final(r)),
{
    &mut bins[i]
}

/// The segregated free-list allocator. `bins[k]` holds the start addresses
/// of the free blocks of class `k`; every owned byte is either in exactly
/// one free block or in exactly one live (handed-out) allocation, which the
/// ghost `live` set records as `(address, block size)` pairs.
pub struct Allocator {
    pub bins: Vec<Vec<u64>>,
    pub start: u64,
    pub end: u64,
    pub live: Ghost<Set<(int, int)>>,
}

/// Weighted free-byte count of the classes below `upto`.
pub open spec fn fb(bs: Seq<Seq<u64>>, upto: int) -> int
    decreases upto,
{
    if upto <= 0 {
        0
    } else {
        fb(bs, upto - 1) + bs[upto - 1].len() * class_size(upto - 1)
    }
}

/// Free bytes held at construction from the range `[start, end)`: everything
/// from the first 8-aligned address up to the last multiple of 8 below `end`.
pub open spec fn initial_free_bytes(start: int, end: int) -> int {
    if end - start < 8 {
        0
    } else {
        (end - align_up_spec(start, 8)) - (end - align_up_spec(start, 8)) % 8
    }
}

impl Allocator {
    /// The free list of class `k`.
    pub open spec fn bin(self, k: int) -> Seq<u64> {
        self.bins@[k]@
    }

    pub open spec fn bins_view(self) -> Seq<Seq<u64>> {
        Seq::new(30, |k: int| self.bins@[k]@)
    }

    /// Bytes held on the free lists.
    pub open spec fn free_bytes(self) -> int {
        fb(self.bins_view(), 30)
    }

    /// There are 30 classes, and every free block is aligned to its size
    /// and lies inside the managed range.
    pub open spec fn bins_wf(self) -> bool {
        &&& self.bins@.len() == 30
        &&& forall|k: int, i: int|
            0 <= k < 30 && 0 <= i < self.bin(k).len() ==> {
                &&& (#[trigger] self.bin(k)[i]) as int % class_size(k) == 0
                &&& self.start <= self.bin(k)[i]
                &&& self.bin(k)[i] + class_size(k) <= self.end
            }
    }

    /// No two free blocks overlap.
    pub open spec fn free_free_disjoint(self) -> bool {
        forall|k1: int, i1: int, k2: int, i2: int|
            0 <= k1 < 30 && 0 <= i1 < self.bin(k1).len() && 0 <= k2 < 30 && 0 <= i2
                < self.bin(k2).len() && (k1 != k2 || i1 != i2) ==> ranges_disjoint(
                (#[trigger] self.bin(k1)[i1]) as int,
                class_size(k1),
                (#[trigger] self.bin(k2)[i2]) as int,
                class_size(k2),
            )
    }

    /// Every live allocation lies inside the managed range, starts at a
    /// multiple of 8 and covers a positive multiple of 8 bytes.
    pub open spec fn live_wf(self) -> bool {
        forall|b: (int, int)| #[trigger]
            self.live@.contains(b) ==> {
                &&& self.start <= b.0
                &&& b.0 + b.1 <= self.end
                &&& b.0 % 8 == 0
                &&& 8 <= b.1
                &&& b.1 % 8 == 0
            }
    }

    /// No two live allocations overlap.
    pub open spec fn live_live_disjoint(self) -> bool {
        forall|b1: (int, int), b2: (int, int)|
            #[trigger] self.live@.contains(b1) && #[trigger] self.live@.contains(b2) && b1 != b2
                ==> ranges_disjoint(b1.0, b1.1, b2.0, b2.1)
    }

    /// No free block overlaps a live allocation.
    pub open spec fn free_live_disjoint(self) -> bool {
        forall|k: int, i: int, b: (int, int)|
            0 <= k < 30 && 0 <= i < self.bin(k).len() && #[trigger] self.live@.contains(b)
                ==> ranges_disjoint((#[trigger] self.bin(k)[i]) as int, class_size(k), b.0, b.1)
    }

    pub open spec fn wf(self) -> bool {
        &&& self.start <= self.end
        &&& self.bins_wf()
        &&& self.free_free_disjoint()
        &&& self.live_wf()
        &&& self.live_live_disjoint()
        &&& self.free_live_disjoint()
    }

    /// No byte of `[s, e)` is on a free list or in a live allocation.
    pub open spec fn range_unowned(self, s: int, e: int) -> bool {
        &&& forall|k: int, i: int|
            0 <= k < 30 && 0 <= i < self.bin(k).len() ==> ranges_disjoint(
                (#[trigger] self.bin(k)[i]) as int,
                class_size(k),
                s,
                e - s,
            )
        &&& forall|b: (int, int)| #[trigger]
            self.live@.contains(b) ==> ranges_disjoint(b.0, b.1, s, e - s)
    }
}

/// Index into the pre-removal list that an index into the post-removal
/// list corresponds to, when index `ii` of class `ki` was removed.
pub open spec fn shift_idx(k: int, i: int, ki: int, ii: int) -> int {
    if k == ki && i >= ii {
        i + 1
    } else {
        i
    }
}

/// The free lists of `a2` extend those of `a1` with blocks inside `[s, e)`.
pub open spec fn bins_extend(a1: Allocator, a2: Allocator, s: int, e: int) -> bool {
    &&& a2.bins@.len() == 30
    &&& forall|k: int| 0 <= k < 30 ==> (#[trigger] a1.bin(k)).is_prefix_of(a2.bin(k))
    &&& forall|k: int, i: int|
        0 <= k < 30 && a1.bin(k).len() <= i < a2.bin(k).len() ==> s <= (#[trigger] a2.bin(k)[i])
            && a2.bin(k)[i] + class_size(k) <= e
}

/// Changing the length of one class list changes the weighted sum by the
/// corresponding multiple of that class's size.
proof fn lemma_fb_change(b1: Seq<Seq<u64>>, b2: Seq<Seq<u64>>, j: int, d: int, upto: int)
    requires
        forall|k: int| 0 <= k < upto && k != j ==> (#[trigger] b2[k]).len() == b1[k].len(),
        0 <= j < upto ==> b2[j].len() == b1[j].len() + d,
    ensures
        fb(b2, upto) == fb(b1, upto) + if 0 <= j < upto {
            d * class_size(j)
        } else {
            0
        },
    decreases upto,
{
    if upto > 0 {
        lemma_fb_change(b1, b2, j, d, upto - 1);
        if j == upto - 1 {
            assert(b2[j].len() * class_size(j) == b1[j].len() * class_size(j) + d * class_size(j))
                by {
                lemma_mul_is_distributive_add(class_size(j), b1[j].len() as int, d);
                lemma_mul_is_commutative(class_size(j), b1[j].len() as int + d);
                lemma_mul_is_commutative(class_size(j), b1[j].len() as int);
                lemma_mul_is_commutative(class_size(j), d);
            }
        }
    }
}

/// The weighted sum is nonnegative, and a nonempty class bounds it below.
proof fn lemma_fb_lower(bs: Seq<Seq<u64>>, upto: int)
    ensures
        fb(bs, upto) >= 0,
        forall|k: int|
            0 <= k < upto && (#[trigger] bs[k]).len() > 0 ==> fb(bs, upto) >= class_size(k),
    decreases upto,
{
    if upto > 0 {
        lemma_fb_lower(bs, upto - 1);
        lemma_pow2_pos((upto + 2) as nat);
        vstd::arithmetic::mul::lemma_mul_nonnegative(bs[upto - 1].len() as int,
            class_size(upto - 1));
        assert forall|k: int| 0 <= k < upto && (#[trigger] bs[k]).len() > 0 implies fb(bs, upto)
            >= class_size(k) by {
            if k == upto - 1 {
                lemma_mul_inequality(1, bs[k].len() as int, class_size(k));
                lemma_mul_is_commutative(bs[k].len() as int, class_size(k));
            }
        }
    }
}

/// `a <= b` gives `a * c <= b * c` for nonnegative `c`.
proof fn lemma_mul_le(a: int, b: int, c: int)
    requires
        a <= b,
        c >= 0,
    ensures
        a * c <= b * c,
{
    lemma_mul_inequality(a, b, c);
}

/// The free lists of a well-formed allocator never hold more than its
/// managed range.
proof fn lemma_fb_bound(a: Allocator, upto: int)
    requires
        a.wf(),
        0 <= upto <= 30,
    ensures
        fb(a.bins_view(), upto) <= upto * (a.end - a.start),
    decreases upto,
{
    if upto > 0 {
        lemma_fb_bound(a, upto - 1);
        let k = upto - 1;
        lemma_class_size_facts(k);
        // each block of class k occupies class_size(k) disjoint bytes of
        // the range, so one class alone cannot exceed the range
        lemma_class_total(a, k, a.bin(k).len() as int);
        vstd::arithmetic::mul::lemma_mul_is_distributive_add_other_way(a.end - a.start, upto - 1,
            1);
    }
}

/// The first `m` blocks of one class cover `m * class_size(k)` disjoint
/// bytes of the managed range.
proof fn lemma_class_total(a: Allocator, k: int, m: int)
    requires
        a.wf(),
        0 <= k < 30,
        0 <= m <= a.bin(k).len(),
    ensures
        m * class_size(k) <= a.end - a.start,
    decreases m,
{
    lemma_class_size_facts(k);
    if m == 0 {
        vstd::arithmetic::mul::lemma_mul_basics(class_size(k));
    } else {
        lemma_class_total_sorted(a, k, m);
    }
}

/// Within one class, the blocks can be laid out disjointly inside the
/// range, so their total size fits in it. The proof walks the blocks in
/// increasing address order.
proof fn lemma_class_total_sorted(a: Allocator, k: int, m: int)
    requires
        a.wf(),
        0 <= k < 30,
        1 <= m <= a.bin(k).len(),
    ensures
        m * class_size(k) <= a.end - a.start,
{
    let cs = class_size(k);
    lemma_class_size_facts(k);
    // order the m chosen blocks by address: induction on a set of indices
    let idxs = vstd::set_lib::set_int_range(0, m);
    vstd::set_lib::lemma_int_range(0, m);
    lemma_blocks_fit(a, k, idxs, m);
    vstd::arithmetic::mul::lemma_mul_is_commutative(m, cs);
}

/// Any set of `m` distinct blocks of class `k` occupies `m * class_size(k)`
/// bytes between the range start and the end of its rightmost block.
proof fn lemma_blocks_fit(a: Allocator, k: int, idxs: Set<int>, m: int)
    requires
        a.wf(),
        0 <= k < 30,
        idxs.finite(),
        idxs.len() == m,
        m >= 0,
        forall|i: int| #[trigger] idxs.contains(i) ==> 0 <= i < a.bin(k).len(),
    ensures
        class_size(k) * m <= a.end - a.start,
    decreases m,
{
    let cs = class_size(k);
    lemma_class_size_facts(k);
    if m == 0 {
        vstd::arithmetic::mul::lemma_mul_basics(cs);
    } else {
        // pick the block with the greatest address; all others end at or
        // before its start
        let j = choose|j: int| idxs.contains(j) && forall|i: int| #[trigger] idxs.contains(i)
            ==> a.bin(k)[i] <= a.bin(k)[j];
        assert(idxs.contains(j) && forall|i: int| #[trigger] idxs.contains(i) ==> a.bin(k)[i]
            <= a.bin(k)[j]) by {
            lemma_max_index_exists(a, k, idxs, m);
        }
        let rest = idxs.remove(j);
        assert(rest.len() == m - 1);
        assert forall|i: int| #[trigger] rest.contains(i) implies 0 <= i < a.bin(k).len()
            && a.bin(k)[i] + cs <= a.bin(k)[j] by {
            assert(idxs.contains(i));
            assert(ranges_disjoint(a.bin(k)[i] as int, cs, a.bin(k)[j] as int, cs));
        }
        lemma_blocks_fit_below(a, k, rest, m - 1, a.bin(k)[j] as int);
        assert(class_size(k) * m == class_size(k) * (m - 1) + class_size(k)) by {
            vstd::arithmetic::mul::lemma_mul_is_distributive_add(class_size(k), m - 1, 1);
        }
    }
}

/// As `lemma_blocks_fit`, but bounding the blocks below a given address.
proof fn lemma_blocks_fit_below(a: Allocator, k: int, idxs: Set<int>, m: int, limit: int)
    requires
        a.wf(),
        0 <= k < 30,
        idxs.finite(),
        idxs.len() == m,
        m >= 0,
        a.start <= limit,
        forall|i: int| #[trigger] idxs.contains(i) ==> 0 <= i < a.bin(k).len() && a.bin(k)[i]
            + class_size(k) <= limit,
    ensures
        class_size(k) * m <= limit - a.start,
    decreases m,
{
    let cs = class_size(k);
    lemma_class_size_facts(k);
    if m == 0 {
        vstd::arithmetic::mul::lemma_mul_basics(cs);
    } else {
        let j = choose|j: int| idxs.contains(j) && forall|i: int| #[trigger] idxs.contains(i)
            ==> a.bin(k)[i] <= a.bin(k)[j];
        assert(idxs.contains(j) && forall|i: int| #[trigger] idxs.contains(i) ==> a.bin(k)[i]
            <= a.bin(k)[j]) by {
            lemma_max_index_exists(a, k, idxs, m);
        }
        let rest = idxs.remove(j);
        assert forall|i: int| #[trigger] rest.contains(i) implies 0 <= i < a.bin(k).len()
            && a.bin(k)[i] + cs <= a.bin(k)[j] by {
            assert(idxs.contains(i));
            assert(ranges_disjoint(a.bin(k)[i] as int, cs, a.bin(k)[j] as int, cs));
        }
        lemma_blocks_fit_below(a, k, rest, m - 1, a.bin(k)[j] as int);
        assert(class_size(k) * m == class_size(k) * (m - 1) + class_size(k)) by {
            vstd::arithmetic::mul::lemma_mul_is_distributive_add(class_size(k), m - 1, 1);
        }
    }
}

/// A finite nonempty set of block indices has one whose block address is
/// greatest.
proof fn lemma_max_index_exists(a: Allocator, k: int, idxs: Set<int>, m: int)
    requires
        0 <= k < 30,
        idxs.finite(),
        idxs.len() == m,
        m >= 1,
        forall|i: int| #[trigger] idxs.contains(i) ==> 0 <= i < a.bin(k).len(),
    ensures
        exists|j: int|
            idxs.contains(j) && forall|i: int| #[trigger] idxs.contains(i) ==> a.bin(k)[i]
                <= a.bin(k)[j],
    decreases m,
{
    let x = idxs.choose();
    assert(idxs.contains(x)) by {
        vstd::set_lib::lemma_set_empty_equivalency_len(idxs);
    }
    if m == 1 {
        assert forall|i: int| #[trigger] idxs.contains(i) implies a.bin(k)[i] <= a.bin(k)[x] by {
            if i != x {
                lemma_two_elements(idxs, x, i);
            }
        }
    } else {
        let rest = idxs.remove(x);
        lemma_max_index_exists(a, k, rest, m - 1);
        let j0 = choose|j0: int|
            rest.contains(j0) && forall|i: int| #[trigger] rest.contains(i) ==> a.bin(k)[i]
                <= a.bin(k)[j0];
        if a.bin(k)[x] <= a.bin(k)[j0] {
            assert forall|i: int| #[trigger] idxs.contains(i) implies a.bin(k)[i]
                <= a.bin(k)[j0] by {
                if i != x {
                    assert(rest.contains(i));
                }
            }
        } else {
            assert forall|i: int| #[trigger] idxs.contains(i) implies a.bin(k)[i]
                <= a.bin(k)[x] by {
                if i != x {
                    assert(rest.contains(i));
                }
            }
        }
    }
}

/// A one-element set has no second element.
proof fn lemma_two_elements(s: Set<int>, x: int, y: int)
    requires
        s.finite(),
        s.len() == 1,
        s.contains(x),
        s.contains(y),
    ensures
        x == y,
{
    if x != y {
        assert(s.remove(x).contains(y));
        assert(s.remove(x).len() == 0);
        vstd::set_lib::lemma_set_empty_equivalency_len(s.remove(x));
    }
}

/// With every class empty the weighted sum is zero.
proof fn lemma_fb_empty(bs: Seq<Seq<u64>>, upto: int)
    requires
        forall|k: int| 0 <= k < upto ==> (#[trigger] bs[k]).len() == 0,
    ensures
        fb(bs, upto) == 0,
    decreases upto,
{
    if upto > 0 {
        lemma_fb_empty(bs, upto - 1);
    }
}

/// Inserts the byte range `[s, e)` into the free lists: starting at `s`,
/// repeatedly carve off the largest block that is aligned to its own size
/// and fits in what is left, down to blocks of 8 bytes. A tail shorter than
/// 8 bytes is left out (leaked).
fn absorb_memory(a: &mut Allocator, s: u64, e: u64)
    requires
        old(a).wf(),
        old(a).start <= s <= e <= old(a).end,
        s % 8 == 0,
        old(a).range_unowned(s as int, e as int),
    ensures
        final(a).wf(),
        final(a).start == old(a).start,
        final(a).end == old(a).end,
        final(a).live@ == old(a).live@,
        bins_extend(*old(a), *final(a), s as int, e as int),
        final(a).free_bytes() == old(a).free_bytes() + (e - s) - (e - s) as int % 8,
{
    let ghost a0 = *a;
    let mut curr = s;
    while e - curr >= 8
        invariant
            a.wf(),
            a.start == a0.start,
            a.end == a0.end,
            a.live@ == a0.live@,
            a0.start <= s <= curr <= e <= a0.end,
            s % 8 == 0,
            curr % 8 == 0,
            bins_extend(a0, *a, s as int, curr as int),
            a.range_unowned(curr as int, e as int),
            a.free_bytes() == a0.free_bytes() + (curr - s),
        decreases e - curr,
    {
        // pick the largest class whose block is self-aligned at `curr` and
        // fits before `e`
        let mut kk: usize = 29;
        let mut cs = class_size_x(29);
        proof {
            lemma_class_size_facts(29);
        }
        while kk > 0 && !(curr % cs == 0 && cs <= e - curr)
            invariant
                kk < 30,
                cs as int == class_size(kk as int),
                cs >= 8,
                curr <= e,
                e - curr >= 8,
                curr % 8 == 0,
            decreases kk,
        {
            kk = kk - 1;
            cs = class_size_x(kk);
            proof {
                lemma_class_size_facts(kk as int);
            }
        }
        proof {
            lemma_class_size_facts(kk as int);
            lemma2_to64();
        }
        assert(curr as int % class_size(kk as int) == 0 && cs <= e - curr);
        let ghost before = *a;
        let b = bin_mut(&mut a.bins, kk);
        b.push(curr);
        proof {
            let kki = kk as int;
            let ci = curr as int;
            let csi = class_size(kki);
            assert(a.bin(kki) == before.bin(kki).push(curr));
            assert(forall|k: int| 0 <= k < 30 && k != kki ==> a.bin(k) == before.bin(k));
            assert forall|k: int, i: int| 0 <= k < 30 && 0 <= i < a.bin(k).len() implies {
                &&& (#[trigger] a.bin(k)[i]) as int % class_size(k) == 0
                &&& a.start <= a.bin(k)[i]
                &&& a.bin(k)[i] + class_size(k) <= a.end
            } by {
                if k == kki && i == a.bin(k).len() - 1 {
                } else {
                    assert(a.bin(k)[i] == before.bin(k)[i]);
                }
            }
            // the fresh block lies in [curr, e), which nothing else owns
            assert forall|k1: int, i1: int, k2: int, i2: int|
                0 <= k1 < 30 && 0 <= i1 < a.bin(k1).len() && 0 <= k2 < 30 && 0 <= i2
                    < a.bin(k2).len() && (k1 != k2 || i1 != i2) implies ranges_disjoint(
                (#[trigger] a.bin(k1)[i1]) as int,
                class_size(k1),
                (#[trigger] a.bin(k2)[i2]) as int,
                class_size(k2),
            ) by {
                let fresh1 = k1 == kki && i1 == a.bin(kki).len() - 1;
                let fresh2 = k2 == kki && i2 == a.bin(kki).len() - 1;
                if fresh1 && !fresh2 {
                    assert(a.bin(k2)[i2] == before.bin(k2)[i2]);
                } else if !fresh1 && fresh2 {
                    assert(a.bin(k1)[i1] == before.bin(k1)[i1]);
                } else if !fresh1 && !fresh2 {
                    assert(a.bin(k1)[i1] == before.bin(k1)[i1]);
                    assert(a.bin(k2)[i2] == before.bin(k2)[i2]);
                }
            }
            assert forall|k: int, i: int, bl: (int, int)|
                0 <= k < 30 && 0 <= i < a.bin(k).len() && #[trigger] a.live@.contains(bl)
                    implies ranges_disjoint((#[trigger] a.bin(k)[i]) as int, class_size(k), bl.0,
                bl.1) by {
                if !(k == kki && i == a.bin(kki).len() - 1) {
                    assert(a.bin(k)[i] == before.bin(k)[i]);
                }
            }
            assert forall|k: int, i: int|
                0 <= k < 30 && 0 <= i < a.bin(k).len() implies ranges_disjoint(
                (#[trigger] a.bin(k)[i]) as int,
                class_size(k),
                ci + csi,
                e - (ci + csi),
            ) by {
                if !(k == kki && i == a.bin(kki).len() - 1) {
                    assert(a.bin(k)[i] == before.bin(k)[i]);
                    assert(ranges_disjoint(a.bin(k)[i] as int, class_size(k), ci, e - ci));
                }
            }
            assert forall|k: int, i: int|
                0 <= k < 30 && a0.bin(k).len() <= i < a.bin(k).len() implies s <= (
            #[trigger] a.bin(k)[i]) && a.bin(k)[i] + class_size(k) <= ci + csi by {
                if !(k == kki && i == a.bin(kki).len() - 1) {
                    assert(a.bin(k)[i] == before.bin(k)[i]);
                }
            }
            assert(a.bins_view() =~= before.bins_view().update(kki,
                before.bins_view()[kki].push(curr)));
            lemma_fb_change(before.bins_view(), a.bins_view(), kki, 1, 30);
            assert(1 * csi == csi) by {
                lemma_mul_is_commutative(1, csi);
            }
            lemma_mod_sum_8(curr as int, csi);
        }
        curr = curr + cs;
    }
    proof {
        let d = (e - curr) as int;
        lemma_mod_small_sum(s as int, (curr - s) as int, d, (e - s) as int);
    }
}

/// Divisibility is transitive: if `m` divides `a` and `d` divides `m`,
/// then `d` divides `a`.
pub proof fn lemma_mod_transitive(a: int, m: int, d: int)
    requires
        a >= 0,
        m >= 1,
        d >= 1,
        a % m == 0,
        m % d == 0,
    ensures
        a % d == 0,
{
    lemma_fundamental_div_mod(a, m);
    lemma_fundamental_div_mod(m, d);
    let q = a / m;
    let r = m / d;
    assert(a == m * q);
    assert(m == d * r);
    assert(a == (d * r) * q);
    assert((d * r) * q == d * (r * q)) by {
        vstd::arithmetic::mul::lemma_mul_is_associative(d, r, q);
    }
    lemma_mod_multiples_basic(r * q, d);
    lemma_mul_is_commutative(r * q, d);
}

/// `x % 8 == 0` and `y % 8 == 0` give `(x + y) % 8 == 0`.
proof fn lemma_mod_sum_8(x: int, y: int)
    requires
        x % 8 == 0,
        y % 8 == 0,
        x >= 0,
        y >= 0,
    ensures
        (x + y) % 8 == 0,
{
    lemma_fundamental_div_mod(x, 8);
    lemma_fundamental_div_mod(y, 8);
    assert(x + y == 8 * (x / 8 + y / 8));
    lemma_mod_multiples_basic(x / 8 + y / 8, 8);
    lemma_mul_is_commutative(8, x / 8 + y / 8);
}

/// If `total == covered + d` with `covered` a multiple of 8 and `0 <= d < 8`,
/// then `covered == total - total % 8`.
proof fn lemma_mod_small_sum(base: int, covered: int, d: int, total: int)
    requires
        base % 8 == 0,
        base >= 0,
        covered >= 0,
        (base + covered) % 8 == 0,
        0 <= d < 8,
        total == covered + d,
    ensures
        covered == total - total % 8,
{
    lemma_fundamental_div_mod(base, 8);
    lemma_fundamental_div_mod(base + covered, 8);
    let q = (base + covered) / 8 - base / 8;
    assert(covered == 8 * q);
    lemma_fundamental_div_mod_converse_mod(total, 8, q, d);
}

impl Allocator {
    /// Creates a new bin allocator that will allocate memory from the region
    /// starting at address `start` and ending at address `end`. The whole
    /// region is absorbed into the free lists up front.
    pub fn new(start: u64, end: u64) -> (a: Allocator)
        requires
            start <= end,
        ensures
            a.wf(),
            a.start == start,
            a.end == end,
            a.live@ == Set::<(int, int)>::empty(),
            a.free_bytes() == initial_free_bytes(start as int, end as int),
    {
        let mut bins: Vec<Vec<u64>> = Vec::new();
        let mut i: usize = 0;
        while i < 30
            invariant
                bins@.len() == i,
                i <= 30,
                forall|j: int| 0 <= j < i ==> (#[trigger] bins@[j])@.len() == 0,
            decreases 30 - i,
        {
            bins.push(Vec::new());
            i = i + 1;
        }
        let mut a = Allocator { bins, start, end, live: Ghost(Set::empty()) };
        proof {
            lemma_fb_empty(a.bins_view(), 30);
        }
        if end - start >= 8 {
            proof {
                lemma2_to64();
                lemma_pow2_is_pow2(3);
                crate::util::lemma_align_mod_facts(start as int, 8);
            }
            let s0 = crate::util::align_up(start, 8);
            absorb_memory(&mut a, s0, end);
        }
        a
    }

    /// Counts the bytes currently on the free lists.
    pub fn free_byte_count(&self) -> (r: u64)
        requires
            self.wf(),
            self.end - self.start <= 0x1_0000_0000_0000,
        ensures
            r == self.free_bytes(),
    {
        let mut total: u64 = 0;
        let mut k: usize = 0;
        while k < 30
            invariant
                self.wf(),
                self.end - self.start <= 0x1_0000_0000_0000,
                k <= 30,
                total == fb(self.bins_view(), k as int),
                total <= k as int * 0x1_0000_0000_0000,
            decreases 30 - k,
        {
            proof {
                lemma_class_size_facts(k as int);
                lemma_class_total(*self, k as int, self.bin(k as int).len() as int);
                lemma_fb_lower(self.bins_view(), k as int);
            }
            let cs = class_size_x(k);
            let n = self.bins[k].len();
            let ghost csi = cs as int;
            proof {
                lemma_mul_is_commutative(n as int, csi);
            }
            let mut i: usize = 0;
            let mut sub: u64 = 0;
            while i < n
                invariant
                    i <= n,
                    8 <= cs <= 0x1_0000_0000,
                    csi == cs,
                    sub == i as int * csi,
                    n as int * csi <= 0x1_0000_0000_0000,
                decreases n - i,
            {
                proof {
                    lemma_mul_le(i + 1, n as int, csi);
                    vstd::arithmetic::mul::lemma_mul_is_distributive_add_other_way(csi, i as int,
                        1);
                    vstd::arithmetic::mul::lemma_mul_nonnegative(i as int, csi);
                }
                sub = sub + cs;
                i = i + 1;
            }
            proof {
                assert(self.bins_view()[k as int].len() * class_size(k as int) == n as int
                    * csi);
                assert((k as int + 1) * 0x1_0000_0000_0000 == k as int * 0x1_0000_0000_0000
                    + 0x1_0000_0000_0000) by {
                    vstd::arithmetic::mul::lemma_mul_is_distributive_add_other_way(
                        0x1_0000_0000_0000, k as int, 1);
                }
                vstd::arithmetic::mul::lemma_mul_nonnegative(k as int, 0x1_0000_0000_0000);
            }
            total = total + sub;
            k = k + 1;
        }
        total
    }

    /// Removes the free block `bins[k][i]`, hands out `bsz` bytes at the
    /// first address inside it that is aligned to `aeff`, and re-absorbs the
    /// head and tail that are left over.
    fn carve(&mut self, k: usize, i: usize, bsz: u64, aeff: u64) -> (p: u64)
        requires
            old(self).wf(),
            k < 30,
            i < old(self).bin(k as int).len(),
            is_pow2_align(aeff as int),
            8 <= aeff <= 0x1_0000_0000,
            is_pow2_align(bsz as int),
            8 <= bsz,
            bsz as int % 8 == 0,
            bsz as int % aeff as int == 0,
            block_fits(old(self).bin(k as int)[i as int] as int, k as int, bsz as int,
                aeff as int),
        ensures
            final(self).wf(),
            final(self).start == old(self).start,
            final(self).end == old(self).end,
            p as int % aeff as int == 0,
            old(self).start <= p,
            p + bsz <= old(self).end,
            final(self).live@ == old(self).live@.insert((p as int, bsz as int)),
            !old(self).live@.contains((p as int, bsz as int)),
            forall|b: (int, int)| #[trigger]
                old(self).live@.contains(b) ==> ranges_disjoint(p as int, bsz as int, b.0, b.1),
            final(self).free_bytes() == old(self).free_bytes() - bsz,
    {
        proof {
            lemma_class_size_facts(k as int);
            lemma2_to64();
            lemma_pow2_is_pow2(3);
            lemma_pow2_divides_pow2(8, aeff as int);
        }
        let cs = class_size_x(k);
        let bvec = bin_mut(&mut self.bins, k);
        let ghost before = *old(self);
        let addr = bvec.remove(i);
        let ghost mid = *self;
        let ghost ki = k as int;
        let ghost ii = i as int;
        let ghost csi = class_size(ki);
        proof {
            assert(mid.bin(ki) == before.bin(ki).remove(ii));
            assert(forall|k2: int| 0 <= k2 < 30 && k2 != ki ==> mid.bin(k2) == before.bin(k2));
            // each remaining block equals an old one at a shifted index
            assert forall|k2: int, i2: int|
                0 <= k2 < 30 && 0 <= i2 < mid.bin(k2).len() implies (#[trigger] mid.bin(k2)[i2])
                == before.bin(k2)[shift_idx(k2, i2, ki, ii)] && 0 <= shift_idx(k2, i2, ki, ii)
                < before.bin(k2).len() && (k2 != ki || shift_idx(k2, i2, ki, ii) != ii) by {
                if k2 == ki && i2 >= ii {
                    assert(mid.bin(k2)[i2] == before.bin(k2)[i2 + 1]);
                } else {
                    assert(mid.bin(k2)[i2] == before.bin(k2)[i2]);
                }
            }
            assert(mid.bins_view() =~= before.bins_view().update(ki,
                before.bins_view()[ki].remove(ii)));
            lemma_fb_change(before.bins_view(), mid.bins_view(), ki, -1, 30);
            assert((-1) * csi == -csi) by {
                lemma_mul_is_commutative(-1, csi);
            }
            lemma_mod_transitive(addr as int, csi, 8);
        }
        let rem = addr % aeff;
        let off = if rem == 0 {
            0
        } else {
            aeff - rem
        };
        proof {
            // `off` and the carved address are multiples of 8
            lemma_fundamental_div_mod(addr as int, aeff as int);
            let q = addr as int / aeff as int;
            assert(rem as int == addr - aeff as int * q);
            assert((aeff as int * q) % 8 == 0) by {
                lemma_pow2_divides_pow2(8, aeff as int);
                lemma_fundamental_div_mod(aeff as int, 8);
                assert(aeff as int * q == 8 * ((aeff as int / 8) * q)) by {
                    vstd::arithmetic::mul::lemma_mul_is_associative(8, aeff as int / 8, q);
                }
                lemma_mod_multiples_basic((aeff as int / 8) * q, 8);
                lemma_mul_is_commutative((aeff as int / 8) * q, 8);
            }
            lemma_mod_diff_8(addr as int, aeff as int * q);
            if rem != 0 {
                lemma_mod_diff_8(aeff as int, rem as int);
            }
            lemma_mod_sum_8(addr as int, off as int);
            crate::util::lemma_align_mod_facts(addr as int, aeff as int);
            assert(align_up_spec(addr as int, aeff as int) == addr + off);
            assert((addr + off) as int % aeff as int == 0);
            assert(addr as int + off + bsz <= addr as int + csi);
        }
        let p = addr + off;
        proof {
            // the new live block sits inside the removed free block, so it
            // is apart from everything else the allocator owns
            assert forall|b: (int, int)| #[trigger]
                mid.live@.contains(b) implies ranges_disjoint(p as int, bsz as int, b.0,
                b.1) by {
                assert(ranges_disjoint(addr as int, csi, b.0, b.1));
            }
            assert(!mid.live@.contains((p as int, bsz as int)));
            self.live@ = mid.live@.insert((p as int, bsz as int));
        }
        let ghost mid2 = *self;
        proof {
            lemma_mod_transitive(p as int, aeff as int, 8);
            let ghost nb = (p as int, bsz as int);
            assert(addr as int + csi <= before.end);
            assert forall|k2: int, i2: int|
                0 <= k2 < 30 && 0 <= i2 < mid2.bin(k2).len() implies {
                &&& (#[trigger] mid2.bin(k2)[i2]) as int % class_size(k2) == 0
                &&& mid2.start <= mid2.bin(k2)[i2]
                &&& mid2.bin(k2)[i2] + class_size(k2) <= mid2.end
            } by {
                assert(mid2.bin(k2)[i2] == before.bin(k2)[shift_idx(k2, i2, ki, ii)]);
            }
            assert forall|k1: int, i1: int, k2: int, i2: int|
                0 <= k1 < 30 && 0 <= i1 < mid2.bin(k1).len() && 0 <= k2 < 30 && 0 <= i2
                    < mid2.bin(k2).len() && (k1 != k2 || i1 != i2) implies ranges_disjoint(
                (#[trigger] mid2.bin(k1)[i1]) as int,
                class_size(k1),
                (#[trigger] mid2.bin(k2)[i2]) as int,
                class_size(k2),
            ) by {
                let j1 = shift_idx(k1, i1, ki, ii);
                let j2 = shift_idx(k2, i2, ki, ii);
                assert(mid2.bin(k1)[i1] == before.bin(k1)[j1]);
                assert(mid2.bin(k2)[i2] == before.bin(k2)[j2]);
                assert(k1 != k2 || j1 != j2);
            }
            assert forall|k2: int, i2: int, b: (int, int)|
                0 <= k2 < 30 && 0 <= i2 < mid2.bin(k2).len() && #[trigger] mid2.live@.contains(b)
                    implies ranges_disjoint((#[trigger] mid2.bin(k2)[i2]) as int, class_size(k2),
                b.0, b.1) by {
                let j2 = shift_idx(k2, i2, ki, ii);
                assert(mid2.bin(k2)[i2] == before.bin(k2)[j2]);
                if b == nb {
                    assert(ranges_disjoint(before.bin(k2)[j2] as int, class_size(k2), addr as int,
                        csi));
                } else {
                    assert(mid.live@.contains(b));
                }
            }
            assert(mid2.wf());
            assert forall|k2: int, i2: int|
                0 <= k2 < 30 && 0 <= i2 < mid2.bin(k2).len() implies ranges_disjoint(
                (#[trigger] mid2.bin(k2)[i2]) as int,
                class_size(k2),
                addr as int,
                p - addr,
            ) by {
                let j2 = shift_idx(k2, i2, ki, ii);
                assert(mid2.bin(k2)[i2] == before.bin(k2)[j2]);
                assert(ranges_disjoint(before.bin(k2)[j2] as int, class_size(k2), addr as int,
                    csi));
            }
            assert forall|b: (int, int)| #[trigger]
                mid2.live@.contains(b) implies ranges_disjoint(b.0, b.1, addr as int,
                p - addr) by {
                if b != nb {
                    assert(mid.live@.contains(b));
                    assert(ranges_disjoint(addr as int, csi, b.0, b.1));
                }
            }
            assert(mid2.range_unowned(addr as int, p as int));
        }
        absorb_memory(self, addr, p);
        let ghost mid3 = *self;
        proof {
            assert forall|k2: int, i2: int|
                0 <= k2 < 30 && 0 <= i2 < mid3.bin(k2).len() implies ranges_disjoint(
                (#[trigger] mid3.bin(k2)[i2]) as int,
                class_size(k2),
                p as int + bsz as int,
                addr as int + csi - (p as int + bsz as int),
            ) by {
                if i2 < mid2.bin(k2).len() {
                    assert(mid2.bin(k2).is_prefix_of(mid3.bin(k2)));
                    assert(mid3.bin(k2)[i2] == mid2.bin(k2)[i2]);
                    let j2 = shift_idx(k2, i2, ki, ii);
                    assert(mid2.bin(k2)[i2] == before.bin(k2)[j2]);
                    assert(ranges_disjoint(before.bin(k2)[j2] as int, class_size(k2), addr as int,
                        csi));
                } else {
                    assert(addr <= mid3.bin(k2)[i2] && mid3.bin(k2)[i2] as int + class_size(k2)
                        <= p as int);
                }
            }
            assert forall|b: (int, int)| #[trigger]
                mid3.live@.contains(b) implies ranges_disjoint(b.0, b.1, p as int + bsz as int,
                addr as int + csi - (p as int + bsz as int)) by {
                if b != (p as int, bsz as int) {
                    assert(mid.live@.contains(b));
                    assert(ranges_disjoint(addr as int, csi, b.0, b.1));
                }
            }
            assert(mid3.range_unowned(p as int + bsz as int, addr as int + csi));
            lemma_mod_sum_8(p as int, bsz as int);
            assert((p - addr) % 8 == 0);
            assert((addr as int + csi - (p as int + bsz as int)) % 8 == 0) by {
                lemma_mod_sum_8(addr as int, csi);
                lemma_mod_diff_8(addr as int + csi, p as int + bsz as int);
            }
        }
        absorb_memory(self, p + bsz, addr + cs);
        p
    }

    /// Allocates memory. Returns an address meeting the requested size and
    /// alignment, or `None` when no free block can accommodate the request.
    ///
    /// A successful allocation consumes exactly one block of
    /// `block_size_for(size, align)` bytes: it is aligned, lies inside the
    /// managed range, and overlaps no other live allocation.
    pub fn allocate(&mut self, size: u64, align: u64) -> (r: Option<u64>)
        requires
            old(self).wf(),
            1 <= size <= 0x1_0000_0000,
            is_pow2_align(align as int),
            align <= 0x1_0000_0000,
        ensures
            final(self).wf(),
            final(self).start == old(self).start,
            final(self).end == old(self).end,
            match r {
                Some(p) => {
                    let bsz = block_size_for(size as int, align as int);
                    &&& can_fit_spec(*old(self), size as int, align as int)
                    &&& p as int % align as int == 0
                    &&& p as int % eff_align(align as int) == 0
                    &&& old(self).start <= p
                    &&& p + size <= p + bsz <= old(self).end
                    &&& final(self).live@ == old(self).live@.insert((p as int, bsz))
                    &&& !old(self).live@.contains((p as int, bsz))
                    &&& forall|b: (int, int)| #[trigger]
                        old(self).live@.contains(b) ==> ranges_disjoint(p as int, bsz, b.0, b.1)
                    &&& final(self).free_bytes() == old(self).free_bytes() - bsz
                },
                None => {
                    &&& *final(self) == *old(self)
                    &&& forall|k: int, i: int|
                        0 <= k < 30 && 0 <= i < old(self).bin(k).len() ==> !block_fits(
                            (#[trigger] old(self).bin(k)[i]) as int,
                            k,
                            block_size_for(size as int, align as int),
                            eff_align(align as int),
                        )
                },
            },
    {
        let bsz = block_size_x(size, align);
        let aeff = if align > 8 {
            align
        } else {
            8
        };
        proof {
            lemma2_to64();
            lemma_pow2_is_pow2(3);
            if align > 8 {
                lemma_pow2_divides_pow2(align as int, bsz as int);
            }
        }
        let mut k: usize = 0;
        while k < 30
            invariant
                *self == *old(self),
                self.wf(),
                k <= 30,
                aeff as int == eff_align(align as int),
                is_pow2_align(aeff as int),
                is_pow2_align(align as int),
                1 <= size <= 0x1_0000_0000,
                align <= 0x1_0000_0000,
                8 <= aeff <= 0x1_0000_0000,
                bsz as int == block_size_for(size as int, align as int),
                is_pow2_align(bsz as int),
                8 <= bsz <= 0x1_0000_0000,
                size <= bsz,
                bsz as int % 8 == 0,
                bsz as int % aeff as int == 0,
                forall|j: int, i: int|
                    0 <= j < k && 0 <= i < self.bin(j).len() ==> !block_fits(
                        (#[trigger] self.bin(j)[i]) as int,
                        j,
                        bsz as int,
                        aeff as int,
                    ),
            decreases 30 - k,
        {
            let cs = class_size_x(k);
            let n = self.bins[k].len();
            let mut i: usize = 0;
            let mut cand: usize = 0;
            let mut has_cand = false;
            while i < n
                invariant
                    *self == *old(self),
                    self.wf(),
                    k < 30,
                    i <= n,
                    n == self.bin(k as int).len(),
                    cs as int == class_size(k as int),
                    aeff as int == eff_align(align as int),
                    is_pow2_align(aeff as int),
                    is_pow2_align(align as int),
                    1 <= size <= 0x1_0000_0000,
                    align <= 0x1_0000_0000,
                    8 <= aeff <= 0x1_0000_0000,
                    bsz as int == block_size_for(size as int, align as int),
                    is_pow2_align(bsz as int),
                    8 <= bsz <= 0x1_0000_0000,
                    size <= bsz,
                    bsz as int % 8 == 0,
                    bsz as int % aeff as int == 0,
                    has_cand ==> cand < n && block_fits(self.bin(k as int)[cand as int] as int,
                        k as int, bsz as int, aeff as int),
                    !has_cand ==> forall|i2: int|
                        0 <= i2 < i ==> !block_fits((#[trigger] self.bin(k as int)[i2]) as int,
                            k as int, bsz as int, aeff as int),
                decreases n - i,
            {
                let bk = &self.bins[k];
                let addr = bk[i];
                let rem = addr % aeff;
                let off = if rem == 0 {
                    0
                } else {
                    aeff - rem
                };
                proof {
                    crate::util::lemma_align_mod_facts(addr as int, aeff as int);
                    assert(align_up_spec(addr as int, aeff as int) == addr + off);
                }
                if off + bsz <= cs {
                    if off == 0 {
                        proof {
                            assert(block_fits(self.bin(k as int)[i as int] as int, k as int,
                                bsz as int, aeff as int));
                            assert(can_fit_spec(*old(self), size as int, align as int));
                        }
                        let p = self.carve(k, i, bsz, aeff);
                        proof {
                            lemma_alloc_result(*old(self), *self, p as int, size as int,
                                align as int, aeff as int);
                        }
                        return Some(p);
                    }
                    if !has_cand {
                        cand = i;
                        has_cand = true;
                    }
                } else {
                    assert(!block_fits(addr as int, k as int, bsz as int, aeff as int));
                }
                i = i + 1;
            }
            if has_cand {
                proof {
                    assert(block_fits(self.bin(k as int)[cand as int] as int, k as int,
                        bsz as int, aeff as int));
                    assert(can_fit_spec(*old(self), size as int, align as int));
                }
                let p = self.carve(k, cand, bsz, aeff);
                proof {
                    lemma_alloc_result(*old(self), *self, p as int, size as int, align as int,
                        aeff as int);
                }
                return Some(p);
            }
            k = k + 1;
        }
        None
    }

    /// Deallocates the block at `ptr` that was allocated with the given
    /// `size` and `align`, returning its bytes to the free lists.
    pub fn deallocate(&mut self, ptr: u64, size: u64, align: u64)
        requires
            old(self).wf(),
            1 <= size <= 0x1_0000_0000,
            is_pow2_align(align as int),
            align <= 0x1_0000_0000,
            old(self).live@.contains((ptr as int, block_size_for(size as int, align as int))),
        ensures
            final(self).wf(),
            final(self).start == old(self).start,
            final(self).end == old(self).end,
            final(self).live@ == old(self).live@.remove((ptr as int, block_size_for(size as int,
                align as int))),
            final(self).free_bytes() == old(self).free_bytes() + block_size_for(size as int,
                align as int),
            bins_extend(*old(self), *final(self), ptr as int, ptr + block_size_for(size as int,
                align as int)),
    {
        let bsz = block_size_x(size, align);
        let ghost blk = (ptr as int, bsz as int);
        proof {
            self.live@ = self.live@.remove(blk);
        }
        let ghost mid = *self;
        proof {
            assert forall|k2: int, i2: int|
                0 <= k2 < 30 && 0 <= i2 < mid.bin(k2).len() implies ranges_disjoint(
                (#[trigger] mid.bin(k2)[i2]) as int,
                class_size(k2),
                ptr as int,
                bsz as int,
            ) by {
                assert(mid.bin(k2)[i2] == old(self).bin(k2)[i2]);
                assert(old(self).live@.contains(blk));
            }
            assert forall|b: (int, int)| #[trigger]
                mid.live@.contains(b) implies ranges_disjoint(b.0, b.1, ptr as int,
                bsz as int) by {
                assert(old(self).live@.contains(b) && b != blk);
            }
            assert(mid.range_unowned(ptr as int, ptr as int + bsz as int));
            assert(old(self).live@.contains(blk));
            assert(forall|k2: int| 0 <= k2 < 30 ==> mid.bin(k2) == old(self).bin(k2));
            assert forall|k2: int, i2: int|
                0 <= k2 < 30 && 0 <= i2 < mid.bin(k2).len() implies {
                &&& (#[trigger] mid.bin(k2)[i2]) as int % class_size(k2) == 0
                &&& mid.start <= mid.bin(k2)[i2]
                &&& mid.bin(k2)[i2] + class_size(k2) <= mid.end
            } by {
                assert(mid.bin(k2)[i2] == old(self).bin(k2)[i2]);
            }
            assert forall|k1: int, i1: int, k2: int, i2: int|
                0 <= k1 < 30 && 0 <= i1 < mid.bin(k1).len() && 0 <= k2 < 30 && 0 <= i2
                    < mid.bin(k2).len() && (k1 != k2 || i1 != i2) implies ranges_disjoint(
                (#[trigger] mid.bin(k1)[i1]) as int,
                class_size(k1),
                (#[trigger] mid.bin(k2)[i2]) as int,
                class_size(k2),
            ) by {
                assert(mid.bin(k1)[i1] == old(self).bin(k1)[i1]);
                assert(mid.bin(k2)[i2] == old(self).bin(k2)[i2]);
            }
            assert forall|k2: int, i2: int, b: (int, int)|
                0 <= k2 < 30 && 0 <= i2 < mid.bin(k2).len() && #[trigger] mid.live@.contains(b)
                    implies ranges_disjoint((#[trigger] mid.bin(k2)[i2]) as int, class_size(k2),
                b.0, b.1) by {
                assert(mid.bin(k2)[i2] == old(self).bin(k2)[i2]);
                assert(old(self).live@.contains(b));
            }
            assert(mid.wf());
        }
        absorb_memory(self, ptr, ptr + bsz);
        proof {
            assert(bins_extend(mid, *self, ptr as int, ptr as int + bsz as int));
            assert forall|k: int|
                0 <= k < 30 implies (#[trigger] old(self).bin(k)).is_prefix_of(self.bin(k)) by {
                assert(old(self).bin(k) == mid.bin(k));
            }
            assert forall|k: int, i: int|
                0 <= k < 30 && old(self).bin(k).len() <= i < self.bin(k).len() implies ptr as int
                <= (#[trigger] self.bin(k)[i]) && self.bin(k)[i] + class_size(k) <= ptr as int
                + bsz as int by {
                assert(old(self).bin(k) == mid.bin(k));
            }
        }
    }
}

/// Connects what `carve` did to the contract of `alloc`.
proof fn lemma_alloc_result(
    pre: Allocator,
    post: Allocator,
    p: int,
    size: int,
    align: int,
    aeff: int,
)
    requires
        1 <= size,
        is_pow2_align(align),
        aeff == eff_align(align),
        p % aeff == 0,
        p >= 0,
    ensures
        p % align == 0,
{
    lemma_block_size_multiple(size, align);
    if align <= 8 {
        lemma2_to64();
        lemma_pow2_is_pow2(3);
        lemma_pow2_divides_pow2(align, 8);
        lemma_mod_transitive(p, 8, align);
    }
}

/// `x % 8 == 0` and `y % 8 == 0` give `(x - y) % 8 == 0` for `y <= x`.
proof fn lemma_mod_diff_8(x: int, y: int)
    requires
        x % 8 == 0,
        y % 8 == 0,
        0 <= y <= x,
    ensures
        (x - y) % 8 == 0,
{
    lemma_fundamental_div_mod(x, 8);
    lemma_fundamental_div_mod(y, 8);
    assert(x - y == 8 * (x / 8 - y / 8));
    lemma_mod_multiples_basic(x / 8 - y / 8, 8);
    lemma_mul_is_commutative(x / 8 - y / 8, 8);
}

/// Some free block can serve a request of `size` bytes at alignment
/// `align`.
pub open spec fn can_fit_spec(a: Allocator, size: int, align: int) -> bool {
    exists|k: int, i: int|
        0 <= k < 30 && 0 <= i < a.bin(k).len() && block_fits((#[trigger] a.bin(k)[i]) as int, k,
            block_size_for(size, align), eff_align(align))
}

/// A page-sized, page-aligned request consumes a block of exactly one page.
pub proof fn lemma_block_size_page()
    ensures
        next_pow2(65536) == 65536,
        block_size_for(65536, 65536) == 65536,
        eff_align(65536) == 65536,
{
    assert(next_pow2(1) == 1);
    assert(next_pow2(2) == 2);
    assert(next_pow2(4) == 4);
    assert(next_pow2(8) == 8);
    assert(next_pow2(16) == 16);
    assert(next_pow2(32) == 32);
    assert(next_pow2(64) == 64);
    assert(next_pow2(128) == 128);
    assert(next_pow2(256) == 256);
    assert(next_pow2(512) == 512);
    assert(next_pow2(1024) == 1024);
    assert(next_pow2(2048) == 2048);
    assert(next_pow2(4096) == 4096);
    assert(next_pow2(8192) == 8192);
    assert(next_pow2(16384) == 16384);
    assert(next_pow2(32768) == 32768);
    assert(next_pow2(65536) == 65536);
}

/// Two overlapping live allocations never coexist: in a well-formed
/// allocator, any two distinct live blocks occupy disjoint byte ranges.
pub proof fn lemma_live_allocations_disjoint(a: Allocator, b1: (int, int), b2: (int, int))
    requires
        a.wf(),
        a.live@.contains(b1),
        a.live@.contains(b2),
        b1 != b2,
    ensures
        ranges_disjoint(b1.0, b1.1, b2.0, b2.1),
{
}

/// An allocation of 8 bytes at alignment 8 consumes a block of exactly
/// 8 bytes.
pub proof fn lemma_block_size_8()
    ensures
        block_size_for(8, 8) == 8,
        eff_align(8) == 8,
{
    assert(next_pow2(1) == 1);
    assert(next_pow2(2) == 2);
    assert(next_pow2(3) == 4);
    assert(next_pow2(4) == 4);
    assert(next_pow2(8) == 8);
}

/// A fresh allocator serves 8-byte requests until its free pool is gone:
/// whenever `allocate(8, 8)` reports exhaustion (no free block fits, the
/// `None` case of its contract), the free lists hold no byte at all. Since
/// each success removes exactly 8 free bytes, a range initialized with `N`
/// free bytes serves exactly `N / 8` such requests.
pub proof fn lemma_alloc8_exhaustion(a: Allocator)
    requires
        a.wf(),
        forall|k: int, i: int|
            0 <= k < 30 && 0 <= i < a.bin(k).len() ==> !block_fits(
                (#[trigger] a.bin(k)[i]) as int,
                k,
                block_size_for(8, 8),
                eff_align(8),
            ),
    ensures
        a.free_bytes() == 0,
{
    lemma_block_size_8();
    assert forall|k: int| 0 <= k < 30 implies (#[trigger] a.bins_view()[k]).len() == 0 by {
        if a.bin(k).len() > 0 {
            let addr = a.bin(k)[0] as int;
            lemma_class_size_facts(k);
            lemma_mod_transitive(addr, class_size(k), 8);
            assert(align_up_spec(addr, 8) == addr);
            assert(block_fits(addr, k, 8, 8));
        }
    }
    lemma_fb_empty(a.bins_view(), 30);
}

} // verus!
