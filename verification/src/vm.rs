//! The two-level AArch64 page-table manager with a 64 KiB granule.
//!
//! A `PageTable` is one L2 table whose first two entries point at two L3
//! tables; together the L3 tables translate the first 1 GiB of a virtual
//! address space in 64 KiB pages. A virtual address selects L2 entry
//! `bit 29`, L3 entry `bits 28:16`, and a byte offset `bits 15:0`.
//!
//! Descriptors are modelled as plain 64-bit values built from disjoint
//! fields: bit 0 validity, bit 1 the table/page type, bits 4:2 the memory
//! attribute index (normal or device), bits 7:6 the access permission,
//! bits 9:8 shareability, bit 10 the access flag, and bits 47:16 the target
//! physical address.

use vstd::prelude::*;
use vstd::arithmetic::div_mod::{lemma_fundamental_div_mod, lemma_fundamental_div_mod_converse,
    lemma_small_mod, lemma_div_denominator, lemma_div_multiples_vanish};
use vstd::arithmetic::mul::{lemma_mul_is_commutative, lemma_mul_inequality,
    lemma_mul_strict_inequality};
use crate::allocator::{Allocator, block_size_for, eff_align, ranges_disjoint};
use crate::param::{PAGE_SIZE, PT_ENTRIES, USER_IMG_BASE, IO_BASE, IO_BASE_END};
use crate::util::vec_el_mut;

verus! {

/// Highest physical address a descriptor can carry (bits 47:16).
pub const ADDR_LIMIT: u64 = 0x1_0000_0000_0000;

/// Access-permission field values (descriptor bits 7:6).
pub const AP_KERN_RW: u64 = 0;

pub const AP_USER_RW: u64 = 1;

/// A page frame: 64 KiB of physical memory, aligned to 64 KiB.
pub struct Page;

impl Page {
    /// Size in bytes of one frame.
    pub const SIZE: u64 = 65536;

    /// Alignment of one frame.
    pub const ALIGN: u64 = 65536;
}

/// An L2 descriptor as stored in memory.
#[derive(Copy, Clone)]
pub struct RawL2Entry {
    pub bits: u64,
}

/// An L3 descriptor as stored in memory.
#[derive(Copy, Clone)]
pub struct RawL3Entry {
    pub bits: u64,
}

/// The descriptor's validity bit.
pub open spec fn e_valid(e: int) -> bool {
    e % 2 == 1
}

/// The target physical address held in descriptor bits 47:16.
pub open spec fn e_addr(e: int) -> int {
    ((e / 0x1_0000) % 0x1_0000_0000) * 0x1_0000
}

/// An L2 table descriptor: valid, type table, normal memory, inner
/// shareable, access flag set, permission `ap`, target `l3_base`.
pub open spec fn l2_table_entry(l3_base: int, ap: int) -> int {
    l3_base + 1 + 2 + ap * 64 + 768 + 1024
}

/// An L3 page descriptor: valid, type page, access flag set, permission
/// `ap`, attribute and shareability for normal memory (inner shareable) or
/// device memory (outer shareable), target physical page `page`.
pub open spec fn l3_page_entry(page: int, dev: bool, ap: int) -> int {
    page + 1 + 2 + (if dev {
        4int
    } else {
        0int
    }) + ap * 64 + (if dev {
        512int
    } else {
        768int
    }) + 1024
}

/// The L2 index of a virtual address: bit 29.
pub open spec fn l2_of(va: int) -> int {
    (va / 0x2000_0000) % 2
}

/// The L3 index of a virtual address: bits 28:16.
pub open spec fn l3_of(va: int) -> int {
    (va / 0x1_0000) % 8192
}

/// Splitting a descriptor into an aligned address part and a flag part:
/// the address bits and the validity bit read back exactly.
pub proof fn lemma_entry_fields(p: int, flags: int)
    requires
        p % 0x1_0000 == 0,
        0 <= p < 0x1_0000_0000_0000,
        0 <= flags < 0x1_0000,
    ensures
        e_addr(p + flags) == p,
        e_valid(p + flags) <==> flags % 2 == 1,
{
    lemma_fundamental_div_mod(p, 0x1_0000);
    let q = p / 0x1_0000;
    lemma_fundamental_div_mod_converse(p + flags, 0x1_0000, q, flags);
    assert((p + flags) / 0x1_0000 == q);
    assert(0 <= q < 0x1_0000_0000) by {
        if q >= 0x1_0000_0000 {
            lemma_mul_inequality(0x1_0000_0000, q, 0x1_0000);
            lemma_mul_is_commutative(q, 0x1_0000);
        }
        if q < 0 {
            lemma_mul_is_commutative(q, 0x1_0000);
        }
    }
    lemma_small_mod(q as nat, 0x1_0000_0000);
    // validity: p is even, so the low bit is the low bit of the flags
    assert(p % 2 == 0) by {
        crate::allocator::lemma_mod_transitive(p, 0x1_0000, 2);
    }
    lemma_fundamental_div_mod(p, 2);
    lemma_fundamental_div_mod(flags, 2);
    assert(p + flags == 2 * (p / 2 + flags / 2) + flags % 2);
    lemma_fundamental_div_mod_converse(p + flags, 2, p / 2 + flags / 2, flags % 2);
}

/// The page with index `m` (virtual address `m * 65536`) is reached through
/// L2 entry `m / 8192` and L3 entry `m % 8192`.
pub proof fn lemma_index_of_page(m: int)
    requires
        0 <= m < 16384,
    ensures
        l2_of(m * 0x1_0000) == m / 8192,
        l3_of(m * 0x1_0000) == m % 8192,
{
    let va = m * 0x1_0000;
    assert(va >= 0) by {
        vstd::arithmetic::mul::lemma_mul_nonnegative(m, 0x1_0000);
    }
    assert(va / 0x1_0000 == m) by {
        lemma_div_multiples_vanish(m, 0x1_0000);
        lemma_mul_is_commutative(m, 0x1_0000);
    }
    assert(va / 0x2000_0000 == m / 8192) by {
        lemma_div_denominator(va, 0x1_0000, 8192);
    }
    lemma_small_mod((m / 8192) as nat, 2);
}

/// A user virtual address `USER_IMG_BASE + m * 65536` translates through
/// the same index pair as page index `m`: the user window's base has all
/// index bits clear.
pub proof fn lemma_user_page_index(m: int)
    requires
        0 <= m < 16384,
    ensures
        l2_of(0xffff_ffff_c000_0000 + m * 0x1_0000) == m / 8192,
        l3_of(0xffff_ffff_c000_0000 + m * 0x1_0000) == m % 8192,
{
    let base: int = 0xffff_ffff_c000_0000;
    let x = m * 0x1_0000;
    assert(0 <= x < 0x4000_0000) by {
        vstd::arithmetic::mul::lemma_mul_nonnegative(m, 0x1_0000);
        lemma_mul_strict_inequality(m, 16384, 0x1_0000);
        lemma_mul_is_commutative(m, 0x1_0000);
        lemma_mul_is_commutative(16384, 0x1_0000);
    }
    lemma_index_of_page(m);
    // split the division by 2^29: the base contributes an even quotient
    assert((base + x) / 0x2000_0000 == 0x7_ffff_fffe + x / 0x2000_0000) by {
        lemma_fundamental_div_mod(x, 0x2000_0000);
        lemma_mod_division_less_than_divisor_pub(x, 0x2000_0000);
        lemma_fundamental_div_mod_converse(base + x, 0x2000_0000, 0x7_ffff_fffe + x / 0x2000_0000,
            x % 0x2000_0000);
    }
    assert((0x7_ffff_fffe + x / 0x2000_0000) % 2 == (x / 0x2000_0000) % 2) by {
        vstd::arithmetic::div_mod::lemma_mod_add_multiples_vanish(x / 0x2000_0000, 2);
        lemma_even_offset(0x3_ffff_ffff, x / 0x2000_0000);
    }
    // and by 2^16: the base contributes a multiple of 8192 to the quotient
    assert((base + x) / 0x1_0000 == 0xffff_ffff_c000 + x / 0x1_0000) by {
        lemma_fundamental_div_mod(x, 0x1_0000);
        lemma_mod_division_less_than_divisor_pub(x, 0x1_0000);
        lemma_fundamental_div_mod_converse(base + x, 0x1_0000, 0xffff_ffff_c000 + x / 0x1_0000,
            x % 0x1_0000);
    }
    assert((0xffff_ffff_c000 + x / 0x1_0000) % 8192 == (x / 0x1_0000) % 8192) by {
        lemma_mult_mod_vanish(0x7_ffff_fffe, x / 0x1_0000, 8192);
    }
}

/// `(k * m + y) % m == y % m`.
proof fn lemma_mult_mod_vanish(k: int, y: int, m: int)
    requires
        m >= 1,
        k >= 0,
        y >= 0,
    ensures
        (k * m + y) % m == y % m,
{
    vstd::arithmetic::div_mod::lemma_mod_multiples_vanish(k, y, m);
    lemma_mul_is_commutative(k, m);
}

/// `(2k + y) % 2 == y % 2`.
proof fn lemma_even_offset(k: int, y: int)
    requires
        k >= 0,
        y >= 0,
    ensures
        (2 * k + y) % 2 == y % 2,
{
    vstd::arithmetic::div_mod::lemma_mod_multiples_vanish(k, y, 2);
    lemma_mul_is_commutative(k, 2);
}

/// Remainders are within range (public helper).
proof fn lemma_mod_division_less_than_divisor_pub(x: int, m: int)
    requires
        m > 0,
        x >= 0,
    ensures
        0 <= x % m < m,
{
    vstd::arithmetic::div_mod::lemma_mod_division_less_than_divisor(x, m);
}

/// Distinct page indices use distinct (L2, L3) index pairs.
pub proof fn lemma_index_of_page_injective(m1: int, m2: int)
    requires
        0 <= m1 < 16384,
        0 <= m2 < 16384,
        m1 != m2,
    ensures
        m1 / 8192 != m2 / 8192 || m1 % 8192 != m2 % 8192,
{
    lemma_fundamental_div_mod(m1, 8192);
    lemma_fundamental_div_mod(m2, 8192);
}

/// One level-2 translation table: 8192 descriptors filling one page,
/// recorded together with the physical address it resides at.
pub struct L2PageTable {
    pub entries: Vec<RawL2Entry>,
    pub base: u64,
}

impl L2PageTable {
    /// Returns the physical address of the table.
    pub fn as_ptr(&self) -> (r: u64)
        ensures
            r == self.base,
    {
        self.base
    }
}

/// One L3 descriptor.
#[derive(Copy, Clone)]
pub struct L3Entry(pub RawL3Entry);

impl L3Entry {
    /// Returns a new, invalid `L3Entry`.
    pub fn new() -> (r: L3Entry)
        ensures
            r.0.bits == 0,
    {
        L3Entry(RawL3Entry { bits: 0 })
    }

    /// Returns `true` if the entry is valid and `false` otherwise.
    pub fn is_valid(&self) -> (r: bool)
        ensures
            r == e_valid(self.0.bits as int),
    {
        self.0.bits % 2 == 1
    }

    /// Extracts the `ADDR` field of the entry and returns it if the entry
    /// is valid. Otherwise, returns `None`.
    pub fn get_page_addr(&self) -> (r: Option<u64>)
        ensures
            match r {
                Some(a) => e_valid(self.0.bits as int) && a == e_addr(self.0.bits as int),
                None => !e_valid(self.0.bits as int),
            },
    {
        if self.0.bits % 2 == 1 {
            Some(((self.0.bits / 0x1_0000) % 0x1_0000_0000) * 0x1_0000)
        } else {
            None
        }
    }
}

/// One level-3 translation table: 8192 page descriptors filling one page.
pub struct L3PageTable {
    pub entries: Vec<L3Entry>,
    pub base: u64,
}

impl L3PageTable {
    /// Returns the physical address of the table.
    pub fn as_ptr(&self) -> (r: u64)
        ensures
            r == self.base,
    {
        self.base
    }
}

/// One L2 table and its two L3 tables, laid out contiguously from `base`:
/// the L2 at `base`, the L3 tables at the next two pages. The first two L2
/// entries are pre-wired as table descriptors with permission `ap`.
pub struct PageTable {
    pub l2: L2PageTable,
    pub l3: Vec<L3PageTable>,
    pub base: u64,
    pub ap: u64,
}

impl PageTable {
    /// The L3 descriptor selected by L2 index `i` and L3 index `j`.
    pub open spec fn entry(self, i: int, j: int) -> int {
        self.l3@[i].entries@[j].0.bits as int
    }

    /// The descriptor a virtual address translates through.
    pub open spec fn entry_of(self, va: int) -> int {
        self.entry(l2_of(va), l3_of(va))
    }

    /// The address `va` has a valid mapping.
    pub open spec fn is_valid_spec(self, va: int) -> bool {
        e_valid(self.entry_of(va))
    }

    pub open spec fn wf(self) -> bool {
        &&& self.l2.entries@.len() == 8192
        &&& self.l3@.len() == 2
        &&& self.l3@[0].entries@.len() == 8192
        &&& self.l3@[1].entries@.len() == 8192
        &&& self.base as int % 0x1_0000 == 0
        &&& self.base + 3 * 0x1_0000 <= ADDR_LIMIT
        &&& self.ap <= 1
        &&& self.l2.base == self.base
        &&& self.l3@[0].base == self.base + 0x1_0000
        &&& self.l3@[1].base == self.base + 2 * 0x1_0000
        &&& self.l2.entries@[0].bits == l2_table_entry(self.base as int + 0x1_0000,
            self.ap as int)
        &&& self.l2.entries@[1].bits == l2_table_entry(self.base as int + 2 * 0x1_0000,
            self.ap as int)
        &&& forall|j: int| 2 <= j < 8192 ==> (#[trigger] self.l2.entries@[j]).bits == 0
    }

    /// Returns a new `PageTable` at physical address `base` whose two L2
    /// entries point at its L3 tables with permission `ap`, and whose L3
    /// entries are all invalid.
    pub fn new(ap: u64, base: u64) -> (pt: PageTable)
        requires
            base as int % 0x1_0000 == 0,
            base + 3 * 0x1_0000 <= ADDR_LIMIT,
            ap <= 1,
        ensures
            pt.wf(),
            pt.base == base,
            pt.ap == ap,
            forall|i: int, j: int| 0 <= i < 2 && 0 <= j < 8192 ==> #[trigger] pt.entry(i, j) == 0,
    {
        let mut l2e: Vec<RawL2Entry> = Vec::new();
        let mut i: usize = 0;
        while i < 8192
            invariant
                l2e@.len() == i,
                i <= 8192,
                forall|j: int| 0 <= j < i ==> (#[trigger] l2e@[j]).bits == 0,
            decreases 8192 - i,
        {
            l2e.push(RawL2Entry { bits: 0 });
            i = i + 1;
        }
        let e0 = RawL2Entry { bits: base + 0x1_0000 + 1795 + ap * 64 };
        let e1 = RawL2Entry { bits: base + 2 * 0x1_0000 + 1795 + ap * 64 };
        let r0 = vec_el_mut(&mut l2e, 0);
        *r0 = e0;
        let r1 = vec_el_mut(&mut l2e, 1);
        *r1 = e1;
        let t0 = L3PageTable { entries: new_l3_entries(), base: base + 0x1_0000 };
        let t1 = L3PageTable { entries: new_l3_entries(), base: base + 2 * 0x1_0000 };
        let mut l3: Vec<L3PageTable> = Vec::new();
        l3.push(t0);
        l3.push(t1);
        PageTable { l2: L2PageTable { entries: l2e, base }, l3, base, ap }
    }

    /// Returns the (L2 index, L3 index) pair extracted from `va`.
    pub fn locate(va: u64) -> (r: (usize, usize))
        ensures
            r.0 == l2_of(va as int),
            r.1 == l3_of(va as int),
            r.0 < 2,
            r.1 < 8192,
    {
        let l2 = ((va / 0x2000_0000) % 2) as usize;
        let l3 = ((va / 0x1_0000) % 8192) as usize;
        (l2, l3)
    }

    /// Finds which L3 table the L2 entry at index `l2i` points to; with a
    /// well-formed table this is the L3 table with the same index.
    fn l3_index(&self, l2i: usize) -> (r: usize)
        requires
            self.wf(),
            l2i < 2,
        ensures
            r == l2i,
    {
        proof {
            lemma_entry_fields(self.base as int + (1 + l2i as int) * 0x1_0000,
                1795 + self.ap as int * 64);
            crate::util::lemma_mod_sum_multiple(self.base as int,
                (1 + l2i as int) * 0x1_0000, 0x1_0000);
        }
        let e = if l2i == 0 {
            self.l2.entries[0]
        } else {
            self.l2.entries[1]
        };
        let l3_address = ((e.bits / 0x1_0000) % 0x1_0000_0000) * 0x1_0000;
        ((l3_address - self.l3[0].as_ptr()) / 65536) as usize
    }

    /// Returns `true` if the L3 entry indicated by `va` is valid.
    pub fn is_valid(&self, va: u64) -> (r: bool)
        requires
            self.wf(),
        ensures
            r == self.is_valid_spec(va as int),
    {
        let (l2i, l3i) = PageTable::locate(va);
        let e = if l2i == 0 {
            self.l2.entries[0]
        } else {
            self.l2.entries[1]
        };
        proof {
            lemma_entry_fields(self.base as int + (1 + l2i as int) * 0x1_0000,
                1795 + self.ap as int * 64);
            crate::util::lemma_mod_sum_multiple(self.base as int,
                (1 + l2i as int) * 0x1_0000, 0x1_0000);
        }
        if e.bits % 2 == 0 {
            return false;
        }
        let idx = self.l3_index(l2i);
        let t = &self.l3[idx];
        let entry = t.entries[l3i];
        entry.is_valid()
    }

    /// Returns `true` if the L3 entry indicated by `va` is invalid.
    pub fn is_invalid(&self, va: u64) -> (r: bool)
        requires
            self.wf(),
        ensures
            r == !self.is_valid_spec(va as int),
    {
        !self.is_valid(va)
    }

    /// Stores `entry` in the L3 slot that `va` translates through; every
    /// other descriptor is unchanged.
    pub fn set_entry(&mut self, va: u64, entry: RawL3Entry)
        requires
            old(self).wf(),
        ensures
            final(self).wf(),
            final(self).base == old(self).base,
            final(self).ap == old(self).ap,
            final(self).entry_of(va as int) == entry.bits,
            forall|i: int, j: int|
                0 <= i < 2 && 0 <= j < 8192 && (i != l2_of(va as int) || j != l3_of(va as int))
                    ==> #[trigger] final(self).entry(i, j) == old(self).entry(i, j),
    {
        let (l2i, l3i) = PageTable::locate(va);
        let idx = self.l3_index(l2i);
        let t = vec_el_mut(&mut self.l3, idx);
        let slot = vec_el_mut(&mut t.entries, l3i);
        *slot = L3Entry(entry);
    }

    /// Returns the base physical address of the page table: the start of
    /// its L2 table, the value loaded into a translation-table base
    /// register.
    pub fn get_baddr(&self) -> (r: u64)
        requires
            self.wf(),
        ensures
            r == self.base,
    {
        self.l2.as_ptr()
    }
}

/// A fresh vector of 8192 invalid L3 entries.
fn new_l3_entries() -> (r: Vec<L3Entry>)
    ensures
        r@.len() == 8192,
        forall|j: int| 0 <= j < 8192 ==> (#[trigger] r@[j]).0.bits == 0,
{
    let mut v: Vec<L3Entry> = Vec::new();
    let mut i: usize = 0;
    while i < 8192
        invariant
            v@.len() == i,
            i <= 8192,
            forall|j: int| 0 <= j < i ==> (#[trigger] v@[j]).0.bits == 0,
        decreases 8192 - i,
    {
        v.push(L3Entry::new());
        i = i + 1;
    }
    v
}

/// Number of valid descriptors among the first `upto` entries of a table.
pub open spec fn valid_count(s: Seq<L3Entry>, upto: int) -> int
    decreases upto,
{
    if upto <= 0 {
        0
    } else {
        valid_count(s, upto - 1) + if e_valid(s[upto - 1].0.bits as int) {
            1int
        } else {
            0int
        }
    }
}

/// Tables that agree below `upto` have the same count there.
proof fn lemma_valid_count_agree(s1: Seq<L3Entry>, s2: Seq<L3Entry>, upto: int)
    requires
        forall|j: int| 0 <= j < upto ==> (#[trigger] s2[j]).0.bits == s1[j].0.bits,
    ensures
        valid_count(s2, upto) == valid_count(s1, upto),
    decreases upto,
{
    if upto > 0 {
        lemma_valid_count_agree(s1, s2, upto - 1);
    }
}

/// The block `b` is one of the pages mapped by a table.
pub open spec fn page_of(s: Seq<L3Entry>, b: (int, int)) -> bool {
    exists|j: int|
        0 <= j < 8192 && e_valid((#[trigger] s[j]).0.bits as int) && b == (e_addr(
            s[j].0.bits as int), 65536int)
}

/// The block `b` is one of the pages mapped by the first `upto` entries.
pub open spec fn page_of_prefix(s: Seq<L3Entry>, upto: int, b: (int, int)) -> bool {
    exists|j: int|
        0 <= j < upto && e_valid((#[trigger] s[j]).0.bits as int) && b == (e_addr(
            s[j].0.bits as int), 65536int)
}

/// The kernel's identity-mapping page table, built once at boot with
/// kernel read/write permission: normal inner-shareable memory for
/// `[0, ram_end)` and device outer-shareable memory for the peripheral
/// window `[IO_BASE, IO_BASE_END)`.
pub struct KernPageTable(pub PageTable);

/// What the kernel table maps page index `m` (virtual address
/// `m * 65536`) to.
pub open spec fn kern_entry_expected(m: int, ram_end: int) -> int {
    if m * 0x1_0000 < ram_end {
        l3_page_entry(m * 0x1_0000, false, 0)
    } else if m >= 16128 {
        l3_page_entry(m * 0x1_0000, true, 0)
    } else {
        0
    }
}

impl KernPageTable {
    /// Returns a new `KernPageTable` residing at `base` that identity-maps
    /// all of RAM (`[0, ram_end)`, normal memory) and the peripheral window
    /// (device memory), with kernel read/write permission.
    pub fn new(base: u64, ram_end: u64) -> (kpt: KernPageTable)
        requires
            base as int % 0x1_0000 == 0,
            base + 3 * 0x1_0000 <= ADDR_LIMIT,
            ram_end as int % 0x1_0000 == 0,
            ram_end <= IO_BASE,
        ensures
            kpt.0.wf(),
            kpt.0.base == base,
            kpt.0.ap == AP_KERN_RW,
            forall|m: int|
                0 <= m < 16384 ==> #[trigger] kpt.0.entry(m / 8192, m % 8192)
                    == kern_entry_expected(m, ram_end as int),
    {
        let mut pt = PageTable::new(AP_KERN_RW, base);
        let n_ram = ram_end / 65536;
        proof {
            lemma_fundamental_div_mod(ram_end as int, 65536);
            assert forall|m: int| 0 <= m < 16384 implies ((#[trigger] (m * 0x1_0000))
                < ram_end <==> m < n_ram) by {
                lemma_page_compare(m, n_ram as int);
            }
        }
        let mut m: u64 = 0;
        while m < n_ram
            invariant
                pt.wf(),
                pt.base == base,
                pt.ap == AP_KERN_RW,
                m <= n_ram,
                n_ram <= 16128,
                ram_end == n_ram * 65536,
                forall|m2: int|
                    0 <= m2 < m ==> #[trigger] pt.entry(m2 / 8192, m2 % 8192) == l3_page_entry(
                        m2 * 0x1_0000, false, 0),
                forall|m2: int|
                    m <= m2 < 16384 ==> #[trigger] pt.entry(m2 / 8192, m2 % 8192) == 0,
            decreases n_ram - m,
        {
            let addr = m * 65536;
            let entry = RawL3Entry { bits: addr + 1795 };
            let ghost pt0 = pt;
            pt.set_entry(addr, entry);
            proof {
                lemma_set_page_entry(pt0, pt, m as int, entry.bits as int);
            }
            m = m + 1;
        }
        let mut io: u64 = 16128;
        while io < 16384
            invariant
                pt.wf(),
                pt.base == base,
                pt.ap == AP_KERN_RW,
                16128 <= io <= 16384,
                n_ram <= 16128,
                ram_end == n_ram * 65536,
                forall|m2: int|
                    0 <= m2 < n_ram ==> #[trigger] pt.entry(m2 / 8192, m2 % 8192)
                        == l3_page_entry(m2 * 0x1_0000, false, 0),
                forall|m2: int|
                    n_ram <= m2 < 16384 && !(16128 <= m2 < io) ==> #[trigger] pt.entry(m2 / 8192,
                        m2 % 8192) == 0,
                forall|m2: int|
                    16128 <= m2 < io ==> #[trigger] pt.entry(m2 / 8192, m2 % 8192)
                        == l3_page_entry(m2 * 0x1_0000, true, 0),
            decreases 16384 - io,
        {
            let addr = io * 65536;
            let entry = RawL3Entry { bits: addr + 1543 };
            let ghost pt0 = pt;
            pt.set_entry(addr, entry);
            proof {
                lemma_set_page_entry(pt0, pt, io as int, entry.bits as int);
            }
            io = io + 1;
        }
        proof {
            assert forall|m2: int| 0 <= m2 < 16384 implies #[trigger] pt.entry(m2 / 8192,
                m2 % 8192) == kern_entry_expected(m2, ram_end as int) by {
                lemma_page_compare(m2, n_ram as int);
            }
        }
        KernPageTable(pt)
    }
}

/// `m * 65536 < n * 65536` exactly when `m < n`.
proof fn lemma_page_compare(m: int, n: int)
    ensures
        m * 0x1_0000 < n * 0x1_0000 <==> m < n,
{
    if m < n {
        lemma_mul_strict_inequality(m, n, 0x1_0000);
        lemma_mul_is_commutative(m, 0x1_0000);
        lemma_mul_is_commutative(n, 0x1_0000);
    }
    if n <= m {
        lemma_mul_inequality(n, m, 0x1_0000);
        lemma_mul_is_commutative(m, 0x1_0000);
        lemma_mul_is_commutative(n, 0x1_0000);
    }
}

/// Setting the entry for page index `m` changes that slot and no other.
proof fn lemma_set_page_entry(pt0: PageTable, pt1: PageTable, m: int, bits: int)
    requires
        0 <= m < 16384,
        pt1.entry_of(m * 0x1_0000) == bits,
        forall|i: int, j: int|
            0 <= i < 2 && 0 <= j < 8192 && (i != l2_of(m * 0x1_0000) || j != l3_of(m * 0x1_0000))
                ==> #[trigger] pt1.entry(i, j) == pt0.entry(i, j),
    ensures
        pt1.entry(m / 8192, m % 8192) == bits,
        forall|m2: int|
            0 <= m2 < 16384 && m2 != m ==> #[trigger] pt1.entry(m2 / 8192, m2 % 8192)
                == pt0.entry(m2 / 8192, m2 % 8192),
{
    lemma_index_of_page(m);
    lemma_fundamental_div_mod(m, 8192);
    assert forall|m2: int|
        0 <= m2 < 16384 && m2 != m implies #[trigger] pt1.entry(m2 / 8192, m2 % 8192)
        == pt0.entry(m2 / 8192, m2 % 8192) by {
        lemma_index_of_page_injective(m2, m);
        lemma_fundamental_div_mod(m2, 8192);
    }
}

/// The access permission a user page is requested with.
pub enum PagePerm {
    RW,
    RO,
    RWX,
}

/// A user process's page table: the same two-level structure created with
/// user read/write permission, which also owns the physical pages its valid
/// entries point at.
pub struct UserPageTable(pub PageTable);

impl UserPageTable {
    /// Number of pages currently mapped.
    pub open spec fn mapped_pages(self) -> int {
        valid_count(self.0.l3@[0].entries@, 8192) + valid_count(self.0.l3@[1].entries@, 8192)
    }

    /// Returns a new `UserPageTable` at `base` with user read/write
    /// permission on its table descriptors and no page mapped.
    pub fn new(base: u64) -> (upt: UserPageTable)
        requires
            base as int % 0x1_0000 == 0,
            base + 3 * 0x1_0000 <= ADDR_LIMIT,
        ensures
            upt.0.wf(),
            upt.0.base == base,
            upt.0.ap == AP_USER_RW,
            forall|i: int, j: int| 0 <= i < 2 && 0 <= j < 8192 ==> #[trigger] upt.0.entry(i, j)
                == 0,
            upt.mapped_pages() == 0,
            forall|va: int| !upt.0.is_valid_spec(va),
    {
        let pt = PageTable::new(AP_USER_RW, base);
        proof {
            assert forall|j: int| 0 <= j < 8192 implies (#[trigger] pt.l3@[0].entries@[j]).0.bits
                == 0 by {
                assert(pt.entry(0, j) == 0);
            }
            assert forall|j: int| 0 <= j < 8192 implies (#[trigger] pt.l3@[1].entries@[j]).0.bits
                == 0 by {
                assert(pt.entry(1, j) == 0);
            }
            lemma_valid_count_zero(pt.l3@[0].entries@, 8192);
            lemma_valid_count_zero(pt.l3@[1].entries@, 8192);
            assert forall|va: int| !pt.is_valid_spec(va) by {
                vstd::arithmetic::div_mod::lemma_mod_division_less_than_divisor(va / 0x2000_0000,
                    2);
                vstd::arithmetic::div_mod::lemma_mod_division_less_than_divisor(va / 0x1_0000,
                    8192);
            }
        }
        UserPageTable(pt)
    }
}

/// A table of all-invalid entries maps no page.
proof fn lemma_valid_count_zero(s: Seq<L3Entry>, upto: int)
    requires
        forall|j: int| 0 <= j < upto ==> (#[trigger] s[j]).0.bits == 0,
    ensures
        valid_count(s, upto) == 0,
    decreases upto,
{
    if upto > 0 {
        lemma_valid_count_zero(s, upto - 1);
    }
}

/// What allocating one user page for `va` does: a fresh physical page `p`
/// comes off the allocator's free lists and into its live set, and the L3
/// descriptor that `va` translates through becomes a valid user read/write
/// page entry whose address field is exactly `p`. Every other descriptor,
/// and every other virtual address, is untouched.
pub open spec fn alloc_page_post(
    u0: UserPageTable,
    u1: UserPageTable,
    a0: Allocator,
    a1: Allocator,
    va: int,
    p: u64,
) -> bool {
    &&& u1.0.wf()
    &&& u1.0.base == u0.0.base
    &&& u1.0.ap == u0.0.ap
    &&& a1.wf()
    &&& a1.start == a0.start
    &&& a1.end == a0.end
    &&& p as int % 0x1_0000 == 0
    &&& a0.start <= p
    &&& p + 0x1_0000 <= a0.end
    &&& a1.live@ == a0.live@.insert((p as int, 0x1_0000int))
    &&& !a0.live@.contains((p as int, 0x1_0000int))
    &&& a1.free_bytes() == a0.free_bytes() - 0x1_0000
    &&& u1.0.entry_of(va) == l3_page_entry(p as int, false, u0.0.ap as int)
    &&& u1.0.is_valid_spec(va)
    &&& forall|i: int, j: int|
        0 <= i < 2 && 0 <= j < 8192 && (i != l2_of(va) || j != l3_of(va)) ==> #[trigger] u1.0.entry(
            i, j) == u0.0.entry(i, j)
    &&& forall|va2: int|
        l2_of(va2) != l2_of(va) || l3_of(va2) != l3_of(va) ==> u1.0.is_valid_spec(va2)
            == u0.0.is_valid_spec(va2)
    &&& u1.mapped_pages() == u0.mapped_pages() + 1
}

impl UserPageTable {
    /// Allocates a physical page for the 64 KiB-aligned user virtual
    /// address `va` and writes the L3 descriptor that maps `va` to it.
    /// Returns the physical address of the page; the kernel sees the page's
    /// bytes at that address, the user at `va`. The descriptor written is a
    /// valid user read/write page entry whose `ADDR` field is exactly the
    /// returned address, whatever permission was requested.
    pub fn allocate(&mut self, va: u64, _perm: PagePerm, a: &mut Allocator) -> (p: u64)
        requires
            old(self).0.wf(),
            old(a).wf(),
            va >= crate::param::USER_IMG_BASE,
            !old(self).0.is_valid_spec(va as int),
            crate::allocator::can_fit_spec(*old(a), 65536, 65536),
            old(a).end <= ADDR_LIMIT,
        ensures
            alloc_page_post(*old(self), *final(self), *old(a), *final(a), va as int, p),
    {
        match self.try_allocate(va, _perm, a) {
            Some(p) => p,
            Option::None => {
                proof {
                    assert(false);
                }
                vstd::pervasive::unreached()
            },
        }
    }

    /// Like `allocate`, but reports allocator exhaustion as `None` instead
    /// of requiring in advance that a page can be served.
    pub fn try_allocate(&mut self, va: u64, _perm: PagePerm, a: &mut Allocator) -> (r: Option<
        u64,
    >)
        requires
            old(self).0.wf(),
            old(a).wf(),
            va >= crate::param::USER_IMG_BASE,
            !old(self).0.is_valid_spec(va as int),
            old(a).end <= ADDR_LIMIT,
        ensures
            match r {
                Some(p) => alloc_page_post(*old(self), *final(self), *old(a), *final(a),
                    va as int, p),
                Option::None => {
                    &&& *final(self) == *old(self)
                    &&& *final(a) == *old(a)
                    &&& !crate::allocator::can_fit_spec(*old(a), 65536, 65536)
                },
            },
    {
        proof {
            crate::allocator::lemma_block_size_page();
            vstd::arithmetic::power2::lemma2_to64();
            crate::util::lemma_pow2_is_pow2(16);
        }
        let r = a.allocate(65536, 65536);
        match r {
            Some(p) => {
                let ghost ap = self.0.ap as int;
                let flags: u64 = if self.0.ap == 1 {
                    1859
                } else {
                    1795
                };
                let entry = RawL3Entry { bits: p + flags };
                let ghost self0 = *self;
                self.0.set_entry(va, entry);
                proof {
                    lemma_entry_fields(p as int, flags as int);
                    assert(e_valid(entry.bits as int));
                    let i0 = l2_of(va as int);
                    let j0 = l3_of(va as int);
                    vstd::arithmetic::div_mod::lemma_mod_division_less_than_divisor(
                        va as int / 0x2000_0000, 2);
                    vstd::arithmetic::div_mod::lemma_mod_division_less_than_divisor(
                        va as int / 0x1_0000, 8192);
                    vstd::arithmetic::div_mod::lemma_div_pos_is_pos(va as int, 0x2000_0000);
                    vstd::arithmetic::div_mod::lemma_div_pos_is_pos(va as int, 0x1_0000);
                    lemma_mapped_pages_update(self0, *self, i0, j0);
                }
                Some(p)
            },
            Option::None => Option::None,
        }
    }

    /// Releases the page table, handing every physical page its valid
    /// entries point at back to the allocator: exactly one page per valid
    /// entry, so the allocator's free pool grows by `mapped_pages()` pages.
    pub fn teardown(self, a: &mut Allocator)
        requires
            self.0.wf(),
            old(a).wf(),
            forall|i: int, j: int|
                0 <= i < 2 && 0 <= j < 8192 && e_valid(#[trigger] self.0.entry(i, j))
                    ==> old(a).live@.contains((e_addr(self.0.entry(i, j)), 65536int)),
            forall|i1: int, j1: int, i2: int, j2: int|
                0 <= i1 < 2 && 0 <= j1 < 8192 && 0 <= i2 < 2 && 0 <= j2 < 8192 && (i1 != i2 || j1
                    != j2) && e_valid(#[trigger] self.0.entry(i1, j1)) && e_valid(
                    #[trigger] self.0.entry(i2, j2)) ==> e_addr(self.0.entry(i1, j1)) != e_addr(
                    self.0.entry(i2, j2)),
        ensures
            final(a).wf(),
            final(a).start == old(a).start,
            final(a).end == old(a).end,
            final(a).free_bytes() == old(a).free_bytes() + self.mapped_pages() * 65536,
            forall|b: (int, int)| #[trigger]
                final(a).live@.contains(b) <==> (old(a).live@.contains(b) && !page_of(
                    self.0.l3@[0].entries@, b) && !page_of(self.0.l3@[1].entries@, b)),
    {
        let UserPageTable(pt) = self;
        let PageTable { l2: _, l3, base: _, ap: _ } = pt;
        let ghost s0 = l3@[0].entries@;
        let ghost s1 = l3@[1].entries@;
        let mut l3v = l3;
        let t1 = l3v.pop().unwrap();
        let t0 = l3v.pop().unwrap();
        proof {
            assert(t0.entries@ == s0);
            assert(t1.entries@ == s1);
            assert forall|j1: int, j2: int|
                0 <= j1 < 8192 && 0 <= j2 < 8192 && j1 != j2 && e_valid(
                    (#[trigger] s0[j1]).0.bits as int) && e_valid((#[trigger] s0[j2]).0.bits as int)
                    implies e_addr(s0[j1].0.bits as int) != e_addr(s0[j2].0.bits as int) by {
                assert(self.0.entry(0, j1) == s0[j1].0.bits as int);
                assert(self.0.entry(0, j2) == s0[j2].0.bits as int);
            }
            assert forall|j: int| 0 <= j < 8192 && e_valid((#[trigger] s0[j]).0.bits as int)
                implies old(a).live@.contains((e_addr(s0[j].0.bits as int), 65536int)) by {
                assert(self.0.entry(0, j) == s0[j].0.bits as int);
            }
        }
        release_pages(&t0, a);
        proof {
            assert forall|j1: int, j2: int|
                0 <= j1 < 8192 && 0 <= j2 < 8192 && j1 != j2 && e_valid(
                    (#[trigger] s1[j1]).0.bits as int) && e_valid((#[trigger] s1[j2]).0.bits as int)
                    implies e_addr(s1[j1].0.bits as int) != e_addr(s1[j2].0.bits as int) by {
                assert(self.0.entry(1, j1) == s1[j1].0.bits as int);
                assert(self.0.entry(1, j2) == s1[j2].0.bits as int);
            }
            assert forall|j: int| 0 <= j < 8192 && e_valid((#[trigger] s1[j]).0.bits as int)
                implies a.live@.contains((e_addr(s1[j].0.bits as int), 65536int)) by {
                assert(self.0.entry(1, j) == s1[j].0.bits as int);
                assert(old(a).live@.contains((e_addr(s1[j].0.bits as int), 65536int)));
                assert(!page_of(s0, (e_addr(s1[j].0.bits as int), 65536int))) by {
                    assert forall|j0: int|
                        0 <= j0 < 8192 && e_valid((#[trigger] s0[j0]).0.bits as int)
                            implies (e_addr(s0[j0].0.bits as int), 65536int) != (e_addr(
                            s1[j].0.bits as int), 65536int) by {
                        assert(self.0.entry(0, j0) == s0[j0].0.bits as int);
                        assert(self.0.entry(1, j) == s1[j].0.bits as int);
                    }
                }
            }
        }
        release_pages(&t1, a);
    }
}

/// The count of valid entries grows by one when one invalid slot is
/// overwritten with a valid descriptor.
proof fn lemma_mapped_pages_update(pt0: UserPageTable, pt1: UserPageTable, i0: int, j0: int)
    requires
        0 <= i0 < 2,
        0 <= j0 < 8192,
        pt0.0.l3@.len() == 2,
        pt1.0.l3@.len() == 2,
        pt0.0.l3@[0].entries@.len() == 8192,
        pt0.0.l3@[1].entries@.len() == 8192,
        pt1.0.l3@[0].entries@.len() == 8192,
        pt1.0.l3@[1].entries@.len() == 8192,
        !e_valid(pt0.0.entry(i0, j0)),
        e_valid(pt1.0.entry(i0, j0)),
        forall|i: int, j: int|
            0 <= i < 2 && 0 <= j < 8192 && (i != i0 || j != j0) ==> #[trigger] pt1.0.entry(i, j)
                == pt0.0.entry(i, j),
    ensures
        pt1.mapped_pages() == pt0.mapped_pages() + 1,
{
    let other = 1 - i0;
    assert forall|j: int|
        0 <= j < 8192 implies (#[trigger] pt1.0.l3@[other].entries@[j]).0.bits
        == pt0.0.l3@[other].entries@[j].0.bits by {
        assert(pt1.0.entry(other, j) == pt0.0.entry(other, j));
    }
    lemma_valid_count_agree(pt0.0.l3@[other].entries@, pt1.0.l3@[other].entries@, 8192);
    assert forall|j: int|
        0 <= j < 8192 && j != j0 implies (#[trigger] pt1.0.l3@[i0].entries@[j]).0.bits
        == pt0.0.l3@[i0].entries@[j].0.bits by {
        assert(pt1.0.entry(i0, j) == pt0.0.entry(i0, j));
    }
    lemma_valid_count_split(pt0.0.l3@[i0].entries@, pt1.0.l3@[i0].entries@, j0, 8192);
}

/// Tables that agree except at one slot differ in count by the change at
/// that slot alone.
proof fn lemma_valid_count_split(s1: Seq<L3Entry>, s2: Seq<L3Entry>, j0: int, upto: int)
    requires
        forall|j: int|
            0 <= j < upto && j != j0 ==> (#[trigger] s2[j]).0.bits == s1[j].0.bits,
    ensures
        valid_count(s2, upto) == valid_count(s1, upto) + if 0 <= j0 < upto {
            (if e_valid(s2[j0].0.bits as int) {
                1int
            } else {
                0int
            }) - (if e_valid(s1[j0].0.bits as int) {
                1int
            } else {
                0int
            })
        } else {
            0int
        },
    decreases upto,
{
    if upto > 0 {
        lemma_valid_count_split(s1, s2, j0, upto - 1);
    }
}

/// Returns every page mapped by one L3 table to the allocator.
fn release_pages(t: &L3PageTable, a: &mut Allocator)
    requires
        t.entries@.len() == 8192,
        old(a).wf(),
        forall|j: int|
            0 <= j < 8192 && e_valid((#[trigger] t.entries@[j]).0.bits as int) ==> old(
                a).live@.contains((e_addr(t.entries@[j].0.bits as int), 65536int)),
        forall|j1: int, j2: int|
            0 <= j1 < 8192 && 0 <= j2 < 8192 && j1 != j2 && e_valid(
                (#[trigger] t.entries@[j1]).0.bits as int) && e_valid(
                (#[trigger] t.entries@[j2]).0.bits as int) ==> e_addr(t.entries@[j1].0.bits as int)
                != e_addr(t.entries@[j2].0.bits as int),
    ensures
        final(a).wf(),
        final(a).start == old(a).start,
        final(a).end == old(a).end,
        final(a).free_bytes() == old(a).free_bytes() + valid_count(t.entries@, 8192) * 65536,
        forall|b: (int, int)| #[trigger]
            final(a).live@.contains(b) <==> (old(a).live@.contains(b) && !page_of(t.entries@, b)),
{
    let ghost s = t.entries@;
    let mut j: usize = 0;
    proof {
        crate::allocator::lemma_block_size_page();
        vstd::arithmetic::power2::lemma2_to64();
        crate::util::lemma_pow2_is_pow2(16);
    }
    while j < 8192
        invariant
            t.entries@ == s,
            s.len() == 8192,
            j <= 8192,
            a.wf(),
            a.start == old(a).start,
            a.end == old(a).end,
            a.free_bytes() == old(a).free_bytes() + valid_count(s, j as int) * 65536,
            crate::allocator::block_size_for(65536, 65536) == 65536,
            forall|j2: int|
                0 <= j2 < 8192 && e_valid((#[trigger] s[j2]).0.bits as int) ==> old(
                    a).live@.contains((e_addr(s[j2].0.bits as int), 65536int)),
            forall|j1: int, j2: int|
                0 <= j1 < 8192 && 0 <= j2 < 8192 && j1 != j2 && e_valid(
                    (#[trigger] s[j1]).0.bits as int) && e_valid((#[trigger] s[j2]).0.bits as int)
                    ==> e_addr(s[j1].0.bits as int) != e_addr(s[j2].0.bits as int),
            forall|b: (int, int)| #[trigger]
                a.live@.contains(b) <==> (old(a).live@.contains(b) && !page_of_prefix(s, j as int,
                    b)),
        decreases 8192 - j,
    {
        let entry = t.entries[j];
        let ghost fb0 = a.free_bytes();
        if entry.0.bits % 2 == 1 {
            let addr = ((entry.0.bits / 0x1_0000) % 0x1_0000_0000) * 0x1_0000;
            proof {
                vstd::arithmetic::power2::lemma2_to64();
                crate::util::lemma_pow2_is_pow2(16);
                assert(e_valid(s[j as int].0.bits as int));
                assert(addr as int == e_addr(s[j as int].0.bits as int));
                assert(old(a).live@.contains((addr as int, 65536int)));
                assert(!page_of_prefix(s, j as int, (addr as int, 65536int)));
                assert(a.live@.contains((addr as int, 65536int)));
            }
            a.deallocate(addr, 65536, 65536);
            proof {
                assert(a.free_bytes() == fb0 + 65536);
                assert forall|b: (int, int)| #[trigger]
                    a.live@.contains(b) <==> (old(a).live@.contains(b) && !page_of_prefix(s,
                        j as int + 1, b)) by {
                    if old(a).live@.contains(b) && !page_of_prefix(s, j as int + 1, b) {
                        assert(!page_of_prefix(s, j as int, b));
                        assert(b != (addr as int, 65536int));
                    }
                    if a.live@.contains(b) {
                        assert(!page_of_prefix(s, j as int, b) && b != (addr as int, 65536int));
                        assert forall|j2: int|
                            0 <= j2 < j as int + 1 && e_valid((#[trigger] s[j2]).0.bits as int)
                                implies b != (e_addr(s[j2].0.bits as int), 65536int) by {
                            if j2 == j as int {
                                assert(b != (addr as int, 65536int));
                            }
                        }
                    }
                }
            }
        } else {
            proof {
                assert(!e_valid(s[j as int].0.bits as int));
                assert forall|b: (int, int)|
                    page_of_prefix(s, j as int + 1, b) implies page_of_prefix(s, j as int,
                    b) by {
                    let j2 = choose|j2: int|
                        0 <= j2 < j as int + 1 && e_valid((#[trigger] s[j2]).0.bits as int) && b
                            == (e_addr(s[j2].0.bits as int), 65536int);
                    assert(j2 < j as int);
                }
            }
        }
        j = j + 1;
    }
}

} // verus!
