//! Processes: the saved register state, the supervisor stack, the scheduling
//! state, and creation and loading of a process image.

use vstd::prelude::*;
use crate::allocator::{Allocator, block_size_for, can_fit_spec, lemma_block_size_page};
use crate::vm::{UserPageTable, PagePerm, ADDR_LIMIT, e_valid, e_addr, page_of, alloc_page_post,
    l3_page_entry, l2_of, l3_of, lemma_entry_fields};
use crate::param::{USER_IMG_BASE, USER_STACK_BASE};

verus! {

/// Type of a process ID.
pub type Id = u64;

/// Fixed-layout register snapshot saved on every exception entry. On the
/// machine this layout is an ABI shared with the assembly entry and exit
/// paths: translation-table bases, resume address, saved processor state,
/// stack pointer, `tpidr` (repurposed to hold the PID), 32 SIMD registers
/// and 31 general-purpose registers, in that order.
pub struct TrapFrame {
    pub ttbr0: u64,
    pub ttbr1: u64,
    pub elr: u64,
    pub spsr: u64,
    pub sp: u64,
    pub tpidr: u64,
    pub q_registers: Vec<u128>,
    pub x_registers: Vec<u64>,
}

/// Two frames hold the same register values.
pub open spec fn tf_eq(a: TrapFrame, b: TrapFrame) -> bool {
    &&& a.ttbr0 == b.ttbr0
    &&& a.ttbr1 == b.ttbr1
    &&& a.elr == b.elr
    &&& a.spsr == b.spsr
    &&& a.sp == b.sp
    &&& a.tpidr == b.tpidr
    &&& a.q_registers@ == b.q_registers@
    &&& a.x_registers@ == b.x_registers@
}

impl TrapFrame {
    /// The register banks have their architectural sizes.
    pub open spec fn wf(self) -> bool {
        &&& self.q_registers@.len() == 32
        &&& self.x_registers@.len() == 31
    }

    /// A frame with every register zero.
    pub fn zeroed() -> (tf: TrapFrame)
        ensures
            tf.wf(),
            tf.ttbr0 == 0 && tf.ttbr1 == 0 && tf.elr == 0 && tf.spsr == 0 && tf.sp == 0
                && tf.tpidr == 0,
            forall|i: int| 0 <= i < 32 ==> tf.q_registers@[i] == 0,
            forall|i: int| 0 <= i < 31 ==> tf.x_registers@[i] == 0,
    {
        let mut q: Vec<u128> = Vec::new();
        let mut i: usize = 0;
        while i < 32
            invariant
                q@.len() == i,
                i <= 32,
                forall|j: int| 0 <= j < i ==> q@[j] == 0,
            decreases 32 - i,
        {
            q.push(0);
            i = i + 1;
        }
        let mut x: Vec<u64> = Vec::new();
        let mut j: usize = 0;
        while j < 31
            invariant
                x@.len() == j,
                j <= 31,
                forall|i2: int| 0 <= i2 < j ==> x@[i2] == 0,
            decreases 31 - j,
        {
            x.push(0);
            j = j + 1;
        }
        TrapFrame { ttbr0: 0, ttbr1: 0, elr: 0, spsr: 0, sp: 0, tpidr: 0, q_registers: q,
            x_registers: x }
    }

    /// Writes general-purpose register `i`.
    pub fn set_x(&mut self, i: usize, v: u64)
        requires
            old(self).wf(),
            i < 31,
        ensures
            final(self).wf(),
            final(self).x_registers@ == old(self).x_registers@.update(i as int, v),
            final(self).ttbr0 == old(self).ttbr0,
            final(self).ttbr1 == old(self).ttbr1,
            final(self).elr == old(self).elr,
            final(self).spsr == old(self).spsr,
            final(self).sp == old(self).sp,
            final(self).tpidr == old(self).tpidr,
            final(self).q_registers@ == old(self).q_registers@,
    {
        let slot = crate::util::vec_el_mut(&mut self.x_registers, i);
        *slot = v;
    }

    /// Reads general-purpose register `i`.
    pub fn get_x(&self, i: usize) -> (r: u64)
        requires
            self.wf(),
            i < 31,
        ensures
            r == self.x_registers@[i as int],
    {
        self.x_registers[i]
    }

    /// Returns a frame holding the same register values.
    pub fn duplicate(&self) -> (r: TrapFrame)
        requires
            self.wf(),
        ensures
            r.wf(),
            tf_eq(r, *self),
    {
        TrapFrame {
            ttbr0: self.ttbr0,
            ttbr1: self.ttbr1,
            elr: self.elr,
            spsr: self.spsr,
            sp: self.sp,
            tpidr: self.tpidr,
            q_registers: copy_vec_u128(&self.q_registers),
            x_registers: copy_vec_u64(&self.x_registers),
        }
    }

    /// Overwrites this frame with the register values of `src`.
    pub fn assign(&mut self, src: &TrapFrame)
        requires
            src.wf(),
        ensures
            final(self).wf(),
            tf_eq(*final(self), *src),
    {
        self.ttbr0 = src.ttbr0;
        self.ttbr1 = src.ttbr1;
        self.elr = src.elr;
        self.spsr = src.spsr;
        self.sp = src.sp;
        self.tpidr = src.tpidr;
        self.q_registers = copy_vec_u128(&src.q_registers);
        self.x_registers = copy_vec_u64(&src.x_registers);
    }
}

fn copy_vec_u64(v: &Vec<u64>) -> (r: Vec<u64>)
    ensures
        r@ == v@,
{
    let mut r: Vec<u64> = Vec::new();
    let mut i: usize = 0;
    while i < v.len()
        invariant
            i <= v@.len(),
            r@ == v@.take(i as int),
        decreases v@.len() - i,
    {
        r.push(v[i]);
        proof {
            assert(r@ =~= v@.take(i + 1));
        }
        i = i + 1;
    }
    proof {
        assert(v@.take(v@.len() as int) =~= v@);
    }
    r
}

fn copy_vec_u128(v: &Vec<u128>) -> (r: Vec<u128>)
    ensures
        r@ == v@,
{
    let mut r: Vec<u128> = Vec::new();
    let mut i: usize = 0;
    while i < v.len()
        invariant
            i <= v@.len(),
            r@ == v@.take(i as int),
        decreases v@.len() - i,
    {
        r.push(v[i]);
        proof {
            assert(r@ =~= v@.take(i + 1));
        }
        i = i + 1;
    }
    proof {
        assert(v@.take(v@.len() as int) =~= v@);
    }
    r
}

/// Why a waiting process is parked. Sleeping until a deadline is the only
/// wait the kernel currently issues.
pub enum WaitKind {
    SleepUntil,
}

/// The scheduling state of a process. A waiting process records when the
/// wait began and the time at which it fires, in microseconds of the
/// monotonic clock.
pub enum State {
    Ready,
    Running,
    Waiting { kind: WaitKind, start_us: u64, end_us: u64 },
    Dead,
}

/// A waiting interval never ends before it starts.
pub open spec fn state_wf(s: State) -> bool {
    match s {
        State::Waiting { kind, start_us, end_us } => start_us <= end_us,
        _ => true,
    }
}

/// The memory allocation used for a process's supervisor stack: one kernel
/// page, 16-byte aligned.
pub struct Stack {
    pub base: u64,
}

impl Stack {
    /// Allocates the stack page from the physical allocator. Returns `None`
    /// exactly when the allocator has no block that can serve it.
    pub fn new(a: &mut Allocator) -> (r: Option<Stack>)
        requires
            old(a).wf(),
        ensures
            final(a).wf(),
            final(a).start == old(a).start,
            final(a).end == old(a).end,
            match r {
                Some(st) => {
                    &&& st.base as int % 16 == 0
                    &&& old(a).start <= st.base
                    &&& st.base + 0x1_0000 <= old(a).end
                    &&& final(a).live@ == old(a).live@.insert((st.base as int, 0x1_0000int))
                    &&& !old(a).live@.contains((st.base as int, 0x1_0000int))
                    &&& final(a).free_bytes() == old(a).free_bytes() - 0x1_0000
                },
                None => {
                    &&& *final(a) == *old(a)
                    &&& !can_fit_spec(*old(a), 0x1_0000, 16)
                },
            },
    {
        proof {
            lemma_stack_block_size();
            vstd::arithmetic::power2::lemma2_to64();
            crate::util::lemma_pow2_is_pow2(4);
        }
        match a.allocate(65536, 16) {
            Some(p) => Some(Stack { base: p }),
            None => None,
        }
    }

    /// The lowest address of the stack page.
    pub fn bottom(&self) -> (r: u64)
        ensures
            r == self.base,
    {
        self.base
    }

    /// One past the highest address of the stack page.
    pub fn top(&self) -> (r: u64)
        requires
            self.base + 0x1_0000 <= u64::MAX,
        ensures
            r == self.base + 0x1_0000,
    {
        self.base + 65536
    }
}

/// A 64 KiB request at 16-byte alignment also consumes one page-sized block.
pub proof fn lemma_stack_block_size()
    ensures
        block_size_for(65536, 16) == 65536,
        crate::allocator::eff_align(16) == 16,
{
    lemma_block_size_page();
}

/// Everything the kernel knows about one process.
pub struct Process {
    /// The saved trap frame of the process.
    pub context: TrapFrame,
    /// The memory allocation used for the process's stack.
    pub stack: Stack,
    /// The page table describing the virtual memory of the process.
    pub vmap: UserPageTable,
    /// The scheduling state of the process.
    pub state: State,
}

/// Errors the kernel reports to its own code and to user programs.
#[derive(Debug)]
pub enum OsError {
    NoMemory,
}

pub type OsResult<T> = Result<T, OsError>;

/// The allocator accounts for everything this process holds: its kernel
/// stack block, the block its page table lives in, and one page per valid
/// entry of its user map, all distinct. These are the facts process
/// teardown needs to hand everything back.
pub open spec fn process_owned(p: Process, a: Allocator) -> bool {
    &&& a.live@.contains((p.stack.base as int, 0x1_0000int))
    &&& a.live@.contains((p.vmap.0.base as int, 0x4_0000int))
    &&& forall|i: int, j: int|
        0 <= i < 2 && 0 <= j < 8192 && e_valid(#[trigger] p.vmap.0.entry(i, j))
            ==> a.live@.contains((e_addr(p.vmap.0.entry(i, j)), 0x1_0000int))
    &&& forall|i1: int, j1: int, i2: int, j2: int|
        0 <= i1 < 2 && 0 <= j1 < 8192 && 0 <= i2 < 2 && 0 <= j2 < 8192 && (i1 != i2 || j1 != j2)
            && e_valid(#[trigger] p.vmap.0.entry(i1, j1)) && e_valid(
            #[trigger] p.vmap.0.entry(i2, j2)) ==> e_addr(p.vmap.0.entry(i1, j1)) != e_addr(
            p.vmap.0.entry(i2, j2))
    &&& forall|i: int, j: int|
        0 <= i < 2 && 0 <= j < 8192 && e_valid(#[trigger] p.vmap.0.entry(i, j)) ==> e_addr(
            p.vmap.0.entry(i, j)) != p.stack.base
}

impl Process {
    pub open spec fn wf(self) -> bool {
        &&& self.context.wf()
        &&& state_wf(self.state)
        &&& self.vmap.0.wf()
    }

    /// Creates a new process with a zeroed `TrapFrame`, a zeroed stack of
    /// the default size, and a state of `Ready`. The stack page and the
    /// three pages holding the process's page table come from the physical
    /// allocator; if either allocation fails, returns `NoMemory` and leaves
    /// the allocator's accounting as it was.
    pub fn new(a: &mut Allocator) -> (r: OsResult<Process>)
        requires
            old(a).wf(),
            old(a).end <= ADDR_LIMIT,
        ensures
            final(a).wf(),
            final(a).start == old(a).start,
            final(a).end == old(a).end,
            match r {
                Ok(p) => {
                    &&& p.wf()
                    &&& p.state is Ready
                    &&& p.context.wf()
                    &&& p.context.ttbr0 == 0 && p.context.ttbr1 == 0 && p.context.elr == 0
                    &&& p.context.spsr == 0 && p.context.sp == 0 && p.context.tpidr == 0
                    &&& forall|i: int| 0 <= i < 31 ==> p.context.x_registers@[i] == 0
                    &&& p.vmap.mapped_pages() == 0
                    &&& forall|va: int| !p.vmap.0.is_valid_spec(va)
                    &&& forall|i: int, j: int| 0 <= i < 2 && 0 <= j < 8192
                        ==> #[trigger] p.vmap.0.entry(i, j) == 0
                    &&& process_owned(p, *final(a))
                    &&& final(a).live@ == old(a).live@.insert((p.stack.base as int,
                        0x1_0000int)).insert((p.vmap.0.base as int, 0x4_0000int))
                    &&& final(a).free_bytes() == old(a).free_bytes() - 0x1_0000 - 0x4_0000
                    &&& old(a).start <= p.stack.base
                    &&& p.stack.base + 0x1_0000 <= old(a).end
                    &&& p.vmap.0.base as int % 0x1_0000 == 0
                },
                Err(e) => {
                    &&& e is NoMemory
                    &&& final(a).live@ == old(a).live@
                    &&& final(a).free_bytes() == old(a).free_bytes()
                    &&& !can_fit_spec(*final(a), 0x1_0000, 16) || !can_fit_spec(*final(a),
                        0x3_0000, 0x1_0000)
                },
            },
    {
        let stack = match Stack::new(a) {
            Some(st) => st,
            None => {
                return Err(OsError::NoMemory);
            },
        };
        proof {
            lemma_table_block_size();
            vstd::arithmetic::power2::lemma2_to64();
            crate::util::lemma_pow2_is_pow2(16);
        }
        let table_base = match a.allocate(196608, 65536) {
            Some(p) => p,
            None => {
                // hand the stack page back so nothing is held on failure
                proof {
                    lemma_stack_block_size();
                    crate::util::lemma_pow2_is_pow2(4);
                }
                let ghost at_fail = *a;
                a.deallocate(stack.base, 65536, 16);
                proof {
                    assert(a.live@ =~= old(a).live@);
                    lemma_rollback_keeps_table_unfit(at_fail, *a, stack.base as int);
                }
                return Err(OsError::NoMemory);
            },
        };
        let vmap = UserPageTable::new(table_base);
        Ok(Process { context: TrapFrame::zeroed(), stack, vmap, state: State::Ready })
    }

    /// Releases everything a dead process holds back to the physical
    /// allocator: every page its user map points at, its kernel stack
    /// page, and the pages its page table lives in. This is the only
    /// reclamation path; it runs when the process leaves the queue for
    /// good.
    pub fn release(self, a: &mut Allocator)
        requires
            old(a).wf(),
            self.vmap.0.wf(),
            process_owned(self, *old(a)),
        ensures
            final(a).wf(),
            final(a).start == old(a).start,
            final(a).end == old(a).end,
            final(a).free_bytes() == old(a).free_bytes() + self.vmap.mapped_pages() * 0x1_0000
                + 0x5_0000,
            forall|b: (int, int)| #[trigger]
                final(a).live@.contains(b) <==> (old(a).live@.contains(b) && b != (
                self.stack.base as int, 0x1_0000int) && b != (self.vmap.0.base as int,
                0x4_0000int) && !page_of(self.vmap.0.l3@[0].entries@, b) && !page_of(
                    self.vmap.0.l3@[1].entries@, b)),
    {
        let Process { context: _, stack, vmap, state: _ } = self;
        let table_base = vmap.0.base;
        let ghost s0 = vmap.0.l3@[0].entries@;
        let ghost s1 = vmap.0.l3@[1].entries@;
        let ghost stack_blk = (stack.base as int, 0x1_0000int);
        let ghost table_blk = (table_base as int, 0x4_0000int);
        proof {
            assert forall|i: int, j: int|
                0 <= i < 2 && 0 <= j < 8192 && e_valid(#[trigger] vmap.0.entry(i, j))
                    implies old(a).live@.contains((e_addr(vmap.0.entry(i, j)), 65536int)) by {
                assert(self.vmap.0.entry(i, j) == vmap.0.entry(i, j));
            }
        }
        vmap.teardown(a);
        proof {
            // the stack block survived the page teardown: pages live at
            // other addresses
            assert(!page_of(s0, stack_blk) && !page_of(s1, stack_blk)) by {
                assert forall|j: int|
                    0 <= j < 8192 && e_valid((#[trigger] s0[j]).0.bits as int) implies (e_addr(
                    s0[j].0.bits as int), 65536int) != stack_blk by {
                    assert(self.vmap.0.entry(0, j) == s0[j].0.bits as int);
                }
                assert forall|j: int|
                    0 <= j < 8192 && e_valid((#[trigger] s1[j]).0.bits as int) implies (e_addr(
                    s1[j].0.bits as int), 65536int) != stack_blk by {
                    assert(self.vmap.0.entry(1, j) == s1[j].0.bits as int);
                }
            }
            assert(a.live@.contains(stack_blk));
            lemma_stack_block_size();
            vstd::arithmetic::power2::lemma2_to64();
            crate::util::lemma_pow2_is_pow2(4);
        }
        let ghost a1 = *a;
        a.deallocate(stack.base, 65536, 16);
        proof {
            // the table block has a different size from every page-sized
            // block, so both removals left it alone
            assert(!page_of(s0, table_blk) && !page_of(s1, table_blk));
            assert(a.live@.contains(table_blk));
            lemma_table_block_size();
            crate::util::lemma_pow2_is_pow2(16);
        }
        a.deallocate(table_base, 196608, 65536);
        proof {
            assert forall|b: (int, int)| #[trigger]
                a.live@.contains(b) <==> (old(a).live@.contains(b) && b != stack_blk && b
                != table_blk && !page_of(s0, b) && !page_of(s1, b)) by {}
        }
    }

    /// Returns the highest virtual address that is supported by this
    /// system.
    pub fn get_max_va() -> (r: u64)
        ensures
            r == u64::MAX,
    {
        u64::MAX
    }

    /// Returns the base address of the user memory space.
    pub fn get_image_base() -> (r: u64)
        ensures
            r == USER_IMG_BASE,
    {
        USER_IMG_BASE
    }

    /// Returns the base address of the user process's stack page.
    pub fn get_stack_base() -> (r: u64)
        ensures
            r == USER_STACK_BASE,
    {
        USER_STACK_BASE
    }

    /// Returns the top of the user process's stack: the highest address,
    /// aligned down to 16 bytes.
    pub fn get_stack_top() -> (r: u64)
        ensures
            r == 0xffff_ffff_ffff_fff0u64,
    {
        0xffff_ffff_ffff_fff0
    }

    /// Returns `true` if this process is ready to be scheduled at time
    /// `now_us`: either its state is `Ready`, or it is waiting and the
    /// awaited instant has arrived, in which case the wait's results (the
    /// elapsed milliseconds and a success flag) are written into the saved
    /// context and the state becomes `Ready`. Otherwise returns `false` and
    /// changes nothing.
    pub fn is_ready(&mut self, now_us: u64) -> (r: bool)
        requires
            old(self).wf(),
        ensures
            final(self).wf(),
            r == ready_at(*old(self), now_us),
            woken(*old(self), *final(self), now_us),
            final(self).context.tpidr == old(self).context.tpidr,
            !(old(self).state is Waiting && r) ==> *final(self) == *old(self),
    {
        match self.state {
            State::Ready => true,
            State::Waiting { kind: WaitKind::SleepUntil, start_us, end_us } => {
                if now_us >= end_us {
                    let elapsed_ms = (now_us - start_us) / 1000;
                    self.context.set_x(0, elapsed_ms);
                    self.context.set_x(7, 1);
                    self.state = State::Ready;
                    true
                } else {
                    false
                }
            },
            _ => false,
        }
    }
}

/// The process is ready to run at time `now_us`.
pub open spec fn ready_at(p: Process, now_us: u64) -> bool {
    match p.state {
        State::Ready => true,
        State::Waiting { kind, start_us, end_us } => now_us >= end_us,
        _ => false,
    }
}

/// How `is_ready` at time `now_us` transforms a process: a waiting process
/// whose deadline has passed becomes `Ready` with the elapsed milliseconds
/// in `x0` and 1 in `x7`; any other process is unchanged.
pub open spec fn woken(p0: Process, p1: Process, now_us: u64) -> bool {
    &&& p1.stack == p0.stack
    &&& p1.vmap == p0.vmap
    &&& match p0.state {
        State::Waiting { kind, start_us, end_us } => {
            if now_us >= end_us {
                &&& p1.state is Ready
                &&& tf_eq_except_x(p1.context, p0.context)
                &&& p1.context.x_registers@ == p0.context.x_registers@.update(0, (((now_us
                    - start_us) as u64) / 1000) as u64).update(7, 1u64)
            } else {
                &&& p1.state == p0.state
                &&& tf_eq(p1.context, p0.context)
            }
        },
        _ => {
            &&& p1.state == p0.state
            &&& tf_eq(p1.context, p0.context)
        },
    }
}

/// The frames agree on everything but the general-purpose registers.
pub open spec fn tf_eq_except_x(a: TrapFrame, b: TrapFrame) -> bool {
    &&& a.ttbr0 == b.ttbr0
    &&& a.ttbr1 == b.ttbr1
    &&& a.elr == b.elr
    &&& a.spsr == b.spsr
    &&& a.sp == b.sp
    &&& a.tpidr == b.tpidr
    &&& a.q_registers@ == b.q_registers@
}

/// Allocating one more user page keeps the process fully accounted: the
/// fresh page joins the live set apart from everything the process already
/// holds.
proof fn lemma_owned_after_page(
    p0: Process,
    p1: Process,
    a0: Allocator,
    a1: Allocator,
    va: int,
    pg: u64,
)
    requires
        process_owned(p0, a0),
        p0.vmap.0.wf(),
        a0.end <= ADDR_LIMIT,
        va >= 0,
        p1.stack == p0.stack,
        alloc_page_post(p0.vmap, p1.vmap, a0, a1, va, pg),
    ensures
        process_owned(p1, a1),
{
    let ap = p0.vmap.0.ap as int;
    let flags = 1795 + ap * 64;
    lemma_entry_fields(pg as int, flags);
    assert(l3_page_entry(pg as int, false, ap) == pg + flags);
    let i0 = l2_of(va);
    let j0 = l3_of(va);
    vstd::arithmetic::div_mod::lemma_mod_division_less_than_divisor(va / 0x2000_0000, 2);
    vstd::arithmetic::div_mod::lemma_mod_division_less_than_divisor(va / 0x1_0000, 8192);
    vstd::arithmetic::div_mod::lemma_div_pos_is_pos(va, 0x2000_0000);
    vstd::arithmetic::div_mod::lemma_div_pos_is_pos(va, 0x1_0000);
    assert(e_addr(p1.vmap.0.entry(i0, j0)) == pg);
    assert forall|i: int, j: int|
        0 <= i < 2 && 0 <= j < 8192 && e_valid(#[trigger] p1.vmap.0.entry(i, j))
            implies a1.live@.contains((e_addr(p1.vmap.0.entry(i, j)), 0x1_0000int)) && e_addr(
        p1.vmap.0.entry(i, j)) != p1.stack.base by {
        if i == i0 && j == j0 {
        } else {
            assert(p1.vmap.0.entry(i, j) == p0.vmap.0.entry(i, j));
        }
    }
    assert forall|i1: int, j1: int, i2: int, j2: int|
        0 <= i1 < 2 && 0 <= j1 < 8192 && 0 <= i2 < 2 && 0 <= j2 < 8192 && (i1 != i2 || j1 != j2)
            && e_valid(#[trigger] p1.vmap.0.entry(i1, j1)) && e_valid(
            #[trigger] p1.vmap.0.entry(i2, j2)) implies e_addr(p1.vmap.0.entry(i1, j1)) != e_addr(
        p1.vmap.0.entry(i2, j2)) by {
        if !(i1 == i0 && j1 == j0) {
            assert(p1.vmap.0.entry(i1, j1) == p0.vmap.0.entry(i1, j1));
        }
        if !(i2 == i0 && j2 == j0) {
            assert(p1.vmap.0.entry(i2, j2) == p0.vmap.0.entry(i2, j2));
        }
    }
}

/// Re-absorbing a single 64 KiB span adds only blocks too small for the
/// 256 KiB page-table request, so exhaustion for that request survives the
/// rollback of a stack allocation.
proof fn lemma_rollback_keeps_table_unfit(a1: Allocator, a2: Allocator, s: int)
    requires
        forall|k: int, i: int|
            0 <= k < 30 && 0 <= i < a1.bin(k).len() ==> !crate::allocator::block_fits(
                (#[trigger] a1.bin(k)[i]) as int,
                k,
                block_size_for(0x3_0000, 0x1_0000),
                crate::allocator::eff_align(0x1_0000),
            ),
        crate::allocator::bins_extend(a1, a2, s, s + 0x1_0000),
    ensures
        !can_fit_spec(a2, 0x3_0000, 0x1_0000),
{
    lemma_table_block_size();
    assert forall|k: int, i: int|
        0 <= k < 30 && 0 <= i < a2.bin(k).len() implies !crate::allocator::block_fits(
        (#[trigger] a2.bin(k)[i]) as int,
        k,
        0x4_0000,
        0x1_0000,
    ) by {
        crate::allocator::lemma_class_size_facts(k);
        if i < a1.bin(k).len() {
            assert(a2.bin(k)[i] == a1.bin(k)[i]);
        } else {
            // a fresh block lies inside the released span, so its class
            // size is at most 64 KiB, far below the request
            let addr = a2.bin(k)[i] as int;
            assert(s <= addr && addr + crate::allocator::class_size(k) <= s + 0x1_0000);
            crate::util::lemma_align_mod_facts(addr, 0x1_0000);
        }
    }
}

/// A 192 KiB page-table allocation at page alignment consumes one 256 KiB
/// block.
pub proof fn lemma_table_block_size()
    ensures
        block_size_for(196608, 65536) == 262144,
        crate::allocator::eff_align(65536) == 65536,
{
    crate::allocator::lemma_block_size_page();
    assert(crate::allocator::next_pow2(1) == 1);
    assert(crate::allocator::next_pow2(2) == 2);
    assert(crate::allocator::next_pow2(3) == 4);
    assert(crate::allocator::next_pow2(6) == 8);
    assert(crate::allocator::next_pow2(12) == 16);
    assert(crate::allocator::next_pow2(24) == 32);
    assert(crate::allocator::next_pow2(48) == 64);
    assert(crate::allocator::next_pow2(96) == 128);
    assert(crate::allocator::next_pow2(192) == 256);
    assert(crate::allocator::next_pow2(384) == 512);
    assert(crate::allocator::next_pow2(768) == 1024);
    assert(crate::allocator::next_pow2(1536) == 2048);
    assert(crate::allocator::next_pow2(3072) == 4096);
    assert(crate::allocator::next_pow2(6144) == 8192);
    assert(crate::allocator::next_pow2(12288) == 16384);
    assert(crate::allocator::next_pow2(24576) == 32768);
    assert(crate::allocator::next_pow2(49152) == 65536);
    assert(crate::allocator::next_pow2(98304) == 131072);
    assert(crate::allocator::next_pow2(196608) == 262144);
}

/// Number of 64 KiB pages an image of `sz` bytes occupies.
pub open spec fn code_pages(sz: int) -> int {
    (sz + 0xffff) / 0x1_0000
}

impl Process {
    /// Creates a process ready to run a flat binary image of `img_size`
    /// bytes: one user stack page at the stack base and one page per
    /// 64 KiB of image starting at the image base, with the context set to
    /// enter the image at its base with interrupts and aborts masked
    /// (`spsr` bits 6, 8 and 9), the stack pointer at the stack top, the
    /// kernel's table in `ttbr0` and the process's own table in `ttbr1`.
    /// The caller copies the image bytes into the returned pages. Returns
    /// `NoMemory` when the physical allocator cannot serve one of the
    /// allocations; the machine kernel treats that as fatal, and the blocks
    /// carved before the failing step stay held (the contract bounds how
    /// many).
    pub fn load(img_size: u64, kern_baddr: u64, a: &mut Allocator) -> (r: OsResult<Process>)
        requires
            old(a).wf(),
            old(a).end <= ADDR_LIMIT,
            img_size <= 0x3fff_0000,
        ensures
            final(a).wf(),
            final(a).start == old(a).start,
            final(a).end == old(a).end,
            match r {
                Ok(p) => {
                    &&& p.wf()
                    &&& p.state is Ready
                    &&& p.context.sp == 0xffff_ffff_ffff_fff0u64
                    &&& p.context.spsr == 832
                    &&& p.context.elr == USER_IMG_BASE
                    &&& p.context.ttbr0 == kern_baddr
                    &&& p.context.ttbr1 == p.vmap.0.base
                    &&& p.context.tpidr == 0
                    &&& p.vmap.0.is_valid_spec(USER_STACK_BASE as int)
                    &&& forall|j: int|
                        0 <= j < code_pages(img_size as int) ==> p.vmap.0.is_valid_spec(
                            USER_IMG_BASE + #[trigger] (j * 0x1_0000))
                    &&& p.vmap.mapped_pages() == 1 + code_pages(img_size as int)
                    &&& process_owned(p, *final(a))
                    &&& final(a).free_bytes() == old(a).free_bytes() - 0x6_0000 - code_pages(
                        img_size as int) * 0x1_0000
                },
                Err(e) => {
                    &&& e is NoMemory
                    &&& !can_fit_spec(*final(a), 0x1_0000, 16) || !can_fit_spec(*final(a),
                        0x3_0000, 0x1_0000) || !can_fit_spec(*final(a), 0x1_0000, 0x1_0000)
                    &&& old(a).free_bytes() - 0x6_0000 - code_pages(img_size as int) * 0x1_0000
                        <= final(a).free_bytes() <= old(a).free_bytes()
                },
            },
    {
        proof {
            lemma_code_pages_bounds(img_size as int);
        }
        let mut p = match Process::new(a) {
            Ok(p) => p,
            Err(e) => {
                return Err(e);
            },
        };
        proof {
            crate::vm::lemma_user_page_index(16383);
            vstd::arithmetic::div_mod::lemma_fundamental_div_mod((img_size + 0xffff) as int,
                0x1_0000);
        }
        let stack_va = Process::get_stack_base();
        let ghost p0 = p;
        let ghost a0 = *a;
        match p.vmap.try_allocate(stack_va, PagePerm::RW, a) {
            Some(pg) => {
                proof {
                    lemma_owned_after_page(p0, p, a0, *a, stack_va as int, pg);
                }
            },
            Option::None => {
                return Err(OsError::NoMemory);
            },
        }
        let n_code: u64 = if img_size == 0 {
            0
        } else {
            (img_size - 1) / 65536 + 1
        };
        proof {
            if img_size > 0 {
                lemma_div_ceil(img_size as int);
            }
            assert forall|j: int| 0 <= j < 16383 implies !p.vmap.0.is_valid_spec(USER_IMG_BASE
                + #[trigger] (j * 0x1_0000)) by {
                crate::vm::lemma_user_page_index(j);
                crate::vm::lemma_index_of_page_injective(j, 16383);
            }
        }
        let mut k: u64 = 0;
        while k < n_code
            invariant
                a.wf(),
                a.end <= ADDR_LIMIT,
                a.start == old(a).start,
                a.end == old(a).end,
                p.vmap.0.wf(),
                p.context.wf(),
                crate::process::state_wf(p.state),
                p.state is Ready,
                p.context.tpidr == 0,
                n_code == code_pages(img_size as int),
                n_code <= 16383,
                k <= n_code,
                p.vmap.mapped_pages() == 1 + k,
                process_owned(p, *a),
                a.free_bytes() == old(a).free_bytes() - 0x6_0000 - k * 0x1_0000,
                p.vmap.0.is_valid_spec(USER_STACK_BASE as int),
                forall|j: int|
                    0 <= j < k ==> p.vmap.0.is_valid_spec(USER_IMG_BASE + #[trigger] (j
                        * 0x1_0000)),
                forall|j: int|
                    k <= j < 16383 ==> !p.vmap.0.is_valid_spec(USER_IMG_BASE + #[trigger] (j
                        * 0x1_0000)),
            decreases n_code - k,
        {
            let va = USER_IMG_BASE + k * 65536;
            let ghost before = p.vmap;
            let ghost pk = p;
            let ghost ak = *a;
            match p.vmap.try_allocate(va, PagePerm::RWX, a) {
                Some(pg) => {
                    proof {
                        lemma_owned_after_page(pk, p, ak, *a, va as int, pg);
                    }
                },
                Option::None => {
                    return Err(OsError::NoMemory);
                },
            }
            proof {
                crate::vm::lemma_user_page_index(k as int);
                assert forall|j: int| 0 <= j < 16383 && j != k as int implies p.vmap.0
                    .is_valid_spec(USER_IMG_BASE + #[trigger] (j * 0x1_0000))
                    == before.0.is_valid_spec(USER_IMG_BASE + j * 0x1_0000) by {
                    crate::vm::lemma_user_page_index(j);
                    crate::vm::lemma_index_of_page_injective(j, k as int);
                }
                crate::vm::lemma_index_of_page_injective(16383, k as int);
            }
            k = k + 1;
        }
        p.context.sp = Process::get_stack_top();
        p.context.spsr = 832;
        p.context.elr = Process::get_image_base();
        p.context.ttbr0 = kern_baddr;
        let baddr = p.vmap.0.get_baddr();
        p.context.ttbr1 = baddr;
        Ok(p)
    }
}

/// The page count of an image is nonnegative and bounded by the user
/// window.
proof fn lemma_code_pages_bounds(sz: int)
    requires
        0 <= sz <= 0x3fff_0000,
    ensures
        0 <= code_pages(sz) <= 16383,
{
    vstd::arithmetic::div_mod::lemma_fundamental_div_mod(sz + 0xffff, 0x1_0000);
    vstd::arithmetic::div_mod::lemma_mod_division_less_than_divisor(sz + 0xffff, 0x1_0000);
}

/// For a positive size, `(size - 1) / 65536 + 1` pages cover it: the
/// rounded-up page count.
proof fn lemma_div_ceil(sz: int)
    requires
        1 <= sz,
    ensures
        (sz - 1) / 0x1_0000 + 1 == code_pages(sz),
{
    vstd::arithmetic::div_mod::lemma_fundamental_div_mod(sz - 1, 0x1_0000);
    vstd::arithmetic::div_mod::lemma_mod_division_less_than_divisor(sz - 1, 0x1_0000);
    let q = (sz - 1) / 0x1_0000;
    let r = (sz - 1) % 0x1_0000;
    vstd::arithmetic::div_mod::lemma_fundamental_div_mod_converse(sz + 0xffff, 0x1_0000, q + 1, r);
}

} // verus!
