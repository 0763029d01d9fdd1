//! The round-robin preemptive scheduler.
//!
//! The scheduler keeps an ordered queue of processes and a monotonically
//! increasing PID counter. At most one process is `Running` at any time and
//! it sits at the front of the queue. A context switch saves the trap frame
//! into the departing process, pushes it to the back (or drops it when it
//! dies), and restores the first ready process's frame, moving that process
//! to the front.

use vstd::prelude::*;
use crate::process::{Process, State, Id, TrapFrame, tf_eq, tf_eq_except_x, ready_at, state_wf,
    process_owned};
use crate::allocator::Allocator;
use crate::vm::page_of;

verus! {

/// Index of the first process ready at `now`, scanning from `i`; `-1` when
/// none is.
pub open spec fn first_ready_from(q: Seq<Process>, now: u64, i: int) -> int
    decreases q.len() - i,
{
    if i < 0 || i >= q.len() {
        -1
    } else if ready_at(q[i], now) {
        i
    } else {
        first_ready_from(q, now, i + 1)
    }
}

/// Index of the first process with PID `pid` in state `Running`, scanning
/// from `i`; `-1` when none is.
pub open spec fn find_running_from(q: Seq<Process>, pid: u64, i: int) -> int
    decreases q.len() - i,
{
    if i < 0 || i >= q.len() {
        -1
    } else if q[i].context.tpidr == pid && q[i].state is Running {
        i
    } else {
        find_running_from(q, pid, i + 1)
    }
}

/// The saved context a process carries after its wait has been examined at
/// time `now`: a fired wait writes the elapsed milliseconds into `x0` and 1
/// into `x7`; everything else keeps the context as it was.
pub open spec fn wake_ctx_ok(p0: Process, c: TrapFrame, now: u64) -> bool {
    match p0.state {
        State::Waiting { kind, start_us, end_us } => {
            if now >= end_us {
                &&& tf_eq_except_x(c, p0.context)
                &&& c.x_registers@ == p0.context.x_registers@.update(0, (((now - start_us) as u64)
                    / 1000) as u64).update(7, 1u64)
            } else {
                tf_eq(c, p0.context)
            }
        },
        _ => tf_eq(c, p0.context),
    }
}

/// `p1` is `p0` dispatched at time `now`: running, at the front, with its
/// wait results (if any) delivered into the saved context.
pub open spec fn dispatched(p0: Process, p1: Process, now: u64) -> bool {
    &&& p1.stack == p0.stack
    &&& p1.vmap == p0.vmap
    &&& p1.state is Running
    &&& p1.context.tpidr == p0.context.tpidr
    &&& wake_ctx_ok(p0, p1.context, now)
}

/// What `switch_to` at time `now` does to the queue and the trap frame:
/// nothing when no process is ready; otherwise the first ready process
/// moves to the front in state `Running`, its saved context (with wait
/// results delivered) is copied into the frame, and its PID is returned.
pub open spec fn switch_to_post(
    q0: Seq<Process>,
    q1: Seq<Process>,
    tf0: TrapFrame,
    tf1: TrapFrame,
    now: u64,
    r: Option<Id>,
) -> bool {
    let idx = first_ready_from(q0, now, 0);
    if idx == -1 {
        &&& r is None
        &&& q1 == q0
        &&& tf_eq(tf1, tf0)
    } else {
        &&& 0 <= idx < q0.len()
        &&& r == Some(q0[idx].context.tpidr)
        &&& q1.len() == q0.len()
        &&& dispatched(q0[idx], q1[0], now)
        &&& q1.subrange(1, q1.len() as int) == q0.remove(idx)
        &&& tf_eq(tf1, q1[0].context)
    }
}

/// What `schedule_out(new_state)` does: the running process named by the
/// frame's PID leaves its place, saves the frame as its context, takes
/// `new_state`, and requeues at the back — or is dropped when `new_state`
/// is `Dead`. Without such a process nothing changes.
pub open spec fn schedule_out_post(
    q0: Seq<Process>,
    q1: Seq<Process>,
    new_state: State,
    tf: TrapFrame,
    r: bool,
) -> bool {
    let idx = find_running_from(q0, tf.tpidr, 0);
    if idx == -1 {
        &&& !r
        &&& q1 == q0
    } else {
        &&& r
        &&& 0 <= idx < q0.len()
        &&& if new_state is Dead {
            q1 == q0.remove(idx)
        } else {
            &&& q1.len() == q0.len()
            &&& q1.subrange(0, q1.len() - 1) == q0.remove(idx)
            &&& q1.last().stack == q0[idx].stack
            &&& q1.last().vmap == q0[idx].vmap
            &&& q1.last().state == new_state
            &&& tf_eq(q1.last().context, tf)
        }
    }
}

/// What the allocator regains when a context switch retires a process: if
/// `new_state` is `Dead` and a running process matching the frame's PID
/// exists, that process's user pages, its kernel stack page and its page
/// table's storage all return to the free lists; otherwise the allocator
/// is untouched.
pub open spec fn dead_reclaim_post(
    q0: Seq<Process>,
    pid: u64,
    a0: Allocator,
    a1: Allocator,
    new_state: State,
) -> bool {
    let idx = find_running_from(q0, pid, 0);
    if new_state is Dead && idx != -1 {
        let p = q0[idx];
        &&& a1.wf()
        &&& a1.start == a0.start
        &&& a1.end == a0.end
        &&& a1.free_bytes() == a0.free_bytes() + p.vmap.mapped_pages() * 0x1_0000 + 0x5_0000
        &&& forall|b: (int, int)| #[trigger]
            a1.live@.contains(b) <==> (a0.live@.contains(b) && b != (p.stack.base as int,
            0x1_0000int) && b != (p.vmap.0.base as int, 0x4_0000int) && !page_of(
                p.vmap.0.l3@[0].entries@, b) && !page_of(p.vmap.0.l3@[1].entries@, b))
    } else {
        a1 == a0
    }
}

/// The process a `Dead` switch would retire (if any) is fully accounted to
/// the allocator, so its memory can be handed back.
pub open spec fn victim_owned(q: Seq<Process>, pid: u64, a: Allocator, new_state: State) -> bool {
    new_state is Dead ==> {
        let idx = find_running_from(q, pid, 0);
        idx != -1 ==> process_owned(q[idx], a)
    }
}

/// The scheduler's queue and its PID counter. `last_id` is the PID most
/// recently assigned; it only grows, and PIDs of dead processes are never
/// reused.
pub struct Scheduler {
    pub processes: Vec<Process>,
    pub last_id: Option<Id>,
}

impl Scheduler {
    pub open spec fn q(self) -> Seq<Process> {
        self.processes@
    }

    /// Every queued process is well formed, PIDs are distinct and no
    /// larger than `last_id`, and only the front process may be `Running`.
    pub open spec fn wf(self) -> bool {
        &&& forall|i: int| 0 <= i < self.q().len() ==> (#[trigger] self.q()[i]).wf()
        &&& forall|i: int, j: int|
            0 <= i < self.q().len() && 0 <= j < self.q().len() && i != j ==> (
            #[trigger] self.q()[i]).context.tpidr != (#[trigger] self.q()[j]).context.tpidr
        &&& forall|i: int| 1 <= i < self.q().len() ==> !((#[trigger] self.q()[i]).state is Running)
        &&& match self.last_id {
            Option::None => self.q().len() == 0,
            Option::Some(x) => forall|i: int|
                0 <= i < self.q().len() ==> (#[trigger] self.q()[i]).context.tpidr <= x,
        }
    }

    /// Returns a new `Scheduler` with an empty queue.
    pub fn new() -> (s: Scheduler)
        ensures
            s.wf(),
            s.q().len() == 0,
            s.last_id is None,
    {
        Scheduler { processes: Vec::new(), last_id: Option::None }
    }

    /// The PID the next added process gets: one more than the last, zero
    /// for the first, and none at all once the counter has reached its
    /// maximum.
    pub open spec fn next_pid(last: Option<Id>) -> Option<Id> {
        match last {
            Option::None => Some(0u64),
            Option::Some(x) => if x == u64::MAX {
                Option::None
            } else {
                Some((x + 1) as u64)
            },
        }
    }

    /// Adds a process to the queue and returns its newly assigned PID,
    /// which is stored in the process's `tpidr`. Returns `None` exactly
    /// when the PID counter is exhausted.
    pub fn add(&mut self, process: Process) -> (r: Option<Id>)
        requires
            old(self).wf(),
            process.wf(),
            !(process.state is Running),
        ensures
            final(self).wf(),
            r == Scheduler::next_pid(old(self).last_id),
            match r {
                Some(pid) => {
                    &&& final(self).last_id == Some(pid)
                    &&& final(self).q().len() == old(self).q().len() + 1
                    &&& final(self).q().subrange(0, old(self).q().len() as int) == old(self).q()
                    &&& final(self).q().last().stack == process.stack
                    &&& final(self).q().last().vmap == process.vmap
                    &&& final(self).q().last().state == process.state
                    &&& final(self).q().last().context.tpidr == pid
                    &&& tf_eq_except_tpidr(final(self).q().last().context, process.context)
                },
                Option::None => *final(self) == *old(self),
            },
    {
        let pid_opt: Option<Id> = match self.last_id {
            Option::None => Some(0),
            Option::Some(x) => if x == u64::MAX {
                Option::None
            } else {
                Some(x + 1)
            },
        };
        match pid_opt {
            Some(pid) => {
                let mut process = process;
                process.context.tpidr = pid;
                self.processes.push(process);
                self.last_id = Some(pid);
                proof {
                    assert(self.q().subrange(0, old(self).q().len() as int) =~= old(self).q());
                }
                Some(pid)
            },
            Option::None => Option::None,
        }
    }

    /// Saves `tf` into the currently running process named by `tf.tpidr`,
    /// gives it `new_state`, and moves it to the back of the queue — or,
    /// when the new state is `Dead`, retires it for good, handing its user
    /// pages, stack page and page-table storage back to the allocator.
    /// Returns whether such a process was found.
    pub fn schedule_out(&mut self, new_state: State, tf: &TrapFrame, a: &mut Allocator) -> (r:
        bool)
        requires
            old(self).wf(),
            old(a).wf(),
            state_wf(new_state),
            !(new_state is Running),
            tf.wf(),
            victim_owned(old(self).q(), tf.tpidr, *old(a), new_state),
        ensures
            final(self).wf(),
            final(a).wf(),
            final(self).last_id == old(self).last_id,
            schedule_out_post(old(self).q(), final(self).q(), new_state, *tf, r),
            dead_reclaim_post(old(self).q(), tf.tpidr, *old(a), *final(a), new_state),
    {
        let ghost q0 = self.q();
        let n = self.processes.len();
        let mut i: usize = 0;
        let mut found: bool = false;
        let mut idx: usize = 0;
        while i < n && !found
            invariant
                *self == *old(self),
                n == self.q().len(),
                i <= n,
                tf.wf(),
                !found ==> find_running_from(self.q(), tf.tpidr, 0) == find_running_from(
                    self.q(), tf.tpidr, i as int),
                found ==> idx < n && find_running_from(self.q(), tf.tpidr, 0) == idx,
            decreases n - i + if found {
                0int
            } else {
                1int
            },
        {
            let p = &self.processes[i];
            let mut hit = false;
            if p.context.tpidr == tf.tpidr {
                if let State::Running = p.state {
                    hit = true;
                }
            }
            if hit {
                found = true;
                idx = i;
                proof {
                    lemma_find_running(self.q(), tf.tpidr, i as int);
                }
            } else {
                proof {
                    lemma_find_running_step(self.q(), tf.tpidr, i as int);
                }
                i = i + 1;
            }
        }
        if found {
            let ghost idxi = idx as int;
            let mut p = self.processes.remove(idx);
            match new_state {
                State::Dead => {
                    proof {
                        lemma_queue_remove_wf(q0, idxi);
                        lemma_find_running_props(q0, tf.tpidr, 0);
                        assert(self.q() == q0.remove(idxi));
                        assert(process_owned(p, *a));
                    }
                    p.release(a);
                },
                other => {
                    p.state = other;
                    p.context.assign(tf);
                    self.processes.push(p);
                    proof {
                        lemma_find_running_props(q0, tf.tpidr, 0);
                        assert(self.q().subrange(0, self.q().len() - 1) =~= q0.remove(idxi));
                        lemma_queue_remove_wf(q0, idxi);
                        let q1 = self.q();
                        assert(q1.last().context.tpidr == q0[idxi].context.tpidr);
                        assert forall|x: int, y: int|
                            0 <= x < q1.len() && 0 <= y < q1.len() && x != y implies (
                        #[trigger] q1[x]).context.tpidr != (#[trigger] q1[y]).context.tpidr by {
                            if x < q1.len() - 1 {
                                assert(q1[x] == q0.remove(idxi)[x]);
                                lemma_remove_keeps(q0, idxi, x);
                            }
                            if y < q1.len() - 1 {
                                assert(q1[y] == q0.remove(idxi)[y]);
                                lemma_remove_keeps(q0, idxi, y);
                            }
                        }
                        assert forall|x: int| 0 <= x < q1.len() implies (#[trigger] q1[x]).wf() by {
                            if x < q1.len() - 1 {
                                assert(q1[x] == q0.remove(idxi)[x]);
                                lemma_remove_keeps(q0, idxi, x);
                            }
                        }
                        assert forall|x: int| 1 <= x < q1.len() implies !((#[trigger] q1[x]).state
                            is Running) by {
                            if x < q1.len() - 1 {
                                assert(q1[x] == q0.remove(idxi)[x]);
                                lemma_remove_keeps(q0, idxi, x);
                            }
                        }
                        if old(self).last_id is Some {
                            let lim = old(self).last_id->Some_0;
                            assert forall|x: int| 0 <= x < q1.len() implies (
                            #[trigger] q1[x]).context.tpidr <= lim by {
                                if x < q1.len() - 1 {
                                    assert(q1[x] == q0.remove(idxi)[x]);
                                    lemma_remove_keeps(q0, idxi, x);
                                } else {
                                    assert(q1[x].context.tpidr == q0[idxi].context.tpidr);
                                }
                            }
                        }
                    }
                },
            }
            true
        } else {
            false
        }
    }

    /// Finds the first ready process, moves it to the front in state
    /// `Running`, and restores its saved context into `tf`. A waiting
    /// process whose deadline has passed has its wait results written into
    /// its saved context before the copy. Returns its PID, or `None` if no
    /// process is ready at `now_us`.
    pub fn switch_to(&mut self, tf: &mut TrapFrame, now_us: u64) -> (r: Option<Id>)
        requires
            old(self).wf(),
            old(tf).wf(),
            forall|i: int| 0 <= i < old(self).q().len() ==> !((#[trigger] old(self).q()[i]).state
                is Running),
        ensures
            final(self).wf(),
            final(tf).wf(),
            final(self).last_id == old(self).last_id,
            switch_to_post(old(self).q(), final(self).q(), *old(tf), *final(tf), now_us, r),
            r is None <==> first_ready_from(old(self).q(), now_us, 0) == -1,
    {
        let ghost q0 = self.q();
        let n = self.processes.len();
        let mut i: usize = 0;
        let mut found: bool = false;
        while i < n && !found
            invariant
                *self == *old(self),
                self.wf(),
                n == self.q().len(),
                i <= n,
                !found ==> first_ready_from(self.q(), now_us, 0) == first_ready_from(self.q(),
                    now_us, i as int),
                found ==> i < n && first_ready_from(self.q(), now_us, 0) == i,
            decreases n - i + if found {
                0int
            } else {
                1int
            },
        {
            let p = &self.processes[i];
            if check_ready(p, now_us) {
                found = true;
            } else {
                proof {
                    lemma_first_ready_step(self.q(), now_us, i as int);
                }
                i = i + 1;
            }
        }
        if found {
            let ghost idx = i as int;
            let mut p = self.processes.remove(i);
            // deliver the wait results, if any, into the saved context
            let _ = p.is_ready(now_us);
            p.state = State::Running;
            let pid = p.context.tpidr;
            tf.assign(&p.context);
            self.processes.insert(0, p);
            proof {
                lemma_first_ready_props(q0, now_us, 0);
                assert(self.q().subrange(1, self.q().len() as int) =~= q0.remove(idx));
                lemma_queue_remove_wf(q0, idx);
                let q1 = self.q();
                assert(q1[0].context.tpidr == q0[idx].context.tpidr);
                assert forall|a: int, b: int|
                    0 <= a < q1.len() && 0 <= b < q1.len() && a != b implies (
                #[trigger] q1[a]).context.tpidr != (#[trigger] q1[b]).context.tpidr by {
                    if a >= 1 {
                        assert(q1[a] == q0.remove(idx)[a - 1]);
                        lemma_remove_keeps(q0, idx, a - 1);
                    }
                    if b >= 1 {
                        assert(q1[b] == q0.remove(idx)[b - 1]);
                        lemma_remove_keeps(q0, idx, b - 1);
                    }
                }
                assert forall|a: int| 0 <= a < q1.len() implies (#[trigger] q1[a]).wf() by {
                    if a >= 1 {
                        assert(q1[a] == q0.remove(idx)[a - 1]);
                        lemma_remove_keeps(q0, idx, a - 1);
                    }
                }
                assert forall|a: int| 1 <= a < q1.len() implies !((#[trigger] q1[a]).state
                    is Running) by {
                    assert(q1[a] == q0.remove(idx)[a - 1]);
                    lemma_remove_keeps(q0, idx, a - 1);
                }
                if old(self).last_id is Some {
                    let x = old(self).last_id->Some_0;
                    assert forall|a: int| 0 <= a < q1.len() implies (
                    #[trigger] q1[a]).context.tpidr <= x by {
                        if a >= 1 {
                            assert(q1[a] == q0.remove(idx)[a - 1]);
                            lemma_remove_keeps(q0, idx, a - 1);
                        }
                    }
                }
            }
            Some(pid)
        } else {
            proof {
                assert(first_ready_from(q0, now_us, n as int) == -1);
            }
            Option::None
        }
    }

    /// Kills the currently running process named by `tf.tpidr`: removes it
    /// from the queue, hands all its memory back to the allocator, and
    /// immediately dispatches the next ready process. Returns the killed
    /// process's PID, or `None` when no running process matches the frame.
    pub fn kill(&mut self, tf: &mut TrapFrame, now_us: u64, a: &mut Allocator) -> (r: Option<Id>)
        requires
            old(self).wf(),
            old(a).wf(),
            old(tf).wf(),
            forall|i: int|
                0 <= i < old(self).q().len() && (#[trigger] old(self).q()[i]).state is Running
                    ==> old(self).q()[i].context.tpidr == old(tf).tpidr,
            victim_owned(old(self).q(), old(tf).tpidr, *old(a), State::Dead),
        ensures
            final(self).wf(),
            final(a).wf(),
            final(tf).wf(),
            final(self).last_id == old(self).last_id,
            dead_reclaim_post(old(self).q(), old(tf).tpidr, *old(a), *final(a), State::Dead),
            ({
                let idx = find_running_from(old(self).q(), old(tf).tpidr, 0);
                if idx == -1 {
                    &&& r is None
                    &&& final(self).q() == old(self).q()
                    &&& tf_eq(*final(tf), *old(tf))
                } else {
                    &&& r == Some(old(tf).tpidr)
                    &&& final(self).q().len() == old(self).q().len() - 1
                    &&& exists|r2: Option<Id>|
                        switch_to_post(old(self).q().remove(idx), final(self).q(), *old(tf),
                            *final(tf), now_us, r2)
                    &&& forall|j: int|
                        0 <= j < final(self).q().len() ==> (
                        #[trigger] final(self).q()[j]).context.tpidr != old(tf).tpidr
                }
            }),
    {
        let ghost q0 = self.q();
        let n = self.processes.len();
        let mut i: usize = 0;
        let mut found: bool = false;
        while i < n && !found
            invariant
                *self == *old(self),
                n == self.q().len(),
                i <= n,
                tf.wf(),
                *tf == *old(tf),
                !found ==> find_running_from(self.q(), tf.tpidr, 0) == find_running_from(
                    self.q(), tf.tpidr, i as int),
                found ==> i < n && find_running_from(self.q(), tf.tpidr, 0) == i,
            decreases n - i + if found {
                0int
            } else {
                1int
            },
        {
            let p = &self.processes[i];
            let mut hit = false;
            if p.context.tpidr == tf.tpidr {
                if let State::Running = p.state {
                    hit = true;
                }
            }
            if hit {
                found = true;
                proof {
                    lemma_find_running(self.q(), tf.tpidr, i as int);
                }
            } else {
                proof {
                    lemma_find_running_step(self.q(), tf.tpidr, i as int);
                }
                i = i + 1;
            }
        }
        if found {
            let ghost idx = i as int;
            let p = self.processes.remove(i);
            let pid = p.context.tpidr;
            let ghost q1 = self.q();
            proof {
                lemma_find_running_props(q0, tf.tpidr, 0);
                assert(process_owned(p, *a));
            }
            p.release(a);
            proof {
                lemma_queue_remove_wf(q0, idx);
                assert forall|x: int| 0 <= x < q1.len() implies !((#[trigger] q1[x]).state
                    is Running) by {
                    lemma_remove_keeps(q0, idx, x);
                    if q1[x].state is Running {
                        assert(q1[x].context.tpidr == tf.tpidr);
                    }
                }
            }
            let r2 = self.switch_to(tf, now_us);
            proof {
                assert(q1 == q0.remove(idx));
                assert forall|m: int| 0 <= m < q1.len() implies (
                #[trigger] q1[m]).context.tpidr != pid by {
                    lemma_remove_keeps(q0, idx, m);
                }
                let idx2 = first_ready_from(q1, now_us, 0);
                if idx2 != -1 {
                    assert(self.q().subrange(1, self.q().len() as int) == q1.remove(idx2));
                    assert forall|j: int| 0 <= j < self.q().len() implies (
                    #[trigger] self.q()[j]).context.tpidr != pid by {
                        if j == 0 {
                            assert(self.q()[0].context.tpidr == q1[idx2].context.tpidr);
                        } else {
                            assert(self.q()[j] == self.q().subrange(1,
                                self.q().len() as int)[j - 1]);
                            assert(self.q()[j] == q1.remove(idx2)[j - 1]);
                            lemma_remove_keeps(q1, idx2, j - 1);
                        }
                    }
                }
            }
            Some(pid)
        } else {
            Option::None
        }
    }
}

/// A read-only test of `ready_at`.
fn check_ready(p: &Process, now_us: u64) -> (r: bool)
    requires
        p.wf(),
    ensures
        r == ready_at(*p, now_us),
{
    match &p.state {
        State::Ready => true,
        State::Waiting { kind, start_us, end_us } => now_us >= *end_us,
        _ => false,
    }
}

/// Removing an element preserves the queue invariants.
proof fn lemma_queue_remove_wf(q: Seq<Process>, idx: int)
    requires
        0 <= idx < q.len(),
    ensures
        forall|j: int|
            0 <= j < q.len() - 1 ==> #[trigger] q.remove(idx)[j] == if j < idx {
                q[j]
            } else {
                q[j + 1]
            },
{
}

/// Each element of `q.remove(idx)` is an element of `q` other than `q[idx]`.
proof fn lemma_remove_keeps(q: Seq<Process>, idx: int, j: int)
    requires
        0 <= idx < q.len(),
        0 <= j < q.len() - 1,
    ensures
        q.remove(idx)[j] == if j < idx {
            q[j]
        } else {
            q[j + 1]
        },
{
}

/// `tf_eq` on everything but the PID register.
pub open spec fn tf_eq_except_tpidr(a: TrapFrame, b: TrapFrame) -> bool {
    &&& a.ttbr0 == b.ttbr0
    &&& a.ttbr1 == b.ttbr1
    &&& a.elr == b.elr
    &&& a.spsr == b.spsr
    &&& a.sp == b.sp
    &&& a.q_registers@ == b.q_registers@
    &&& a.x_registers@ == b.x_registers@
}

/// A successful scan returns a matching index.
proof fn lemma_find_running_props(q: Seq<Process>, pid: u64, i: int)
    requires
        0 <= i,
    ensures
        ({
            let r = find_running_from(q, pid, i);
            r == -1 || (i <= r < q.len() && q[r].context.tpidr == pid && q[r].state is Running)
        }),
    decreases q.len() - i,
{
    if i < q.len() && !(q[i].context.tpidr == pid && q[i].state is Running) {
        lemma_find_running_props(q, pid, i + 1);
    }
}

/// A successful readiness scan returns a ready index.
proof fn lemma_first_ready_props(q: Seq<Process>, now: u64, i: int)
    requires
        0 <= i,
    ensures
        ({
            let r = first_ready_from(q, now, i);
            r == -1 || (i <= r < q.len() && ready_at(q[r], now))
        }),
    decreases q.len() - i,
{
    if i < q.len() && !ready_at(q[i], now) {
        lemma_first_ready_props(q, now, i + 1);
    }
}

/// If element `i` matches, the scan from `i` stops there.
proof fn lemma_find_running(q: Seq<Process>, pid: u64, i: int)
    requires
        0 <= i < q.len(),
        q[i].context.tpidr == pid,
        q[i].state is Running,
    ensures
        find_running_from(q, pid, i) == i,
{
}

/// If element `i` does not match, the scan from `i` equals the scan from
/// `i + 1`.
proof fn lemma_find_running_step(q: Seq<Process>, pid: u64, i: int)
    requires
        0 <= i < q.len(),
        !(q[i].context.tpidr == pid && q[i].state is Running),
    ensures
        find_running_from(q, pid, i) == find_running_from(q, pid, i + 1),
{
}

proof fn lemma_first_ready_step(q: Seq<Process>, now: u64, i: int)
    requires
        0 <= i < q.len(),
        !ready_at(q[i], now),
    ensures
        first_ready_from(q, now, i) == first_ready_from(q, now, i + 1),
{
}

/// Process scheduler for the entire machine: the machine-wide handle that
/// is created uninitialized at boot and installed once. On the machine it
/// is shared behind an interrupt-masking lock; the kernel's single core
/// serializes all access to it.
pub struct GlobalScheduler {
    pub inner: Option<Scheduler>,
}

impl GlobalScheduler {
    /// The installed scheduler.
    pub open spec fn sched(self) -> Scheduler {
        self.inner->Some_0
    }

    pub open spec fn wf(self) -> bool {
        &&& self.inner is Some
        &&& self.sched().wf()
    }

    /// Returns an uninitialized wrapper around a local scheduler.
    pub fn uninitialized() -> (g: GlobalScheduler)
        ensures
            g.inner is None,
    {
        GlobalScheduler { inner: Option::None }
    }

    /// Installs an empty scheduler. Loading the boot-time processes is the
    /// kernel's policy and happens through `add`.
    pub fn initialize(&mut self)
        ensures
            final(self).wf(),
            final(self).sched().q().len() == 0,
            final(self).sched().last_id is None,
    {
        self.inner = Some(Scheduler::new());
    }

    /// Adds a process to the scheduler's queue and returns that process's
    /// ID. For details, see `Scheduler::add`.
    pub fn add(&mut self, process: Process) -> (r: Option<Id>)
        requires
            old(self).wf(),
            process.wf(),
            !(process.state is Running),
        ensures
            final(self).wf(),
            r == Scheduler::next_pid(old(self).sched().last_id),
            match r {
                Some(pid) => {
                    &&& final(self).sched().last_id == Some(pid)
                    &&& final(self).sched().q().len() == old(self).sched().q().len() + 1
                    &&& final(self).sched().q().subrange(0, old(self).sched().q().len() as int)
                        == old(self).sched().q()
                    &&& final(self).sched().q().last().state == process.state
                    &&& final(self).sched().q().last().context.tpidr == pid
                    &&& tf_eq_except_tpidr(final(self).sched().q().last().context,
                        process.context)
                },
                Option::None => *final(self) == *old(self),
            },
    {
        let s = self.inner.as_mut().unwrap();
        s.add(process)
    }

    /// Performs a context switch at time `now_us`: saves `tf` into the
    /// running process, gives it `new_state`, and restores the first ready
    /// process's frame into `tf`. On the machine the caller retries with
    /// `wait-for-interrupt` while this returns `None`; the retry needs a
    /// fresh clock reading, so the loop lives with the caller.
    pub fn switch(&mut self, new_state: State, tf: &mut TrapFrame, now_us: u64, a: &mut Allocator) -> (r: Option<
        Id,
    >)
        requires
            old(self).wf(),
            old(a).wf(),
            old(tf).wf(),
            state_wf(new_state),
            !(new_state is Running),
            forall|i: int|
                0 <= i < old(self).sched().q().len() && (#[trigger] old(self).sched().q()[i]).state is Running
                    ==> old(self).sched().q()[i].context.tpidr == old(tf).tpidr,
            victim_owned(old(self).sched().q(), old(tf).tpidr, *old(a), new_state),
        ensures
            final(self).wf(),
            final(a).wf(),
            final(tf).wf(),
            dead_reclaim_post(old(self).sched().q(), old(tf).tpidr, *old(a), *final(a),
                new_state),
            exists|mid: Seq<Process>, r1: bool|
                schedule_out_post(old(self).sched().q(), mid, new_state, *old(tf), r1)
                    && switch_to_post(mid, final(self).sched().q(), *old(tf), *final(tf), now_us,
                    r),
    {
        let ghost q0 = self.sched().q();
        let s = self.inner.as_mut().unwrap();
        let ghost tf0 = *tf;
        let r1 = s.schedule_out(new_state, tf, a);
        let ghost mid = s.q();
        proof {
            lemma_find_running_props(q0, tf.tpidr, 0);
            let idx = find_running_from(q0, tf.tpidr, 0);
            assert forall|i: int| 0 <= i < mid.len() implies !((#[trigger] mid[i]).state
                is Running) by {
                if idx != -1 {
                    if !(new_state is Dead) && i == mid.len() - 1 {
                    } else {
                        lemma_remove_keeps(q0, idx, i);
                    }
                }
            }
        }
        let r = s.switch_to(tf, now_us);
        proof {
            let r1v = r1;
            assert(schedule_out_post(q0, mid, new_state, tf0, r1v) && switch_to_post(mid,
                self.sched().q(), tf0, *tf, now_us, r));
        }
        r
    }

    /// The timer-tick handler's scheduling step: preempts the running
    /// process back to `Ready` and dispatches the next one. Rearming the
    /// tick timer is the caller's hardware work.
    pub fn ticc(&mut self, tf: &mut TrapFrame, now_us: u64, a: &mut Allocator) -> (r: Option<Id>)
        requires
            old(self).wf(),
            old(a).wf(),
            old(tf).wf(),
            forall|i: int|
                0 <= i < old(self).sched().q().len() && (#[trigger] old(self).sched().q()[i]).state is Running
                    ==> old(self).sched().q()[i].context.tpidr == old(tf).tpidr,
        ensures
            final(self).wf(),
            final(a).wf(),
            *final(a) == *old(a),
            final(tf).wf(),
            exists|mid: Seq<Process>, r1: bool|
                schedule_out_post(old(self).sched().q(), mid, State::Ready, *old(tf), r1)
                    && switch_to_post(mid, final(self).sched().q(), *old(tf), *final(tf), now_us,
                    r),
    {
        self.switch(State::Ready, tf, now_us, a)
    }

    /// Dispatches the first ready process into `tf`. For details, see
    /// `Scheduler::switch_to`.
    pub fn switch_to(&mut self, tf: &mut TrapFrame, now_us: u64) -> (r: Option<Id>)
        requires
            old(self).wf(),
            old(tf).wf(),
            forall|i: int|
                0 <= i < old(self).sched().q().len() ==> !((#[trigger] old(self).sched().q()[i]).state is Running),
        ensures
            final(self).wf(),
            final(tf).wf(),
            switch_to_post(old(self).sched().q(), final(self).sched().q(), *old(tf), *final(tf),
                now_us, r),
    {
        let s = self.inner.as_mut().unwrap();
        s.switch_to(tf, now_us)
    }

    /// Kills the currently running process and returns its ID. For
    /// details, see `Scheduler::kill`.
    pub fn kill(&mut self, tf: &mut TrapFrame, now_us: u64, a: &mut Allocator) -> (r: Option<Id>)
        requires
            old(self).wf(),
            old(a).wf(),
            old(tf).wf(),
            forall|i: int|
                0 <= i < old(self).sched().q().len() && (#[trigger] old(self).sched().q()[i]).state is Running
                    ==> old(self).sched().q()[i].context.tpidr == old(tf).tpidr,
            victim_owned(old(self).sched().q(), old(tf).tpidr, *old(a), State::Dead),
        ensures
            final(self).wf(),
            final(a).wf(),
            final(tf).wf(),
            dead_reclaim_post(old(self).sched().q(), old(tf).tpidr, *old(a), *final(a),
                State::Dead),
            ({
                let idx = find_running_from(old(self).sched().q(), old(tf).tpidr, 0);
                if idx == -1 {
                    &&& r is None
                    &&& final(self).sched().q() == old(self).sched().q()
                } else {
                    &&& r == Some(old(tf).tpidr)
                    &&& final(self).sched().q().len() == old(self).sched().q().len() - 1
                    &&& forall|j: int|
                        0 <= j < final(self).sched().q().len() ==> (#[trigger] final(self).sched().q()[j]).context.tpidr != old(tf).tpidr
                }
            }),
    {
        let s = self.inner.as_mut().unwrap();
        s.kill(tf, now_us, a)
    }
}

/// A queue in steady state: the front process runs, everything behind it
/// is ready, and PIDs are distinct.
pub open spec fn rr_state(q: Seq<Process>) -> bool {
    &&& q.len() >= 1
    &&& q[0].state is Running
    &&& forall|i: int| 1 <= i < q.len() ==> (#[trigger] q[i]).state is Ready
    &&& forall|i: int, j: int|
        0 <= i < q.len() && 0 <= j < q.len() && i != j ==> (#[trigger] q[i]).context.tpidr != (
        #[trigger] q[j]).context.tpidr
}

/// One timer tick taken while the queue is in steady state rotates it by
/// one place: the front process requeues at the back as ready, the process
/// behind it runs next, and the PID dispatched is the one that had waited
/// longest. (With a single process it is dispatched again.)
pub proof fn lemma_round_robin_tick(
    q0: Seq<Process>,
    mid: Seq<Process>,
    q1: Seq<Process>,
    tf0: TrapFrame,
    tf1: TrapFrame,
    now: u64,
    r1: bool,
    r: Option<Id>,
)
    requires
        rr_state(q0),
        tf0.tpidr == q0[0].context.tpidr,
        schedule_out_post(q0, mid, State::Ready, tf0, r1),
        switch_to_post(mid, q1, tf0, tf1, now, r),
    ensures
        r == Some(q0[1int % q0.len() as int].context.tpidr),
        rr_state(q1),
        q1.len() == q0.len(),
        forall|i: int|
            0 <= i < q1.len() ==> (#[trigger] q1[i]).context.tpidr == q0[(i + 1)
                % q0.len() as int].context.tpidr,
{
    let n = q0.len() as int;
    assert(find_running_from(q0, tf0.tpidr, 0) == 0);
    assert(r1);
    // the preempted process sits at the back of `mid`, ready again
    assert(mid.len() == n);
    assert(mid.subrange(0, n - 1) == q0.remove(0));
    assert forall|i: int| 0 <= i < n - 1 implies (#[trigger] mid[i]).context.tpidr == q0[i
        + 1].context.tpidr && mid[i].state is Ready by {
        assert(mid[i] == mid.subrange(0, n - 1)[i]);
        lemma_remove_keeps(q0, 0, i);
    }
    assert(mid.last().context.tpidr == tf0.tpidr);
    assert(mid.last().state is Ready);
    assert forall|i: int| 0 <= i < n implies ready_at(#[trigger] mid[i], now) by {
        if i < n - 1 {
        } else {
            assert(mid[i] == mid.last());
        }
    }
    assert(first_ready_from(mid, now, 0) == 0);
    // so the dispatch takes the new front, which rotated up from q0[1]
    assert(q1[0].context.tpidr == mid[0].context.tpidr);
    if n == 1 {
        assert(1int % n == 0);
        assert(mid[0] == mid.last());
    } else {
        vstd::arithmetic::div_mod::lemma_small_mod(1nat, n as nat);
    }
    assert(mid[0].context.tpidr == q0[1int % n].context.tpidr);
    assert forall|i: int|
        0 <= i < q1.len() implies (#[trigger] q1[i]).context.tpidr == q0[(i + 1)
        % n].context.tpidr by {
        if i == 0 {
            assert(q0[1int % n] == q0[(0int + 1) % n]);
        } else {
            assert(q1[i] == q1.subrange(1, q1.len() as int)[i - 1]);
            assert(q1[i] == mid.remove(0)[i - 1]);
            lemma_remove_keeps(mid, 0, i - 1);
            assert(q1[i].context.tpidr == mid[i].context.tpidr);
            if i < n - 1 {
                vstd::arithmetic::div_mod::lemma_small_mod((i + 1) as nat, n as nat);
                assert((i + 1) % n == i + 1);
            } else {
                vstd::arithmetic::div_mod::lemma_mod_self_0(n);
                assert((i + 1) % n == 0);
                assert(mid[i].context.tpidr == q0[0].context.tpidr);
            }
        }
    }
    assert forall|i: int| 1 <= i < q1.len() implies (#[trigger] q1[i]).state is Ready by {
        assert(q1[i] == q1.subrange(1, q1.len() as int)[i - 1]);
        assert(q1[i] == mid.remove(0)[i - 1]);
        lemma_remove_keeps(mid, 0, i - 1);
    }
    assert forall|i: int, j: int|
        0 <= i < q1.len() && 0 <= j < q1.len() && i != j implies (
    #[trigger] q1[i]).context.tpidr != (#[trigger] q1[j]).context.tpidr by {
        vstd::arithmetic::div_mod::lemma_mod_self_0(n);
        if i + 1 < n {
            vstd::arithmetic::div_mod::lemma_small_mod((i + 1) as nat, n as nat);
        }
        if j + 1 < n {
            vstd::arithmetic::div_mod::lemma_small_mod((j + 1) as nat, n as nat);
        }
        assert((i + 1) % n != (j + 1) % n);
    }
}

/// A process whose wait has not fired is never the one dispatched: over
/// any `switch_to`, the returned PID differs from that of every process
/// that was not ready, no matter how long it has been waiting.
pub proof fn lemma_unready_never_selected(
    q0: Seq<Process>,
    q1: Seq<Process>,
    tf0: TrapFrame,
    tf1: TrapFrame,
    now: u64,
    r: Option<Id>,
    i: int,
)
    requires
        switch_to_post(q0, q1, tf0, tf1, now, r),
        0 <= i < q0.len(),
        !ready_at(q0[i], now),
        forall|a: int, b: int|
            0 <= a < q0.len() && 0 <= b < q0.len() && a != b ==> (#[trigger] q0[a]).context.tpidr
                != (#[trigger] q0[b]).context.tpidr,
    ensures
        r is Some ==> r->Some_0 != q0[i].context.tpidr,
{
    let idx = first_ready_from(q0, now, 0);
    if idx != -1 {
        lemma_first_ready_props(q0, now, 0);
        assert(idx != i);
    }
}

/// The PID counter after `n` processes have been added to a fresh
/// scheduler, each add succeeding.
pub open spec fn last_id_after(n: nat) -> Option<Id>
    decreases n,
{
    if n == 0 {
        Option::None
    } else {
        Scheduler::next_pid(last_id_after((n - 1) as nat))
    }
}

/// PID exhaustion: counting up from zero, the `n`-th add assigns PID
/// `n - 1`; after `2^64` adds every PID is spent, and the next `add`
/// returns `None`.
pub proof fn lemma_pid_exhaustion(n: nat)
    requires
        1 <= n <= 0x1_0000_0000_0000_0000,
    ensures
        last_id_after(n) == Some((n - 1) as u64),
        n == 0x1_0000_0000_0000_0000 ==> Scheduler::next_pid(last_id_after(n)) is None,
    decreases n,
{
    assert(last_id_after(0) is None);
    if n > 1 {
        lemma_pid_exhaustion((n - 1) as nat);
        assert(n - 2 <= 0xffff_ffff_ffff_fffe);
        assert((n - 2) as u64 != u64::MAX);
        assert(last_id_after(n) == Scheduler::next_pid(Some((n - 2) as u64)));
        assert(((n - 2) as u64 + 1) as u64 == (n - 1) as u64);
    }
}

/// One tick of the preemption loop, with its intermediate pieces named:
/// the frame of the interrupted (front) process is saved out with state
/// `Ready`, and the next ready process is dispatched as `pid`.
pub open spec fn tick_rel_with(
    q0: Seq<Process>,
    q1: Seq<Process>,
    now: u64,
    pid: Id,
    tf0: TrapFrame,
    tf1: TrapFrame,
    mid: Seq<Process>,
    r1: bool,
) -> bool {
    &&& tf0.tpidr == q0[0].context.tpidr
    &&& schedule_out_post(q0, mid, State::Ready, tf0, r1)
    &&& switch_to_post(mid, q1, tf0, tf1, now, Some(pid))
}

/// One tick of the preemption loop at time `now` dispatched `pid` and
/// turned the queue `q0` into `q1`.
pub open spec fn tick_rel(q0: Seq<Process>, q1: Seq<Process>, now: u64, pid: Id) -> bool {
    exists|tf0: TrapFrame, tf1: TrapFrame, mid: Seq<Process>, r1: bool| #[trigger] tick_rel_with(
        q0, q1, now, pid, tf0, tf1, mid, r1)
}

/// `((x % m) + y) % m == (x + y) % m`.
proof fn lemma_mod_add_left(x: int, y: int, m: int)
    requires
        m >= 1,
    ensures
        ((x % m) + y) % m == (x + y) % m,
{
    vstd::arithmetic::div_mod::lemma_fundamental_div_mod(x, m);
    vstd::arithmetic::div_mod::lemma_mod_multiples_vanish(x / m, (x % m) + y, m);
    vstd::arithmetic::mul::lemma_mul_is_commutative(x / m, m);
}

/// After `t` ticks of a steady-state queue the PIDs have rotated by `t`
/// places, and the PID dispatched at tick `u` was the one `u + 1` places
/// behind the front of the original queue.
proof fn lemma_rr_trace_inv(qs: Seq<Seq<Process>>, pids: Seq<Id>, nows: Seq<u64>, t: int)
    requires
        qs.len() == pids.len() + 1,
        nows.len() == pids.len(),
        rr_state(qs[0]),
        forall|u: int|
            0 <= u < pids.len() ==> #[trigger] tick_rel(qs[u], qs[u + 1], nows[u], pids[u]),
        0 <= t <= pids.len(),
    ensures
        rr_state(qs[t]),
        qs[t].len() == qs[0].len(),
        forall|i: int|
            0 <= i < qs[0].len() ==> (#[trigger] qs[t][i]).context.tpidr
                == qs[0][(i + t) % qs[0].len() as int].context.tpidr,
        forall|u: int|
            0 <= u < t ==> pids[u] == qs[0][(u + 1) % qs[0].len() as int].context.tpidr,
    decreases t,
{
    let n = qs[0].len() as int;
    if t == 0 {
        assert forall|i: int| 0 <= i < n implies (#[trigger] qs[0][i]).context.tpidr == qs[0][(i
            + 0) % n].context.tpidr by {
            vstd::arithmetic::div_mod::lemma_small_mod(i as nat, n as nat);
        }
    } else {
        lemma_rr_trace_inv(qs, pids, nows, t - 1);
        assert(tick_rel(qs[t - 1], qs[t], nows[t - 1], pids[t - 1]));
        let (tf0, tf1, mid, r1) = choose|tf0: TrapFrame, tf1: TrapFrame, mid: Seq<Process>,
            r1: bool| #[trigger] tick_rel_with(qs[t - 1], qs[t], nows[t - 1], pids[t - 1], tf0,
            tf1, mid, r1);
        lemma_round_robin_tick(qs[t - 1], mid, qs[t], tf0, tf1, nows[t - 1], r1, Some(
            pids[t - 1]));
        assert forall|i: int| 0 <= i < n implies (#[trigger] qs[t][i]).context.tpidr == qs[0][(i
            + t) % n].context.tpidr by {
            assert(qs[t][i].context.tpidr == qs[t - 1][(i + 1) % n].context.tpidr);
            vstd::arithmetic::div_mod::lemma_mod_division_less_than_divisor(i + 1, n);
            assert(qs[t - 1][(i + 1) % n].context.tpidr == qs[0][((i + 1) % n + (t - 1))
                % n].context.tpidr);
            lemma_mod_add_left(i + 1, t - 1, n);
        }
        assert forall|u: int| 0 <= u < t implies pids[u] == qs[0][(u + 1)
            % n].context.tpidr by {
            if u == t - 1 {
                assert(pids[u] == qs[t - 1][1int % n].context.tpidr);
                vstd::arithmetic::div_mod::lemma_mod_division_less_than_divisor(1int, n);
                assert(qs[t - 1][1int % n].context.tpidr == qs[0][(1int % n + (t - 1))
                    % n].context.tpidr);
                lemma_mod_add_left(1int, t - 1, n);
            }
        }
    }
}

/// Round-robin fairness: starting from a steady-state queue of `n`
/// processes, a run of at least `n` ticks dispatches every process at
/// least once within its first `n` ticks.
pub proof fn lemma_round_robin_fair(qs: Seq<Seq<Process>>, pids: Seq<Id>, nows: Seq<u64>, i: int)
    requires
        qs.len() == pids.len() + 1,
        nows.len() == pids.len(),
        rr_state(qs[0]),
        forall|u: int|
            0 <= u < pids.len() ==> #[trigger] tick_rel(qs[u], qs[u + 1], nows[u], pids[u]),
        pids.len() >= qs[0].len(),
        0 <= i < qs[0].len(),
    ensures
        exists|t: int| 0 <= t < qs[0].len() && pids[t] == qs[0][i].context.tpidr,
{
    let n = qs[0].len() as int;
    lemma_rr_trace_inv(qs, pids, nows, n);
    let t = if i == 0 {
        n - 1
    } else {
        i - 1
    };
    if i == 0 {
        vstd::arithmetic::div_mod::lemma_mod_self_0(n);
    } else {
        vstd::arithmetic::div_mod::lemma_small_mod(i as nat, n as nat);
    }
    assert(pids[t] == qs[0][(t + 1) % n].context.tpidr);
    assert(pids[t] == qs[0][i].context.tpidr);
}

/// A sleeping process is dispatched no earlier than its deadline, and the
/// elapsed time delivered to it in `x0` is measured from when the wait
/// began: a second clock reading after a sleep of `d` microseconds is at
/// least `d` past the first.
pub proof fn lemma_sleep_wakes_on_time(
    q0: Seq<Process>,
    q1: Seq<Process>,
    tf0: TrapFrame,
    tf1: TrapFrame,
    now: u64,
    r: Option<Id>,
    i: int,
)
    requires
        switch_to_post(q0, q1, tf0, tf1, now, r),
        0 <= i < q0.len(),
        forall|a: int, b: int|
            0 <= a < q0.len() && 0 <= b < q0.len() && a != b ==> (#[trigger] q0[a]).context.tpidr
                != (#[trigger] q0[b]).context.tpidr,
        q0[i].context.wf(),
        r == Some(q0[i].context.tpidr),
    ensures
        q0[i].state matches State::Waiting { kind, start_us, end_us } ==> {
            &&& now >= end_us
            &&& tf1.x_registers@[0] == ((now - start_us) as u64) / 1000
            &&& tf1.x_registers@[7] == 1
        },
{
    let idx = first_ready_from(q0, now, 0);
    lemma_first_ready_props(q0, now, 0);
    assert(idx != -1);
    assert(idx == i);
}

} // verus!
