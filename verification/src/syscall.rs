//! The system-call surface: five calls dispatched by the 16-bit `SVC`
//! immediate. Arguments and results travel in the caller's saved registers
//! `x0..x7`; a nonzero `x7` signals success.

use vstd::prelude::*;
use crate::process::{TrapFrame, State, WaitKind, Id, tf_eq_except_x};
use crate::scheduler::{GlobalScheduler, schedule_out_post, switch_to_post, dead_reclaim_post,
    victim_owned};
use crate::allocator::Allocator;

verus! {

/// Call numbers of the system-call ABI.
pub const NR_SLEEP: u16 = 1;

pub const NR_TIME: u16 = 2;

pub const NR_EXIT: u16 = 3;

pub const NR_WRITE: u16 = 4;

pub const NR_GETPID: u16 = 5;

/// Largest sleep deadline a call can ask for, in microseconds: the 32-bit
/// millisecond argument times 1000.
pub const MAX_SLEEP_US: u64 = 4_294_967_295_000;

/// The running process (if any) is the one the frame describes.
pub open spec fn frame_owns_cpu(g: GlobalScheduler, tf: TrapFrame) -> bool {
    forall|i: int|
        0 <= i < g.sched().q().len() && (#[trigger] g.sched().q()[i]).state is Running
            ==> g.sched().q()[i].context.tpidr == tf.tpidr
}

/// The running process named by the frame (if any) is fully accounted to
/// the allocator, so an exiting call can hand its memory back.
pub open spec fn caller_owned(g: GlobalScheduler, tf: TrapFrame, a: Allocator) -> bool {
    victim_owned(g.sched().q(), tf.tpidr, a, State::Dead)
}

/// Sleep for `ms` milliseconds.
///
/// Parks the calling process in a waiting state that fires once the clock
/// reaches `now_us + ms * 1000`; when it fires, the true elapsed
/// milliseconds are delivered in `x0` and 1 in `x7`. Returns the PID
/// dispatched in the caller's place, or `None` when no process is ready
/// yet (the kernel then idles until an interrupt and retries).
pub fn sys_sleep(
    ms: u32,
    tf: &mut TrapFrame,
    sched: &mut GlobalScheduler,
    now_us: u64,
    a: &mut Allocator,
) -> (r: Option<Id>)
    requires
        old(sched).wf(),
        old(a).wf(),
        old(tf).wf(),
        now_us + MAX_SLEEP_US <= u64::MAX,
        frame_owns_cpu(*old(sched), *old(tf)),
    ensures
        final(sched).wf(),
        final(a).wf(),
        *final(a) == *old(a),
        final(tf).wf(),
        exists|mid: Seq<crate::process::Process>, r1: bool|
            (#[trigger] schedule_out_post(old(sched).sched().q(), mid, State::Waiting { kind:
                WaitKind::SleepUntil, start_us: now_us, end_us: (now_us + ms as u64
                * 1000) as u64 }, *old(tf), r1)) && switch_to_post(mid, final(sched).sched().q(),
                *old(tf), *final(tf), now_us, r),
{
    let end_us = now_us + (ms as u64) * 1000;
    sched.switch(State::Waiting { kind: WaitKind::SleepUntil, start_us: now_us, end_us }, tf,
        now_us, a)
}

/// Returns the current time: whole seconds in `x0`, the sub-second part in
/// nanoseconds in `x1`, and success in `x7`.
pub fn sys_time(tf: &mut TrapFrame, now_us: u64)
    requires
        old(tf).wf(),
    ensures
        final(tf).wf(),
        tf_eq_except_x(*final(tf), *old(tf)),
        final(tf).x_registers@ == old(tf).x_registers@.update(0, now_us / 1_000_000).update(1,
            ((now_us % 1_000_000) * 1000) as u64).update(7, 1u64),
{
    tf.set_x(0, now_us / 1_000_000);
    tf.set_x(1, (now_us % 1_000_000) * 1000);
    tf.set_x(7, 1);
}

/// Kills the current process: it leaves the queue for good, its pages and
/// page-table storage return to the allocator, and the next ready process
/// (if any) is dispatched.
pub fn sys_exit(tf: &mut TrapFrame, sched: &mut GlobalScheduler, now_us: u64, a: &mut Allocator) -> (r: Option<Id>)
    requires
        old(sched).wf(),
        old(a).wf(),
        old(tf).wf(),
        frame_owns_cpu(*old(sched), *old(tf)),
        caller_owned(*old(sched), *old(tf), *old(a)),
    ensures
        final(sched).wf(),
        final(a).wf(),
        final(tf).wf(),
        dead_reclaim_post(old(sched).sched().q(), old(tf).tpidr, *old(a), *final(a), State::Dead),
        exists|mid: Seq<crate::process::Process>, r1: bool|
            schedule_out_post(old(sched).sched().q(), mid, State::Dead, *old(tf), r1)
                && switch_to_post(mid, final(sched).sched().q(), *old(tf), *final(tf), now_us, r),
{
    sched.switch(State::Dead, tf, now_us, a)
}

/// Writes one byte to the system console. The byte to emit is returned for
/// the console driver; the call itself only reports success in `x7`.
pub fn sys_write(b: u8, tf: &mut TrapFrame) -> (r: u8)
    requires
        old(tf).wf(),
    ensures
        final(tf).wf(),
        r == b,
        tf_eq_except_x(*final(tf), *old(tf)),
        final(tf).x_registers@ == old(tf).x_registers@.update(7, 1u64),
{
    tf.set_x(7, 1);
    b
}

/// Returns the current process's ID, read from the caller's own saved
/// frame, in `x0`, with success in `x7`.
pub fn sys_getpid(tf: &mut TrapFrame)
    requires
        old(tf).wf(),
    ensures
        final(tf).wf(),
        tf_eq_except_x(*final(tf), *old(tf)),
        final(tf).x_registers@ == old(tf).x_registers@.update(0, old(tf).tpidr).update(7, 1u64),
{
    let pid = tf.tpidr;
    tf.set_x(0, pid);
    tf.set_x(7, 1);
}

/// What servicing one system call asks of the kernel's surroundings:
/// nothing more, one byte for the console, or a diagnostic about a call
/// number the kernel does not know.
pub enum SyscallOutcome {
    Done,
    Output(u8),
    Unknown(u16),
}

/// Dispatches a system call by number. Unknown numbers change nothing and
/// are reported back for a diagnostic.
/// What servicing call number `num` at time `now_us` does to the
/// scheduler, the frame, and the outside world, for every call of the ABI
/// and for unknown numbers.
pub open spec fn syscall_post(
    num: u16,
    sched0: GlobalScheduler,
    sched1: GlobalScheduler,
    tf0: TrapFrame,
    tf1: TrapFrame,
    a0: Allocator,
    a1: Allocator,
    now_us: u64,
    r: SyscallOutcome,
) -> bool {
    if num == NR_SLEEP {
        &&& r is Done
        &&& a1 == a0
        &&& exists|mid: Seq<crate::process::Process>, r1: bool, r2: Option<Id>|
            (#[trigger] schedule_out_post(sched0.sched().q(), mid, State::Waiting {
                kind: WaitKind::SleepUntil, start_us: now_us, end_us: (now_us + (
                tf0.x_registers@[0] as int % 0x1_0000_0000) * 1000) as u64 }, tf0, r1))
                && (#[trigger] switch_to_post(mid, sched1.sched().q(), tf0, tf1, now_us, r2))
    } else if num == NR_TIME {
        &&& r is Done
        &&& a1 == a0
        &&& sched1 == sched0
        &&& tf_eq_except_x(tf1, tf0)
        &&& tf1.x_registers@ == tf0.x_registers@.update(0, (now_us / 1_000_000) as u64).update(1,
            ((now_us % 1_000_000) * 1000) as u64).update(7, 1u64)
    } else if num == NR_EXIT {
        &&& r is Done
        &&& dead_reclaim_post(sched0.sched().q(), tf0.tpidr, a0, a1, State::Dead)
        &&& exists|mid: Seq<crate::process::Process>, r1: bool, r2: Option<Id>|
            (#[trigger] schedule_out_post(sched0.sched().q(), mid, State::Dead, tf0, r1)) && (
            #[trigger] switch_to_post(mid, sched1.sched().q(), tf0, tf1, now_us, r2))
    } else if num == NR_WRITE {
        &&& r == SyscallOutcome::Output(((tf0.x_registers@[0] as int) % 256) as u8)
        &&& a1 == a0
        &&& sched1 == sched0
        &&& tf_eq_except_x(tf1, tf0)
        &&& tf1.x_registers@ == tf0.x_registers@.update(7, 1u64)
    } else if num == NR_GETPID {
        &&& r is Done
        &&& a1 == a0
        &&& sched1 == sched0
        &&& tf_eq_except_x(tf1, tf0)
        &&& tf1.x_registers@ == tf0.x_registers@.update(0, tf0.tpidr).update(7, 1u64)
    } else {
        &&& r == SyscallOutcome::Unknown(num)
        &&& a1 == a0
        &&& sched1 == sched0
        &&& tf1 == tf0
    }
}

pub fn handle_syscall(
    num: u16,
    tf: &mut TrapFrame,
    sched: &mut GlobalScheduler,
    now_us: u64,
    a: &mut Allocator,
) -> (r: SyscallOutcome)
    requires
        old(sched).wf(),
        old(a).wf(),
        old(tf).wf(),
        now_us + MAX_SLEEP_US <= u64::MAX,
        frame_owns_cpu(*old(sched), *old(tf)),
        caller_owned(*old(sched), *old(tf), *old(a)),
    ensures
        final(sched).wf(),
        final(a).wf(),
        final(tf).wf(),
        syscall_post(num, *old(sched), *final(sched), *old(tf), *final(tf), *old(a), *final(a),
            now_us, r),
{
    if num == NR_EXIT {
        let _ = sys_exit(tf, sched, now_us, a);
        SyscallOutcome::Done
    } else if num == NR_GETPID {
        sys_getpid(tf);
        SyscallOutcome::Done
    } else if num == NR_SLEEP {
        let ms = (tf.get_x(0) % 0x1_0000_0000) as u32;
        let _ = sys_sleep(ms, tf, sched, now_us, a);
        SyscallOutcome::Done
    } else if num == NR_TIME {
        sys_time(tf, now_us);
        SyscallOutcome::Done
    } else if num == NR_WRITE {
        let b = (tf.get_x(0) % 256) as u8;
        let out = sys_write(b, tf);
        SyscallOutcome::Output(out)
    } else {
        SyscallOutcome::Unknown(num)
    }
}

} // verus!
