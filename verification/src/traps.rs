//! The trap dispatcher: classifies an exception and routes it to the
//! breakpoint shell, the system-call surface, the IRQ poll, or a halt.

use vstd::prelude::*;
use crate::process::TrapFrame;
use crate::scheduler::GlobalScheduler;
use crate::allocator::Allocator;
use crate::syndrome::{Syndrome, syndrome_spec};
use crate::syscall::{handle_syscall, syscall_post, SyscallOutcome, frame_owns_cpu, caller_owned,
    MAX_SLEEP_US};

verus! {

/// What raised the exception.
#[derive(PartialEq, Eq, Structural, Copy, Clone, Debug)]
pub enum Kind {
    Synchronous,
    Irq,
    Fiq,
    SError,
}

/// Which execution state the exception came from.
#[derive(PartialEq, Eq, Structural, Copy, Clone, Debug)]
pub enum Source {
    CurrentSpEl0,
    CurrentSpElx,
    LowerAArch64,
    LowerAArch32,
}

/// The (source, kind) pair identifying the vector that fired.
#[derive(PartialEq, Eq, Structural, Copy, Clone, Debug)]
pub struct Info {
    pub source: Source,
    pub kind: Kind,
}

/// The work the dispatcher hands back to its surroundings: run the
/// interactive shell (a breakpoint was hit), emit one byte on the console,
/// print a diagnostic for an unknown call number, walk the pending
/// interrupt lines, print the syndrome and halt, or nothing further.
pub enum TrapAction {
    Continue,
    EnterShell,
    WriteByte(u8),
    UnknownSyscall(u16),
    HaltUnhandled,
    PollIrqs,
}

/// Handles an exception. A synchronous exception is decoded from `esr`: a
/// breakpoint asks for the kernel shell and resumes past the 4-byte `BRK`
/// instruction; a supervisor call is serviced; anything else is fatal. An
/// IRQ asks the caller to poll the pending interrupt lines. FIQ and SError
/// pass through.
pub fn handle_exception(
    info: Info,
    esr: u32,
    tf: &mut TrapFrame,
    sched: &mut GlobalScheduler,
    now_us: u64,
    a: &mut Allocator,
) -> (r: TrapAction)
    requires
        old(sched).wf(),
        old(a).wf(),
        old(tf).wf(),
        old(tf).elr + 4 <= u64::MAX,
        now_us + MAX_SLEEP_US <= u64::MAX,
        frame_owns_cpu(*old(sched), *old(tf)),
        caller_owned(*old(sched), *old(tf), *old(a)),
    ensures
        final(sched).wf(),
        final(a).wf(),
        final(tf).wf(),
        ({
            if info.kind is Synchronous {
                match syndrome_spec(esr as int) {
                    Syndrome::Brk(_) => {
                        &&& r is EnterShell
                        &&& *final(sched) == *old(sched)
                        &&& *final(a) == *old(a)
                        &&& final(tf).elr == old(tf).elr + 4
                        &&& final(tf).x_registers@ == old(tf).x_registers@
                        &&& final(tf).tpidr == old(tf).tpidr
                    },
                    Syndrome::Svc(n) => {
                        &&& exists|out: SyscallOutcome| #[trigger] syscall_post(n, *old(sched),
                            *final(sched), *old(tf), *final(tf), *old(a), *final(a), now_us, out)
                            && r == match out {
                            SyscallOutcome::Done => TrapAction::Continue,
                            SyscallOutcome::Output(b) => TrapAction::WriteByte(b),
                            SyscallOutcome::Unknown(m) => TrapAction::UnknownSyscall(m),
                        }
                    },
                    _ => r is HaltUnhandled && *final(sched) == *old(sched) && *final(tf) == *old(
                        tf,
                    ) && *final(a) == *old(a),
                }
            } else if info.kind is Irq {
                &&& r is PollIrqs
                &&& *final(sched) == *old(sched)
                &&& *final(tf) == *old(tf)
                &&& *final(a) == *old(a)
            } else {
                &&& r is Continue
                &&& *final(sched) == *old(sched)
                &&& *final(tf) == *old(tf)
                &&& *final(a) == *old(a)
            }
        }),
{
    match info.kind {
        Kind::Synchronous => {
            match Syndrome::from(esr) {
                Syndrome::Brk(_) => {
                    tf.elr = tf.elr + 4;
                    TrapAction::EnterShell
                },
                Syndrome::Svc(n) => {
                    match handle_syscall(n, tf, sched, now_us, a) {
                        SyscallOutcome::Done => TrapAction::Continue,
                        SyscallOutcome::Output(b) => TrapAction::WriteByte(b),
                        SyscallOutcome::Unknown(m) => TrapAction::UnknownSyscall(m),
                    }
                },
                _ => TrapAction::HaltUnhandled,
            }
        },
        Kind::Irq => TrapAction::PollIrqs,
        _ => TrapAction::Continue,
    }
}

} // verus!
