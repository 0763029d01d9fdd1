use kern::allocator::Allocator;
use kern::process::{Process, TrapFrame};
use kern::scheduler::GlobalScheduler;
use kern::syndrome::{Syndrome, Fault};
use kern::syscall::{handle_syscall, sys_time, sys_write, sys_getpid, SyscallOutcome};
use kern::traps::{handle_exception, Info, Kind, Source, TrapAction};

fn booted(n: usize) -> (GlobalScheduler, Allocator) {
    let mut a = Allocator::new(0, 256 * 65536);
    let mut g = GlobalScheduler::uninitialized();
    g.initialize();
    for _ in 0..n {
        let p = Process::new(&mut a).expect("process allocation failed");
        g.add(p).expect("pid exhausted");
    }
    (g, a)
}

#[test]
fn syndrome_decodes_exception_classes() {
    assert_eq!(Syndrome::from(0), Syndrome::Unknown);
    assert_eq!(Syndrome::from(0x0400_0000), Syndrome::WfiWfe);
    // SVC #3 from AArch64: class 0x15, immediate 3
    assert_eq!(Syndrome::from(0x5400_0003), Syndrome::Svc(3));
    // BRK #2: class 0x3c
    assert_eq!(Syndrome::from(0xf000_0002), Syndrome::Brk(2));
    // data abort from a lower level: class 0x24, translation fault level 2
    assert_eq!(
        Syndrome::from(0x9000_0006),
        Syndrome::DataAbort { kind: Fault::Translation, level: 2 }
    );
    assert_eq!(Syndrome::from(0x5800_0000), Syndrome::Hvc(0));
    assert_eq!(Syndrome::from(0x6000_0000), Syndrome::MsrMrsSystem);
    assert_eq!(Syndrome::from(0x8800_0000), Syndrome::PCAlignmentFault);
    assert_eq!(Syndrome::from(0x9800_0000), Syndrome::SpAlignmentFault);
    assert_eq!(Syndrome::from(0xbc00_0000), Syndrome::SError);
    assert_eq!(Syndrome::from(0xc000_0000), Syndrome::Breakpoint);
}

#[test]
fn fault_decodes_status_codes() {
    assert_eq!(Fault::from(0b0000_00), Fault::AddressSize);
    assert_eq!(Fault::from(0b0001_00), Fault::Translation);
    assert_eq!(Fault::from(0b0010_00), Fault::AccessFlag);
    assert_eq!(Fault::from(0b0011_00), Fault::Permission);
    assert_eq!(Fault::from(0b1000_00), Fault::Alignment);
    assert_eq!(Fault::from(0b1100_00), Fault::TlbConflict);
    assert_eq!(Fault::from(0b1100_01), Fault::Other(0b1100_01));
    assert_eq!(Fault::from(0b0101_00), Fault::Other(0b0101_00));
}

#[test]
fn time_syscall_returns_seconds_and_nanos() {
    let mut tf = TrapFrame::zeroed();
    // 2.5 seconds of uptime
    sys_time(&mut tf, 2_500_000);
    assert_eq!(tf.x_registers[0], 2);
    assert_eq!(tf.x_registers[1], 500_000_000);
    assert_eq!(tf.x_registers[7], 1);
}

#[test]
fn write_syscall_hands_byte_to_console() {
    let mut tf = TrapFrame::zeroed();
    let b = sys_write(b'x', &mut tf);
    assert_eq!(b, b'x');
    assert_eq!(tf.x_registers[7], 1);
}

#[test]
fn getpid_syscall_reads_own_frame() {
    let mut tf = TrapFrame::zeroed();
    tf.tpidr = 42;
    sys_getpid(&mut tf);
    assert_eq!(tf.x_registers[0], 42);
    assert_eq!(tf.x_registers[7], 1);
}

#[test]
fn unknown_syscall_is_reported() {
    let (mut g, mut a) = booted(1);
    let mut tf = TrapFrame::zeroed();
    match handle_syscall(77, &mut tf, &mut g, 0, &mut a) {
        SyscallOutcome::Unknown(n) => assert_eq!(n, 77),
        _ => panic!("expected an unknown-call report"),
    }
}

#[test]
fn sleep_syscall_parks_the_caller() {
    let (mut g, mut a) = booted(2);
    let mut tf = TrapFrame::zeroed();
    let first = g.switch_to(&mut tf, 0).expect("no process ready");
    tf.x_registers[0] = 100; // milliseconds
    let r = handle_syscall(1, &mut tf, &mut g, 0, &mut a);
    assert!(matches!(r, SyscallOutcome::Done));
    // the other process was dispatched in the caller's place
    assert_ne!(tf.tpidr, first);
    // after 100 ms the sleeper comes back with its results
    let woken = g.ticc(&mut tf, 100_000, &mut a).expect("no process ready");
    assert_eq!(woken, first);
    assert_eq!(tf.x_registers[0], 100);
    assert_eq!(tf.x_registers[7], 1);
}

#[test]
fn breakpoint_enters_shell_and_resumes_past_brk() {
    let (mut g, mut a) = booted(1);
    let mut tf = TrapFrame::zeroed();
    tf.elr = 0x8000;
    let info = Info { source: Source::LowerAArch64, kind: Kind::Synchronous };
    let r = handle_exception(info, 0xf000_0000, &mut tf, &mut g, 0, &mut a);
    assert!(matches!(r, TrapAction::EnterShell));
    assert_eq!(tf.elr, 0x8004);
}

#[test]
fn svc_routes_to_syscalls() {
    let (mut g, mut a) = booted(1);
    let mut tf = TrapFrame::zeroed();
    tf.x_registers[0] = b'!' as u64;
    let info = Info { source: Source::LowerAArch64, kind: Kind::Synchronous };
    // SVC #4 is write
    match handle_exception(info, 0x5400_0004, &mut tf, &mut g, 0, &mut a) {
        TrapAction::WriteByte(b) => assert_eq!(b, b'!'),
        _ => panic!("expected a console byte"),
    }
}

#[test]
fn unhandled_synchronous_exception_halts() {
    let (mut g, mut a) = booted(1);
    let mut tf = TrapFrame::zeroed();
    let info = Info { source: Source::LowerAArch64, kind: Kind::Synchronous };
    // a data abort is fatal
    let r = handle_exception(info, 0x9000_0006, &mut tf, &mut g, 0, &mut a);
    assert!(matches!(r, TrapAction::HaltUnhandled));
}

#[test]
fn irq_asks_for_a_poll() {
    let (mut g, mut a) = booted(1);
    let mut tf = TrapFrame::zeroed();
    let info = Info { source: Source::LowerAArch64, kind: Kind::Irq };
    let r = handle_exception(info, 0, &mut tf, &mut g, 0, &mut a);
    assert!(matches!(r, TrapAction::PollIrqs));
}
