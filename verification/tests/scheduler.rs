use kern::allocator::Allocator;
use kern::process::{Process, State, WaitKind, TrapFrame};
use kern::scheduler::{Scheduler, GlobalScheduler};

fn fresh_process(a: &mut Allocator) -> Process {
    Process::new(a).expect("process allocation failed")
}

fn boot(n: usize) -> (GlobalScheduler, Allocator) {
    let mut a = Allocator::new(0, 256 * 65536);
    let mut g = GlobalScheduler::uninitialized();
    g.initialize();
    for _ in 0..n {
        let p = fresh_process(&mut a);
        g.add(p).expect("pid exhausted");
    }
    (g, a)
}

#[test]
fn add_assigns_sequential_pids() {
    let (g, mut a) = boot(3);
    let mut g = g;
    assert_eq!(g.inner.as_ref().unwrap().last_id, Some(2));
    let p = fresh_process(&mut a);
    assert_eq!(g.add(p), Some(3));
}

#[test]
fn pid_counter_saturates() {
    // after u64::MAX + 1 successful adds the counter is spent and the next
    // add is refused
    let mut a = Allocator::new(0, 256 * 65536);
    let mut s = Scheduler { processes: Vec::new(), last_id: Some(u64::MAX) };
    let p = fresh_process(&mut a);
    assert_eq!(s.add(p), None);
}

#[test]
fn round_robin_runs_every_process_within_n_ticks() {
    let n = 4;
    let (mut g, mut a) = boot(n);
    let mut tf = TrapFrame::zeroed();
    // dispatch the first process
    let first = g.switch_to(&mut tf, 0).expect("no process ready");
    let mut seen = vec![first];
    // each tick preempts the runner and dispatches the next
    for t in 0..n - 1 {
        let pid = g.ticc(&mut tf, (t as u64 + 1) * 10_000, &mut a).expect("no process ready");
        assert!(!seen.contains(&pid), "a process ran twice before all ran once");
        seen.push(pid);
    }
    assert_eq!(seen.len(), n);
}

#[test]
fn waiting_process_with_unreachable_deadline_is_never_selected() {
    let (mut g, mut a) = boot(2);
    let mut p = fresh_process(&mut a);
    p.state = State::Waiting { kind: WaitKind::SleepUntil, start_us: 0, end_us: u64::MAX };
    let blocked = g.add(p).expect("pid exhausted");
    let mut tf = TrapFrame::zeroed();
    let first = g.switch_to(&mut tf, 0).expect("no process ready");
    assert_ne!(first, blocked);
    for t in 0..1000u64 {
        let pid = g.ticc(&mut tf, t * 10_000, &mut a).expect("no process ready");
        assert_ne!(pid, blocked);
    }
}

#[test]
fn sleeping_process_wakes_after_deadline() {
    let (mut g, mut a) = boot(1);
    let mut p = fresh_process(&mut a);
    p.state = State::Waiting { kind: WaitKind::SleepUntil, start_us: 0, end_us: 50_000 };
    let sleeper = g.add(p).expect("pid exhausted");
    let mut tf = TrapFrame::zeroed();
    let first = g.switch_to(&mut tf, 0).expect("no process ready");
    assert_ne!(first, sleeper);
    // before the deadline only the other process runs
    let pid = g.ticc(&mut tf, 10_000, &mut a).expect("no process ready");
    assert_ne!(pid, sleeper);
    // at the deadline the sleeper is selected, with its results delivered
    let pid = g.ticc(&mut tf, 60_000, &mut a).expect("no process ready");
    assert_eq!(pid, sleeper);
    assert_eq!(tf.x_registers[0], 60); // elapsed milliseconds
    assert_eq!(tf.x_registers[7], 1); // success flag
}

#[test]
fn kill_removes_exactly_one_and_next_pid_differs() {
    let (mut g, mut a) = boot(3);
    let mut tf = TrapFrame::zeroed();
    let victim = g.switch_to(&mut tf, 0).expect("no process ready");
    let len_before = g.inner.as_ref().unwrap().processes.len();
    let killed = g.kill(&mut tf, 0, &mut a).expect("kill found no running process");
    assert_eq!(killed, victim);
    let len_after = g.inner.as_ref().unwrap().processes.len();
    assert_eq!(len_after, len_before - 1);
    // kill dispatched the next runnable process into the frame
    assert_ne!(tf.tpidr, killed);
}

#[test]
fn kill_without_running_process_returns_none() {
    let (mut g, mut a) = boot(2);
    let mut tf = TrapFrame::zeroed();
    tf.tpidr = 99;
    assert_eq!(g.kill(&mut tf, 0, &mut a), None);
}

#[test]
fn dead_process_returns_its_memory() {
    // a process holds one stack page and four pages of table storage; a
    // kill hands all of it back to the allocator
    let (mut g, mut a) = boot(2);
    let mut tf = TrapFrame::zeroed();
    g.switch_to(&mut tf, 0).expect("no process ready");
    let before = a.free_byte_count();
    g.kill(&mut tf, 0, &mut a).expect("kill found no running process");
    assert_eq!(a.free_byte_count(), before + 5 * 65536);
}

#[test]
fn exited_process_is_not_scheduled_again() {
    let (mut g, mut a) = boot(2);
    let mut tf = TrapFrame::zeroed();
    let first = g.switch_to(&mut tf, 0).expect("no process ready");
    let before = a.free_byte_count();
    // the process leaves for good, and its memory comes back
    let r = g.switch(State::Dead, &mut tf, 0, &mut a);
    assert_eq!(g.inner.as_ref().unwrap().processes.len(), 1);
    assert_eq!(a.free_byte_count(), before + 5 * 65536);
    if let Some(pid) = r {
        assert_ne!(pid, first);
    }
    for t in 0..100u64 {
        if let Some(pid) = g.ticc(&mut tf, t * 10_000, &mut a) {
            assert_ne!(pid, first);
        }
    }
}
