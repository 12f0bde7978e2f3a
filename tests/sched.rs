use redos::alarm::{AlarmClock, ThreadWithAlarmTime};
use redos::condvar::Condvar;
use redos::context::Context;
use redos::memory::Range;
use redos::mutex::{Mutex, NO_OWNER};
use redos::processor::Processor;
use redos::scheduler::FifoScheduler;
use redos::syscall::SyscallResult;
use redos::thread::ThreadState;

fn processor_with(n: usize) -> (Processor, Vec<isize>) {
    let mut p = Processor::new();
    let mut ts = Vec::new();
    for i in 0..n {
        let ctx = Context::new(0x1000 * (i + 1), 0x400, &[], false);
        ts.push(p.new_thread(0, Range { start: 0, end: 0x1000 }, ctx).unwrap());
    }
    (p, ts)
}

#[test]
fn fifo_rotates_and_removes() {
    let mut s = FifoScheduler::new();
    assert_eq!(s.get_next(), None);
    s.add_thread(1);
    s.add_thread(2);
    s.add_thread(3);
    assert_eq!(s.get_next(), Some(1));
    assert_eq!(s.get_next(), Some(2));
    s.remove_thread(3);
    s.remove_thread(3);
    assert_eq!(s.len(), 2);
    assert!(!s.contains(3));
    assert_eq!(s.get_next(), Some(1));
    assert_eq!(s.get_next(), Some(2));
}

#[test]
fn ready_queue_holds_each_thread_once() {
    let (mut p, ts) = processor_with(3);
    for t in &ts {
        p.add_thread(*t);
    }
    let first = p.prepare_next_thread();
    assert_eq!(first.sepc, 0x400);
    assert_eq!(p.current_thread, Some(ts[0]));
    let t = p.sleep_current_thread();
    assert_eq!(t, ts[0]);
    assert!(!p.scheduler.contains(ts[0]));
    assert_eq!(p.scheduler.len(), 2);
    assert_eq!(p.num_sleeping_threads, 1);
    p.park_current_thread(first);
    p.wake_thread(ts[0]);
    assert_eq!(p.scheduler.len(), 3);
    assert_eq!(p.num_sleeping_threads, 0);
    p.kill_current_thread();
    assert_eq!(p.thread_state(ts[0]), ThreadState::Dead);
    assert!(!p.scheduler.contains(ts[0]));
    assert_eq!(p.current_thread, None);
}

#[test]
fn notify_one_on_empty_queue_does_nothing() {
    let (mut p, ts) = processor_with(2);
    p.add_thread(ts[0]);
    let mut cv = Condvar::new();
    cv.notify_one(&mut p);
    assert_eq!(cv.len(), 0);
    assert_eq!(p.scheduler.len(), 1);
    assert_eq!(p.num_sleeping_threads, 0);
}

#[test]
fn notify_all_wakes_each_waiter_once() {
    let (mut p, ts) = processor_with(3);
    for t in &ts {
        p.add_thread(*t);
    }
    let mut cv = Condvar::new();
    for t in &ts[..2] {
        p.current_thread = Some(*t);
        cv.wait(&mut p);
    }
    assert_eq!(cv.len(), 2);
    assert_eq!(p.scheduler.len(), 1);
    assert_eq!(p.num_sleeping_threads, 2);
    cv.notify_all(&mut p);
    assert_eq!(cv.len(), 0);
    assert_eq!(p.scheduler.len(), 3);
    assert_eq!(p.num_sleeping_threads, 0);
    for t in &ts {
        assert_eq!(p.thread_state(*t), ThreadState::Runnable);
    }
    cv.notify_all(&mut p);
    assert_eq!(p.scheduler.len(), 3);
}

#[test]
fn notify_one_wakes_oldest() {
    let (mut p, ts) = processor_with(3);
    for t in &ts {
        p.add_thread(*t);
    }
    let mut cv = Condvar::new();
    for t in &ts[..2] {
        p.current_thread = Some(*t);
        cv.wait(&mut p);
    }
    cv.notify_one(&mut p);
    assert_eq!(p.thread_state(ts[0]), ThreadState::Runnable);
    assert_eq!(p.thread_state(ts[1]), ThreadState::Sleeping);
    assert_eq!(cv.len(), 1);
}

#[test]
fn mutex_lock_and_unlock_directly() {
    let (mut p, ts) = processor_with(2);
    for t in &ts {
        p.add_thread(*t);
    }
    let mut m = Mutex::new();
    p.current_thread = Some(ts[0]);
    assert_eq!(m.lock(&mut p), SyscallResult::Proceed(0));
    assert_eq!(m.owner_thread_id, ts[0]);
    p.current_thread = Some(ts[1]);
    assert_eq!(m.lock(&mut p), SyscallResult::Park(0));
    assert_eq!(m.queue.len(), 1);
    assert_eq!(m.unlock(&mut p), SyscallResult::Park(0));
    assert_eq!(m.owner_thread_id, ts[1]);
    assert_eq!(p.thread_state(ts[1]), ThreadState::Runnable);
    assert_eq!(m.unlock(&mut p), SyscallResult::Park(0));
    assert_eq!(m.owner_thread_id, NO_OWNER);
}

#[test]
fn alarm_wakes_living_sleepers_past_a_dead_entry() {
    let (mut p, ts) = processor_with(3);
    for t in &ts {
        p.add_thread(*t);
    }
    let mut clock = AlarmClock::new();
    // the first thread ends; a stale entry for it stays in the clock
    p.current_thread = Some(ts[0]);
    p.kill_current_thread();
    clock.alarm_threads.push(ThreadWithAlarmTime::new(ts[0], 1));
    p.current_thread = Some(ts[1]);
    clock.put_current_thread_to_alarm_threads(&mut p, 1);
    assert_eq!(p.thread_state(ts[1]), ThreadState::Sleeping);
    clock.alarm(&mut p);
    assert_eq!(clock.clock, 1);
    assert_eq!(clock.alarm_threads.len(), 0);
    assert_eq!(p.thread_state(ts[0]), ThreadState::Dead);
    assert_eq!(p.thread_state(ts[1]), ThreadState::Runnable);
    assert!(p.scheduler.contains(ts[1]));
    assert!(!p.scheduler.contains(ts[0]));
}
