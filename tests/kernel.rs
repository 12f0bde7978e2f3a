use std::collections::HashMap;

use redos::abi::{SYS_EXIT, STDOUT};
use redos::context::{Context, ECALL_WIDTH, REG_A0, REG_SP};
use redos::kernel::Kernel;
use redos::process::{AllocError, MemorySet, Process, Segment, FLAG_READABLE, FLAG_USER, STACK_SIZE};
use redos::memory::Range;
use redos::syscall::{
    complete_io, run_next, syscall_handler, tick, timer_interrupt, TrapOutcome, UserStore,
};
use redos::thread::ThreadState;
use redos::user::{
    create_thread, join, mutex_create, mutex_destroy, mutex_lock, mutex_unlock, sleep, sys_exit,
    sys_exit0, sys_read, sys_write, syscall,
};

/// A kernel with a kernel process holding the idle thread and a user
/// process holding `n` queued threads; returns the kernel, the threads and
/// the registers of the first one, which is executing.
fn boot(n: usize) -> (Kernel, Vec<isize>, Context) {
    let mut k = Kernel::new();
    let kp = k.add_process(Process::new_kernel());
    let up = k.add_process(Process::from_elf(Vec::new(), true));
    k.create_idle_thread(kp, 0x1000).unwrap();
    let mut ts = Vec::new();
    for i in 0..n {
        ts.push(k.create_kernel_thread(up, 0x2000 + i, &[i], 0x3000).unwrap());
    }
    let ctx = run_next(&mut k).unwrap();
    (k, ts, ctx)
}

fn run(k: &mut Kernel, ctx: Context) -> (Context, Option<UserStore>) {
    match syscall_handler(k, ctx) {
        TrapOutcome::Run(c, s) => (c, s),
        _ => panic!("the trap did not resume a thread"),
    }
}

fn current(k: &Kernel) -> isize {
    k.processor.current_thread.unwrap()
}

#[test]
fn boot_runs_first_thread() {
    let (k, ts, ctx) = boot(3);
    assert_eq!(ts, vec![2, 3, 4]);
    assert_eq!(current(&k), 2);
    assert_eq!(ctx.sepc, 0x2000);
    assert_eq!(ctx.x[REG_A0], 0);
    assert_eq!(ctx.x[1], 0x3000);
    assert_eq!(ctx.x[REG_SP], 0x100_0000 + STACK_SIZE);
}

#[test]
fn alarm_wakes_in_order() {
    let (mut k, ts, mut ctx) = boot(4);
    for secs in [5u64, 3, 3, 10] {
        let (c, _) = run(&mut k, sleep(secs).load(ctx));
        ctx = c;
    }
    // every user thread sleeps: the idle thread runs
    assert_eq!(current(&k), 1);
    assert_eq!(k.processor.scheduler.len(), 0);
    let asleep = |k: &Kernel, t: isize| k.processor.thread_state(t) == ThreadState::Sleeping;
    tick(&mut k);
    tick(&mut k);
    assert!(ts.iter().all(|t| asleep(&k, *t)));
    tick(&mut k);
    assert_eq!(k.alarm.clock, 3);
    assert!(asleep(&k, ts[0]));
    assert!(!asleep(&k, ts[1]));
    assert!(!asleep(&k, ts[2]));
    assert!(asleep(&k, ts[3]));
    assert_eq!(k.processor.scheduler.len(), 2);
    tick(&mut k);
    assert!(asleep(&k, ts[0]));
    tick(&mut k);
    assert!(!asleep(&k, ts[0]));
    assert!(asleep(&k, ts[3]));
    for _ in 5..9 {
        tick(&mut k);
    }
    assert!(asleep(&k, ts[3]));
    tick(&mut k);
    assert_eq!(k.alarm.clock, 10);
    assert!(!asleep(&k, ts[3]));
    assert_eq!(k.alarm.alarm_threads.len(), 0);
    assert_eq!(k.processor.num_sleeping_threads, 0);
    let _ = ctx;
}

#[test]
fn proceed_resumes_after_trap() {
    let (mut k, _, ctx) = boot(2);
    let cur = current(&k);
    let trap = mutex_destroy(7).load(ctx);
    let (c, store) = run(&mut k, trap);
    assert_eq!(current(&k), cur);
    assert_eq!(store, None);
    assert_eq!(c.sepc, trap.sepc + ECALL_WIDTH);
    assert_eq!(c.x[REG_A0], -1isize as usize);
    assert_eq!(c.sstatus, trap.sstatus);
}

#[test]
fn unknown_syscall_kills_only_caller() {
    let (mut k, ts, ctx) = boot(3);
    let victim = current(&k);
    let (_, _) = run(&mut k, syscall(12345, 1, 2, 3, 4).load(ctx));
    assert_eq!(k.processor.thread_state(victim), ThreadState::Dead);
    assert!(!k.processor.scheduler.contains(victim));
    assert_eq!(current(&k), ts[1]);
    assert!(k.processor.scheduler.contains(ts[1]));
    assert!(k.processor.scheduler.contains(ts[2]));
    assert_eq!(k.processor.scheduler.len(), 2);
}

#[test]
fn uncontended_lock_never_parks() {
    let (mut k, _, ctx) = boot(2);
    let cur = current(&k);
    let (ctx, store) = run(&mut k, mutex_create(0x8000).load(ctx));
    let mid = store.unwrap().value;
    assert_eq!(mid, 0);
    let (ctx, _) = run(&mut k, mutex_lock(mid).load(ctx));
    assert_eq!(current(&k), cur);
    assert_eq!(ctx.x[REG_A0], 0);
    assert_eq!(k.processor.num_sleeping_threads, 0);
    assert_eq!(k.processor.thread_state(cur), ThreadState::Runnable);
    let (_, _) = run(&mut k, mutex_unlock(mid).load(ctx));
    assert_eq!(k.processor.num_sleeping_threads, 0);
}

#[test]
fn contended_lock_parks_and_hands_over() {
    let (mut k, ts, ctx) = boot(2);
    let (ctx, store) = run(&mut k, mutex_create(0x8000).load(ctx));
    let mid = store.unwrap().value;
    let (ctx, _) = run(&mut k, mutex_lock(mid).load(ctx));
    // the holder is preempted; the second thread blocks on the lock
    let ctx = timer_interrupt(&mut k, ctx).unwrap();
    assert_eq!(current(&k), ts[1]);
    let (ctx, _) = run(&mut k, mutex_lock(mid).load(ctx));
    assert_eq!(current(&k), ts[0]);
    assert_eq!(k.processor.thread_state(ts[1]), ThreadState::Sleeping);
    // unlocking wakes the waiter, which now holds the lock, and yields
    let (ctx, _) = run(&mut k, mutex_unlock(mid).load(ctx));
    assert_eq!(k.processor.thread_state(ts[1]), ThreadState::Runnable);
    assert!(k.processor.scheduler.contains(ts[1]));
    assert_eq!(current(&k), ts[0]);
    let (ctx, _) = run(&mut k, mutex_lock(mid).load(ctx));
    assert_eq!(k.processor.thread_state(ts[0]), ThreadState::Sleeping);
    assert_eq!(current(&k), ts[1]);
    assert_eq!(ctx.x[REG_A0], 0);
}

#[test]
fn mutex_errors() {
    let (mut k, _, ctx) = boot(1);
    let (ctx, store) = run(&mut k, mutex_create(0).load(ctx));
    assert_eq!(store, None);
    assert_eq!(ctx.x[REG_A0], -1isize as usize);
    let (ctx, _) = run(&mut k, mutex_lock(3).load(ctx));
    assert_eq!(ctx.x[REG_A0], -1isize as usize);
    let (ctx, _) = run(&mut k, mutex_unlock(3).load(ctx));
    assert_eq!(ctx.x[REG_A0], -1isize as usize);
    let (ctx, s0) = run(&mut k, mutex_create(0x10).load(ctx));
    let (ctx, s1) = run(&mut k, mutex_create(0x18).load(ctx));
    assert_eq!(s0, Some(UserStore { addr: 0x10, value: 0 }));
    assert_eq!(s1, Some(UserStore { addr: 0x18, value: 1 }));
    let (ctx, _) = run(&mut k, mutex_destroy(0).load(ctx));
    assert_eq!(ctx.x[REG_A0], 0);
    let (ctx, _) = run(&mut k, mutex_destroy(0).load(ctx));
    assert_eq!(ctx.x[REG_A0], -1isize as usize);
    let (ctx, _) = run(&mut k, mutex_lock(1).load(ctx));
    assert_eq!(ctx.x[REG_A0], 0);
}

#[test]
fn counter_under_mutex_loses_no_update() {
    const M: usize = 100_000;
    let (mut k, ts, ctx) = boot(2);
    let (mut ctx, store) = run(&mut k, mutex_create(0x8000).load(ctx));
    let mid = store.unwrap().value;
    let mut counter: usize = 0;
    // per thread: step of the loop body, finished rounds, value read
    let mut st: HashMap<isize, (u8, usize, usize)> = HashMap::new();
    for t in &ts {
        st.insert(*t, (0, 0, 0));
    }
    let mut steps: u64 = 0;
    loop {
        let cur = current(&k);
        let s = st.get_mut(&cur).unwrap();
        let trap = match s.0 {
            0 if s.1 == M => Some(sys_exit0()),
            0 => {
                s.0 = 1;
                Some(mutex_lock(mid))
            },
            1 => {
                s.2 = counter;
                s.0 = 2;
                None
            },
            2 => {
                counter = s.2 + 1;
                s.0 = 3;
                None
            },
            _ => {
                s.0 = 0;
                s.1 += 1;
                Some(mutex_unlock(mid))
            },
        };
        steps += 1;
        if let Some(req) = trap {
            match syscall_handler(&mut k, req.load(ctx)) {
                TrapOutcome::Run(c, _) => ctx = c,
                TrapOutcome::Halt => break,
                TrapOutcome::Io(_, _) => panic!("no transfer was asked for"),
            }
        } else if steps % 7 == 0 {
            ctx = timer_interrupt(&mut k, ctx).unwrap();
        }
    }
    assert_eq!(counter, 2 * M);
}

#[test]
fn join_waits_for_end_and_fails_after() {
    let (mut k, ts, ctx) = boot(2);
    let (a, b) = (ts[0], ts[1]);
    assert_eq!(current(&k), a);
    let (ctx, _) = run(&mut k, join(b).load(ctx));
    assert_eq!(k.processor.thread_state(a), ThreadState::Sleeping);
    assert_eq!(current(&k), b);
    let (ctx, _) = run(&mut k, sys_exit(3).load(ctx));
    assert_eq!(k.processor.thread_state(b), ThreadState::Dead);
    assert_eq!(k.processor.thread_state(a), ThreadState::Runnable);
    assert_eq!(current(&k), a);
    let (ctx, _) = run(&mut k, join(b).load(ctx));
    assert_eq!(current(&k), a);
    assert_eq!(ctx.x[REG_A0], -1isize as usize);
    let (ctx, _) = run(&mut k, join(99).load(ctx));
    assert_eq!(ctx.x[REG_A0], -1isize as usize);
}

#[test]
fn last_exit_halts() {
    let (mut k, _, ctx) = boot(1);
    let out = syscall_handler(&mut k, sys_exit(0).load(ctx));
    assert!(matches!(out, TrapOutcome::Halt));
}

#[test]
fn create_thread_queues_new_thread() {
    let (mut k, ts, ctx) = boot(1);
    let (ctx, store) = run(&mut k, create_thread(0x40, 0x7000, 0x7100, 42).load(ctx));
    assert_eq!(ctx.x[REG_A0], 0);
    let t = store.unwrap().value as isize;
    assert_eq!(store.unwrap().addr, 0x40);
    assert_eq!(t, ts[0] + 1);
    assert!(k.processor.scheduler.contains(t));
    let (ctx, store) = run(&mut k, create_thread(0, 0x7000, 0x7100, 42).load(ctx));
    assert_eq!(store, None);
    assert_eq!(ctx.x[REG_A0], -1isize as usize);
    // the new thread starts at its entry with its argument and exit address
    let (_, _) = run(&mut k, sys_exit0().load(ctx));
    assert_eq!(current(&k), t);
    let next = k.processor.threads[(t - 1) as usize].inner.context;
    assert!(next.is_none());
}

#[test]
fn new_thread_context() {
    let (mut k, _, ctx) = boot(1);
    let (ctx, store) = run(&mut k, create_thread(0x40, 0x7000, 0x7100, 42).load(ctx));
    let t = store.unwrap().value as isize;
    let c = run_exit_and_get(&mut k, ctx);
    assert_eq!(current(&k), t);
    assert_eq!(c.sepc, 0x7000);
    assert_eq!(c.x[REG_A0], 42);
    assert_eq!(c.x[1], 0x7100);
}

fn run_exit_and_get(k: &mut Kernel, ctx: Context) -> Context {
    run(k, sys_exit0().load(ctx)).0
}

#[test]
fn io_goes_through_descriptors() {
    let (mut k, _, ctx) = boot(1);
    let trap = sys_write(1, 0x900, 5).load(ctx);
    match syscall_handler(&mut k, trap) {
        TrapOutcome::Io(req, c) => {
            assert!(req.write);
            assert_eq!(req.stream, STDOUT);
            assert_eq!(req.buffer, 0x900);
            assert_eq!(req.len, 5);
            assert_eq!(c.sepc, trap.sepc + ECALL_WIDTH);
            let done = complete_io(c, 5);
            assert_eq!(done.x[REG_A0], 5);
        },
        _ => panic!("expected a transfer"),
    }
    let (c, _) = run(&mut k, sys_read(9, 0x900, 5).load(ctx));
    assert_eq!(c.x[REG_A0], -1isize as usize);
}

#[test]
fn stack_ranges_avoid_mapped_segments() {
    let seg = Segment { range: Range { start: 0x100_0000, end: 0x108_0000 }, flags: FLAG_READABLE };
    let mut p = Process::from_elf(vec![seg], true);
    let r = p.alloc_page_range(STACK_SIZE, FLAG_READABLE).unwrap();
    assert_eq!(r, Range { start: 0x108_0000, end: 0x110_0000 });
    let last = p.inner.memory_set.segments[1];
    assert_eq!(last.flags, FLAG_READABLE | FLAG_USER);
    let r = p.alloc_page_range(5000, FLAG_READABLE).unwrap();
    assert_eq!(r, Range { start: 0x110_0000, end: 0x110_0000 + 5000 });
    assert_eq!(p.alloc_page_range(0, FLAG_READABLE), Err(AllocError::EmptyRange));
    assert_eq!(p.alloc_page_range(usize::MAX, FLAG_READABLE), Err(AllocError::AddressSpaceExhausted));
    let set = MemorySet::new(Vec::new());
    assert!(!set.overlap_with(Range { start: 0, end: 10 }));
}

#[test]
fn mutex_ids_count_up() {
    let mut p = Process::new_kernel();
    assert_eq!(p.create_mutex(), Some(0));
    assert_eq!(p.create_mutex(), Some(1));
    assert_eq!(p.inner.next_mutex_id, 2);
    p.inner.next_mutex_id = usize::MAX;
    assert_eq!(p.create_mutex(), None);
}

#[test]
fn user_requests() {
    let w = sys_write(1, 0x100, 5);
    assert_eq!(w.id, 64);
    assert_eq!(w.args, [1, 0x100, 5, 0]);
    assert_eq!(sys_read(0, 0x200, 3).id, 63);
    assert_eq!(sys_exit(7).args[0], 7);
    assert_eq!(sys_exit0().id, SYS_EXIT);
    assert_eq!(create_thread(0x10, 0x20, 0x30, 0x40).args, [0x10, 0x20, 0x30, 0x40]);
    assert_eq!(sleep(5).id, 3);
    assert_eq!(sleep(5).args[0], 5);
    let c = w.load(Context::new(0, 0, &[], true));
    assert_eq!(c.x[17], 64);
    assert_eq!(c.x[10], 1);
    assert_eq!(c.x[11], 0x100);
    match redos::user::sys_read_next(0, 0x200, 3, 2) {
        redos::user::ReadNext::Done(n) => assert_eq!(n, 2),
        _ => panic!("a read of two bytes is over"),
    }
    match redos::user::sys_read_next(0, 0x200, 3, 0) {
        redos::user::ReadNext::Again(q) => {
            assert_eq!(q.id, 63);
            assert_eq!(q.args, [0, 0x200, 3, 0]);
        },
        _ => panic!("an empty read is issued again"),
    }
}

#[test]
fn each_sleeper_waits_in_one_place() {
    let (mut k, ts, ctx) = boot(4);
    // first thread takes a mutex, the second blocks on it
    let (ctx, store) = run(&mut k, mutex_create(0x8000).load(ctx));
    let mid = store.unwrap().value;
    let (ctx, _) = run(&mut k, mutex_lock(mid).load(ctx));
    let ctx = timer_interrupt(&mut k, ctx).unwrap();
    assert_eq!(current(&k), ts[1]);
    let (ctx, _) = run(&mut k, mutex_lock(mid).load(ctx));
    // the third sleeps on the clock, the fourth joins the first
    assert_eq!(current(&k), ts[2]);
    let (ctx, _) = run(&mut k, sleep(2).load(ctx));
    assert_eq!(current(&k), ts[3]);
    let (_, _) = run(&mut k, join(ts[0]).load(ctx));
    for t in &ts[1..] {
        assert_eq!(k.processor.thread_state(*t), ThreadState::Sleeping);
        assert!(!k.processor.scheduler.contains(*t));
    }
    assert_eq!(k.processor.num_sleeping_threads, 3);
    assert_eq!(k.alarm.alarm_threads.len(), 1);
    assert_eq!(k.alarm.alarm_threads[0].thread, ts[2]);
    assert_eq!(k.processor.threads[(ts[0] - 1) as usize].join_handle.len(), 1);
    assert_eq!(current(&k), ts[0]);
}


#[test]
fn thread_new_registers_a_runnable_thread() {
    let mut k = Kernel::new();
    let p = k.add_process(Process::new_kernel());
    let t = redos::thread::Thread::new(&mut k, p, 0x4000, &[7, 8]).unwrap();
    assert_eq!(t, 1);
    assert_eq!(k.processor.thread_state(t), ThreadState::Runnable);
    assert_eq!(k.processor.scheduler.len(), 0);
    let c = k.processor.threads[0].inner.context.unwrap();
    assert_eq!(c.sepc, 0x4000);
    assert_eq!(c.x[REG_A0], 7);
    assert_eq!(c.x[REG_A0 + 1], 8);
    let t2 = redos::thread::Thread::new(&mut k, p, 0x4000, &[]).unwrap();
    assert_eq!(t2, 2);
}

#[test]
fn parked_caller_keeps_advanced_registers() {
    let (mut k, ts, ctx) = boot(2);
    let trap = sleep(1).load(ctx);
    let (_, _) = run(&mut k, trap);
    assert_eq!(current(&k), ts[1]);
    let saved = k.processor.threads[(ts[0] - 1) as usize].inner.context.unwrap();
    assert_eq!(saved.sepc, trap.sepc + ECALL_WIDTH);
    assert_eq!(saved.x[REG_A0], 0);
}
