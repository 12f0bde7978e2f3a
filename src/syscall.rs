//! The trap entry: decoding a system call from a trapped context and the
//! three ways of leaving the trap.
use vstd::prelude::*;
use crate::abi::{
    MutexID, ThreadID, SYS_CREATE_THREAD, SYS_EXIT, SYS_JOIN, SYS_MUTEX_CREATE, SYS_MUTEX_DESTROY,
    SYS_MUTEX_LOCK, SYS_MUTEX_UNLOCK, SYS_READ, SYS_SLEEP, SYS_WRITE,
};
use crate::context::{Context, ECALL_WIDTH, REG_A0, REG_A7};
use crate::alarm::{ThreadWithAlarmTime, alarm_ids, wake_second};
use crate::kernel::{
    Kernel, WaitSite, held_at, lemma_dequeue, lemma_enqueue, lemma_other_sites, lemma_processor_only,
    lemma_same_waiters, lemma_sites_kept, mutexes_kept,
};
use crate::process::{STACK_SIZE, space_full};
use crate::mutex::{Mutex, NO_OWNER, handed_over, has_asleep, is_first_asleep};
use crate::table::{
    mutex_entries, mutex_map_insert, mutex_map_remove, registered_threads, thread_map_contains,
    thread_map_remove,
};
use crate::processor::{Processor, contexts_kept, joins_kept, only_woken, woke_in_order};
use crate::scheduler::{lemma_removal_value, remove_value};
use crate::thread::{Thread, ThreadState};

verus! {

/// A word that the kernel stores in the memory of the thread that trapped,
/// at user address `addr`, before it continues.
#[derive(Clone, Copy, PartialEq, Eq, Structural, Debug)]
pub struct UserStore {
    pub addr: usize,
    pub value: usize,
}

/// How a system-call handler asks the trap to end.
#[derive(Clone, Copy, PartialEq, Eq, Structural, Debug)]
pub enum SyscallResult {
    /// Return the value to the same thread and let it continue.
    Proceed(isize),
    /// Record the value, save the thread's registers and run the next thread.
    Park(isize),
    /// Discard the trapped registers, end the thread and run the next thread.
    Kill,
}

/// The mutex `id` of process `p` in `k`.
pub open spec fn mutex_of(k: Kernel, p: int, id: MutexID) -> Mutex {
    mutex_entries(k.processes@[p].inner.mutex_queue)[id]
}

/// Process `p` of `k` has a mutex `id`.
pub open spec fn has_mutex(k: Kernel, p: int, id: MutexID) -> bool {
    mutex_entries(k.processes@[p].inner.mutex_queue).contains_key(id)
}

/// Every process of `k1` but `p` is the one of `k0`, and the table keeps its
/// length.
pub open spec fn other_processes_kept(k0: Kernel, k1: Kernel, p: int) -> bool {
    &&& k1.processes@.len() == k0.processes@.len()
    &&& forall|j: int| 0 <= j < k0.processes@.len() && j != p ==> #[trigger] k1.processes@[j] == k0.processes@[j]
}

/// Puts the executing thread to sleep for `sec` seconds of the alarm clock.
pub fn sys_sleep(kernel: &mut Kernel, sec: u64) -> (r: SyscallResult)
    requires
        old(kernel).at_trap(),
    ensures
        r == SyscallResult::Park(0),
        final(kernel).handled_from(*old(kernel)),
        final(kernel).processes == old(kernel).processes,
        exists|pos: int|
            0 <= pos <= old(kernel).alarm.alarm_threads@.len() && final(kernel).alarm.alarm_threads@
                == old(kernel).alarm.alarm_threads@.insert(
                pos,
                ThreadWithAlarmTime::spec_new(
                    old(kernel).processor.current_thread->Some_0,
                    wake_second(old(kernel).alarm.clock, sec),
                ),
            ),
        final(kernel).alarm.clock == old(kernel).alarm.clock,
        final(kernel).processor.state_of(old(kernel).processor.current_thread->Some_0)
            == ThreadState::Sleeping,
        !final(kernel).processor.is_ready(old(kernel).processor.current_thread->Some_0),
{
    let cur = kernel.processor.current_thread();
    let ghost k0 = *old(kernel);
    kernel.alarm.put_current_thread_to_alarm_threads(&mut kernel.processor, sec);
    kernel.waits = Ghost(kernel.waits@.insert(cur, WaitSite::Alarm));
    proof {
        kernel.lemma_owners_kept(k0);
        let e = ThreadWithAlarmTime::spec_new(cur, wake_second(k0.alarm.clock, sec));
        let pos = choose|pos: int|
            0 <= pos <= k0.alarm.alarm_threads@.len() && kernel.alarm.alarm_threads@
                == k0.alarm.alarm_threads@.insert(pos, e);
        assert(alarm_ids(k0.alarm.alarm_threads@.insert(pos, e)) =~= alarm_ids(
            k0.alarm.alarm_threads@,
        ).insert(pos, cur));
        assert(mutexes_kept(k0, *kernel));
        lemma_other_sites(k0, *kernel, WaitSite::Alarm);
        assert forall|u: ThreadID| #[trigger] k0.waits@.contains_key(u) implies kernel.processor.asleep(u) by {
            assert(k0.processor.asleep(u));
        }
        lemma_enqueue(k0, *kernel, cur, WaitSite::Alarm, pos);
    }
    SyscallResult::Park(0)
}

/// Ends the executing thread.
pub fn sys_exit(kernel: &mut Kernel, _code: usize) -> (r: SyscallResult)
    ensures
        r == SyscallResult::Kill,
        *final(kernel) == *old(kernel),
{
    SyscallResult::Kill
}

/// Creates a mutex in the executing thread's process; its identifier is the
/// word to store at `out` in the caller's memory. A null `out`, or no
/// identifier left, gives `-1` and changes nothing.
pub fn sys_mutex_create(kernel: &mut Kernel, out: usize) -> (r: (SyscallResult, Option<UserStore>))
    requires
        old(kernel).at_trap(),
    ensures
        final(kernel).handled_from(*old(kernel)),
        final(kernel).processor == old(kernel).processor,
        final(kernel).alarm == old(kernel).alarm,
        ({
            let p = old(kernel).current_process();
            let next = old(kernel).processes@[p].inner.next_mutex_id;
            if out != 0 && next < usize::MAX {
                &&& r.0 == SyscallResult::Proceed(0)
                &&& r.1 == Some(UserStore { addr: out, value: next })
                &&& !has_mutex(*old(kernel), p, next)
                &&& has_mutex(*final(kernel), p, next)
                &&& mutex_of(*final(kernel), p, next).owner_thread_id == NO_OWNER
                &&& mutex_of(*final(kernel), p, next).queue@.len() == 0
                &&& mutex_entries(final(kernel).processes@[p].inner.mutex_queue) == mutex_entries(
                    old(kernel).processes@[p].inner.mutex_queue,
                ).insert(next, mutex_of(*final(kernel), p, next))
                &&& other_processes_kept(*old(kernel), *final(kernel), p)
            } else {
                &&& r.0 == SyscallResult::Proceed(-1isize)
                &&& r.1 is None
                &&& final(kernel).processes@ == old(kernel).processes@
            }
        }),
{
    if out == 0 {
        return (SyscallResult::Proceed(-1), None);
    }
    let cur = kernel.processor.current_thread();
    let p = kernel.processor.thread_process(cur);
    assert(kernel.processes@[p as int].wf());
    match kernel.processes[p].create_mutex() {
        Some(id) => {
            proof {
                kernel.lemma_processes_wf(*old(kernel), p as int);
                kernel.lemma_owners_kept(*old(kernel));
                let k0 = *old(kernel);
                let site = WaitSite::Mutex(p, id);
                assert forall|j: int| 0 <= j < k0.processes@.len() && j != p implies mutex_entries(#[trigger] kernel.processes@[j].inner.mutex_queue)
                    == mutex_entries(k0.processes@[j].inner.mutex_queue) by {
                    assert(kernel.processes@[j] == k0.processes@[j]);
                }
                lemma_other_sites(k0, *kernel, site);
                assert(kernel.waiters(site) =~= k0.waiters(site));
                lemma_same_waiters(k0, *kernel);
            }
            (SyscallResult::Proceed(0), Some(UserStore { addr: out, value: id }))
        },
        None => {
            assert(kernel.processes@ =~= old(kernel).processes@);
            proof {
                lemma_same_waiters(*old(kernel), *kernel);
            }
            (SyscallResult::Proceed(-1), None)
        },
    }
}

/// Takes mutex `id` out of the table of process `p`.
fn take_mutex(kernel: &mut Kernel, p: usize, id: MutexID) -> (r: Option<Mutex>)
    requires
        old(kernel).wf(),
        p < old(kernel).processes@.len(),
    ensures
        final(kernel).processor == old(kernel).processor,
        final(kernel).alarm == old(kernel).alarm,
        final(kernel).waits == old(kernel).waits,
        final(kernel).processes@.len() == old(kernel).processes@.len(),
        forall|j: int| 0 <= j < old(kernel).processes@.len() && j != p ==> #[trigger] final(kernel).processes@[j] == old(kernel).processes@[j],
        final(kernel).processes@[p as int].inner.threads == old(kernel).processes@[p as int].inner.threads,
        final(kernel).processes@[p as int].inner.next_mutex_id == old(kernel).processes@[p as int].inner.next_mutex_id,
        mutex_entries(final(kernel).processes@[p as int].inner.mutex_queue) == mutex_entries(old(kernel).processes@[p as int].inner.mutex_queue).remove(id),
        has_mutex(*old(kernel), p as int, id) ==> r == Some(mutex_of(*old(kernel), p as int, id)),
        !has_mutex(*old(kernel), p as int, id) ==> r is None && final(kernel).wf(),
{
    let r = mutex_map_remove(&mut kernel.processes[p].inner.mutex_queue, id);
    proof {
        if !has_mutex(*old(kernel), p as int, id) {
            let m0 = mutex_entries(old(kernel).processes@[p as int].inner.mutex_queue);
            assert(m0.remove(id) =~= m0);
            assert(old(kernel).processes@[p as int].wf());
            kernel.lemma_processes_wf(*old(kernel), p as int);
            assert forall|j: int| 0 <= j < old(kernel).processes@.len() implies mutex_entries(#[trigger] kernel.processes@[j].inner.mutex_queue)
                == mutex_entries(old(kernel).processes@[j].inner.mutex_queue) by {
                if j != p {
                    assert(kernel.processes@[j] == old(kernel).processes@[j]);
                }
            }
            lemma_sites_kept(*old(kernel), *kernel);
        }
    }
    r
}

/// Puts mutex `id` back into the table of process `p`, from which
/// `take_mutex` took it.
fn put_mutex(kernel: &mut Kernel, p: usize, id: MutexID, m: Mutex, Ghost(before): Ghost<Kernel>)
    requires
        before.wf(),
        p < before.processes@.len(),
        has_mutex(before, p as int, id),
        old(kernel).processes@.len() == before.processes@.len(),
        forall|j: int| 0 <= j < before.processes@.len() && j != p ==> #[trigger] old(kernel).processes@[j] == before.processes@[j],
        old(kernel).processes@[p as int].inner.next_mutex_id == before.processes@[p as int].inner.next_mutex_id,
        mutex_entries(old(kernel).processes@[p as int].inner.mutex_queue) == mutex_entries(before.processes@[p as int].inner.mutex_queue).remove(id),
        old(kernel).processor.wf(),
        old(kernel).alarm.wf(),
        forall|i: int|
            0 <= i < old(kernel).processor.threads@.len() ==> (#[trigger] old(kernel).processor.threads@[i]).process
                < old(kernel).processes@.len(),
    ensures
        final(kernel).wf_tables(),
        final(kernel).waits == old(kernel).waits,
        final(kernel).processor == old(kernel).processor,
        final(kernel).alarm == old(kernel).alarm,
        final(kernel).processes@.len() == old(kernel).processes@.len(),
        final(kernel).processes@[p as int].inner.threads == old(kernel).processes@[p as int].inner.threads,
        forall|j: int| 0 <= j < old(kernel).processes@.len() && j != p ==> #[trigger] final(kernel).processes@[j] == old(kernel).processes@[j],
        mutex_entries(final(kernel).processes@[p as int].inner.mutex_queue) == mutex_entries(before.processes@[p as int].inner.mutex_queue).insert(id, m),
{
    mutex_map_insert(&mut kernel.processes[p].inner.mutex_queue, id, m);
    proof {
        let m0 = mutex_entries(before.processes@[p as int].inner.mutex_queue);
        assert(m0.remove(id).insert(id, m) =~= m0.insert(id, m));
        assert(before.processes@[p as int].wf());
        assert(m0.insert(id, m).dom() =~= m0.dom());
        assert(kernel.processes@[p as int].wf());
        kernel.lemma_processes_wf(before, p as int);
    }
}

/// After `take_mutex` and `put_mutex` of mutex `id` of process `p`, with `m`
/// put back, every other wait structure holds what it held, the ownership
/// tables are intact, and the structure of that mutex is `m`'s queue.
proof fn lemma_mutex_frame(k0: Kernel, k1: Kernel, p: usize, id: MutexID, m: Mutex)
    requires
        k0.wf(),
        p < k0.processes@.len(),
        has_mutex(k0, p as int, id),
        k1.processes@.len() == k0.processes@.len(),
        forall|j: int| 0 <= j < k0.processes@.len() && j != p ==> #[trigger] k1.processes@[j] == k0.processes@[j],
        mutex_entries(k1.processes@[p as int].inner.mutex_queue) == mutex_entries(k0.processes@[p as int].inner.mutex_queue).insert(id, m),
        k1.alarm == k0.alarm,
        joins_kept(k0.processor, k1.processor),
    ensures
        forall|s: WaitSite| s != WaitSite::Mutex(p, id) ==> #[trigger] k1.waiters(s) == k0.waiters(s),
        k1.waiters(WaitSite::Mutex(p, id)) == m.queue@,
{
    let site = WaitSite::Mutex(p, id);
    assert forall|j: int| 0 <= j < k0.processes@.len() && j != p implies mutex_entries(#[trigger] k1.processes@[j].inner.mutex_queue)
        == mutex_entries(k0.processes@[j].inner.mutex_queue) by {
        assert(k1.processes@[j] == k0.processes@[j]);
    }
    lemma_other_sites(k0, k1, site);
}

/// Locks mutex `id` of the executing thread's process: `-1` when there is no
/// such mutex, otherwise what `Mutex::lock` decides.
pub fn sys_mutex_lock(kernel: &mut Kernel, id: MutexID) -> (r: SyscallResult)
    requires
        old(kernel).at_trap(),
    ensures
        final(kernel).handled_from(*old(kernel)),
        final(kernel).alarm == old(kernel).alarm,
        ({
            let p = old(kernel).current_process();
            let cur = old(kernel).processor.current_thread->Some_0;
            &&& other_processes_kept(*old(kernel), *final(kernel), p)
            &&& if !has_mutex(*old(kernel), p, id) {
                &&& r == SyscallResult::Proceed(-1isize)
                &&& final(kernel).processor == old(kernel).processor
                &&& mutex_entries(final(kernel).processes@[p].inner.mutex_queue) == mutex_entries(
                    old(kernel).processes@[p].inner.mutex_queue,
                )
            } else if mutex_of(*old(kernel), p, id).owner_thread_id == NO_OWNER {
                &&& r == SyscallResult::Proceed(0isize)
                &&& has_mutex(*final(kernel), p, id)
                &&& mutex_of(*final(kernel), p, id).owner_thread_id == cur
                &&& mutex_of(*final(kernel), p, id).queue@ == mutex_of(*old(kernel), p, id).queue@
                &&& final(kernel).processor == old(kernel).processor
            } else {
                &&& r == SyscallResult::Park(0isize)
                &&& has_mutex(*final(kernel), p, id)
                &&& mutex_of(*final(kernel), p, id).owner_thread_id == mutex_of(*old(kernel), p, id).owner_thread_id
                &&& mutex_of(*final(kernel), p, id).queue@ == mutex_of(*old(kernel), p, id).queue@.push(cur)
                &&& final(kernel).processor.state_of(cur) == ThreadState::Sleeping
                &&& !final(kernel).processor.is_ready(cur)
            }
        }),
{
    let cur = kernel.processor.current_thread();
    let p = kernel.processor.thread_process(cur);
    let ghost k0 = *old(kernel);
    match take_mutex(kernel, p, id) {
        None => SyscallResult::Proceed(-1),
        Some(mut m) => {
            let r = m.lock(&mut kernel.processor);
            proof {
                if r == SyscallResult::Park(0isize) {
                    assert(!kernel.processor.scheduler@.contains(cur)) by {
                        crate::scheduler::lemma_removal(k0.processor.scheduler@, kernel.processor.scheduler@, cur);
                    }
                }
                assert forall|t: ThreadID| #[trigger] k0.processor.valid_tid(t) implies kernel.processor.thread(t).process == k0.processor.thread(t).process by {}
                kernel.lemma_owners_kept(k0);
            }
            let ghost m1 = m;
            put_mutex(kernel, p, id, m, Ghost(k0));
            let ghost k1 = *kernel;
            if r == SyscallResult::Park(0) {
                kernel.waits = Ghost(kernel.waits@.insert(cur, WaitSite::Mutex(p, id)));
            }
            proof {
                let site = WaitSite::Mutex(p, id);
                lemma_mutex_frame(k0, *kernel, p, id, m1);
                let q0 = mutex_of(k0, p as int, id).queue@;
                assert(k0.waiters(site) == q0);
                assert forall|u: ThreadID| #[trigger] k0.waits@.contains_key(u) implies kernel.processor.asleep(u) by {
                    assert(k0.processor.asleep(u));
                }
                if r == SyscallResult::Park(0isize) {
                    assert(q0.insert(q0.len() as int, cur) =~= q0.push(cur));
                    lemma_enqueue(k0, *kernel, cur, site, q0.len() as int);
                } else {
                    assert(kernel.waiters(site) == k0.waiters(site));
                    lemma_same_waiters(k0, *kernel);
                }
            }
            r
        },
    }
}

/// Unlocks mutex `id` of the executing thread's process: `-1` when there is
/// no such mutex, otherwise the lock passes as `Mutex::unlock` decides.
pub fn sys_mutex_unlock(kernel: &mut Kernel, id: MutexID) -> (r: SyscallResult)
    requires
        old(kernel).at_trap(),
    ensures
        final(kernel).handled_from(*old(kernel)),
        final(kernel).alarm == old(kernel).alarm,
        !has_mutex(*old(kernel), old(kernel).current_process(), id) ==> r == SyscallResult::Proceed(-1isize)
            && final(kernel).processor == old(kernel).processor,
        has_mutex(*old(kernel), old(kernel).current_process(), id) ==> {
            let p = old(kernel).current_process();
            let m0 = mutex_of(*old(kernel), p, id);
            let m1 = mutex_of(*final(kernel), p, id);
            &&& r == SyscallResult::Park(0isize)
            &&& has_mutex(*final(kernel), p, id)
            &&& m0.queue@.len() > 0 ==> handed_over(m0, m1, old(kernel).processor, final(kernel).processor, 0)
            &&& m0.queue@.len() == 0 ==> {
                &&& m1.queue@.len() == 0
                &&& m1.owner_thread_id == NO_OWNER
                &&& final(kernel).processor == old(kernel).processor
            }
        },
{
    let cur = kernel.processor.current_thread();
    let p = kernel.processor.thread_process(cur);
    let ghost k0 = *old(kernel);
    match take_mutex(kernel, p, id) {
        None => SyscallResult::Proceed(-1),
        Some(mut m) => {
            let r = m.unlock(&mut kernel.processor);
            proof {
                assert forall|t: ThreadID| #[trigger] k0.processor.valid_tid(t) implies kernel.processor.thread(t).process == k0.processor.thread(t).process by {}
                kernel.lemma_owners_kept(k0);
            }
            let ghost m1 = m;
            put_mutex(kernel, p, id, m, Ghost(k0));
            let ghost site = WaitSite::Mutex(p, id);
            let ghost q0 = mutex_of(k0, p as int, id).queue@;
            kernel.waits = Ghost(
                if q0.len() > 0 {
                    k0.waits@.remove_keys(q0.subrange(0, 1).to_set())
                } else {
                    k0.waits@
                },
            );
            proof {
                lemma_mutex_frame(k0, *kernel, p, id, m1);
                assert(k0.waiters(site) == q0);
                assert(held_at(q0, k0.waits@, site));
                if q0.len() > 0 {
                    assert(k0.waits@.contains_key(q0[0]));
                    assert(k0.processor.asleep(q0[0]));
                    assert(has_asleep(&k0.processor, q0));
                    let i = choose|i: int| is_first_asleep(&k0.processor, q0, i) && handed_over(
                        mutex_of(k0, p as int, id),
                        m1,
                        k0.processor,
                        kernel.processor,
                        i,
                    );
                    if i > 0 {
                        assert(!k0.processor.asleep(q0[0]));
                    }
                    assert(i == 0);
                    assert forall|u: ThreadID| #[trigger] kernel.waits@.contains_key(u) implies kernel.processor.asleep(u) by {
                        assert(k0.waits@.contains_key(u));
                        assert(k0.processor.asleep(u));
                        assert(u != q0[0]) by {
                            assert(q0.subrange(0, 1).to_set().contains(q0[0])) by {
                                assert(q0.subrange(0, 1)[0] == q0[0]);
                            }
                        }
                    }
                    lemma_dequeue(k0, *kernel, site, 1);
                } else {
                    assert(!has_asleep(&k0.processor, q0));
                    assert(kernel.waiters(site) =~= k0.waiters(site));
                    assert forall|u: ThreadID| #[trigger] k0.waits@.contains_key(u) implies kernel.processor.asleep(u) by {
                        assert(k0.processor.asleep(u));
                    }
                    lemma_same_waiters(k0, *kernel);
                }
            }
            r
        },
    }
}

/// Removes mutex `id` of the executing thread's process: `0` when it
/// existed, `-1` otherwise.
pub fn sys_mutex_destroy(kernel: &mut Kernel, id: MutexID) -> (r: SyscallResult)
    requires
        old(kernel).at_trap(),
    ensures
        final(kernel).handled_from(*old(kernel)),
        final(kernel).processor == old(kernel).processor,
        final(kernel).alarm == old(kernel).alarm,
        has_mutex(*old(kernel), old(kernel).current_process(), id) ==> r == SyscallResult::Proceed(0isize),
        !has_mutex(*old(kernel), old(kernel).current_process(), id) ==> r == SyscallResult::Proceed(-1isize),
        !has_mutex(*final(kernel), old(kernel).current_process(), id),
        mutex_entries(final(kernel).processes@[old(kernel).current_process()].inner.mutex_queue)
            == mutex_entries(old(kernel).processes@[old(kernel).current_process()].inner.mutex_queue).remove(id),
        other_processes_kept(*old(kernel), *final(kernel), old(kernel).current_process()),
{
    let cur = kernel.processor.current_thread();
    let p = kernel.processor.thread_process(cur);
    match take_mutex(kernel, p, id) {
        None => SyscallResult::Proceed(-1),
        Some(_) => {
            proof {
                let m0 = mutex_entries(old(kernel).processes@[p as int].inner.mutex_queue);
                assert(old(kernel).processes@[p as int].wf());
                assert forall|m: MutexID| #[trigger] mutex_entries(kernel.processes@[p as int].inner.mutex_queue).contains_key(m) implies m
                    < kernel.processes@[p as int].inner.next_mutex_id by {
                    assert(m0.contains_key(m));
                }
                kernel.lemma_processes_wf(*old(kernel), p as int);
                let k0 = *old(kernel);
                let site = WaitSite::Mutex(p, id);
                assert forall|j: int| 0 <= j < k0.processes@.len() && j != p implies mutex_entries(#[trigger] kernel.processes@[j].inner.mutex_queue)
                    == mutex_entries(k0.processes@[j].inner.mutex_queue) by {
                    assert(kernel.processes@[j] == k0.processes@[j]);
                }
                lemma_other_sites(k0, *kernel, site);
                assert(kernel.waiters(site).len() == 0);
                assert forall|s2: WaitSite| held_at(#[trigger] kernel.waiters(s2), kernel.waits@, s2) by {
                    assert(held_at(k0.waiters(s2), k0.waits@, s2));
                }
            }
            SyscallResult::Proceed(0)
        },
    }
}

/// Creates a thread in the executing thread's process that starts at
/// `entry_point` with `arg` as its argument and returns to `exit_fn`, and
/// queues it; its identifier is the word to store at `out`. A null `out`, or
/// a thread that cannot be created, gives `-1`.
pub fn sys_create_thread(
    kernel: &mut Kernel,
    out: usize,
    entry_point: usize,
    exit_fn: usize,
    arg: usize,
) -> (r: (SyscallResult, Option<UserStore>))
    requires
        old(kernel).at_trap(),
    ensures
        final(kernel).handled_from(*old(kernel)),
        final(kernel).alarm == old(kernel).alarm,
        out == 0 ==> r == (SyscallResult::Proceed(-1isize), None::<UserStore>) && *final(kernel) == *old(kernel),
        r.0 == SyscallResult::Proceed(0isize) || r.0 == SyscallResult::Proceed(-1isize),
        r.0 == SyscallResult::Proceed(0isize) <==> out != 0 && old(kernel).processor.threads@.len() + 1
            < isize::MAX && !space_full(
            old(kernel).processes@[old(kernel).current_process()].inner.memory_set.segments@,
            STACK_SIZE,
        ),
        r.0 == SyscallResult::Proceed(-1isize) ==> registered_threads(
            final(kernel).processes@[old(kernel).current_process()].inner.threads,
        ) == registered_threads(old(kernel).processes@[old(kernel).current_process()].inner.threads),
        r.0 == SyscallResult::Proceed(-1isize) ==> r.1 is None && final(kernel).processor.threads@ == old(kernel).processor.threads@
            && final(kernel).processor.scheduler@ == old(kernel).processor.scheduler@,
        r.0 == SyscallResult::Proceed(0isize) ==> {
            let t = old(kernel).processor.threads@.len() + 1;
            &&& out != 0
            &&& r.1 == Some(UserStore { addr: out, value: t as usize })
            &&& final(kernel).processor.threads@.len() == t
            &&& final(kernel).processor.scheduler@ == old(kernel).processor.scheduler@.push(t as ThreadID)
            &&& final(kernel).processor.thread(t as ThreadID).process == old(kernel).current_process()
            &&& final(kernel).processor.state_of(t as ThreadID) == ThreadState::Runnable
            &&& registered_threads(final(kernel).processes@[old(kernel).current_process()].inner.threads)
                == registered_threads(old(kernel).processes@[old(kernel).current_process()].inner.threads).insert(t as ThreadID)
        },
{
    if out == 0 {
        return (SyscallResult::Proceed(-1), None);
    }
    match Thread::spawn(kernel, entry_point, exit_fn, arg) {
        Ok(t) => {
            proof {
                assert(!kernel.processor.scheduler@.contains(t)) by {
                    if kernel.processor.scheduler@.contains(t) {
                        let k = choose|k: int| 0 <= k < kernel.processor.scheduler@.len() && kernel.processor.scheduler@[k] == t;
                        assert(old(kernel).processor.valid_tid(kernel.processor.scheduler@[k]));
                    }
                }
            }
            let ghost k1 = *kernel;
            kernel.processor.add_thread(t);
            proof {
                lemma_processor_only(k1, *kernel);
            }
            (SyscallResult::Proceed(0), Some(UserStore { addr: out, value: t as usize }))
        },
        Err(_) => (SyscallResult::Proceed(-1), None),
    }
}

/// Thread `tid` is alive in the process of the executing thread of `k`.
pub open spec fn join_target_found(k: Kernel, tid: ThreadID) -> bool {
    k.processor.valid_tid(tid) && registered_threads(k.processes@[k.current_process()].inner.threads).contains(
        tid,
    )
}

/// Joining a thread whose life has ended finds nothing: `release_thread`
/// took it out of its process's thread map, so `sys_join` answers `-1`.
pub proof fn lemma_join_after_end(k: Kernel, t: ThreadID)
    requires
        !registered_threads(k.processes@[k.current_process()].inner.threads).contains(t),
    ensures
        !join_target_found(k, t),
{
}

/// Blocks the executing thread until thread `tid` of its process ends:
/// `-1` when the process has no such live thread.
pub fn sys_join(kernel: &mut Kernel, tid: ThreadID) -> (r: SyscallResult)
    requires
        old(kernel).at_trap(),
    ensures
        final(kernel).handled_from(*old(kernel)),
        final(kernel).alarm == old(kernel).alarm,
        final(kernel).processes == old(kernel).processes,
        ({
            let found = join_target_found(*old(kernel), tid);
            let cur = old(kernel).processor.current_thread->Some_0;
            &&& !found ==> r == SyscallResult::Proceed(-1isize) && *final(kernel) == *old(kernel)
            &&& found ==> {
                &&& r == SyscallResult::Park(0isize)
                &&& final(kernel).processor.thread(tid).join_handle@ == old(kernel).processor.thread(tid).join_handle@.push(cur)
                &&& final(kernel).processor.state_of(cur) == ThreadState::Sleeping
                &&& !final(kernel).processor.is_ready(cur)
            }
        }),
{
    let cur = kernel.processor.current_thread();
    let p = kernel.processor.thread_process(cur);
    if 1 <= tid && tid as usize <= kernel.processor.threads.len() && thread_map_contains(
        &kernel.processes[p].inner.threads,
        tid,
    ) {
        let ghost k0 = *old(kernel);
        let mut handle = kernel.processor.take_join_handle(tid);
        let ghost k1 = *kernel;
        handle.wait(&mut kernel.processor);
        let ghost k2 = *kernel;
        kernel.processor.put_join_handle(tid, handle);
        proof {
            crate::scheduler::lemma_removal(k1.processor.scheduler@, k2.processor.scheduler@, cur);
            assert forall|t: ThreadID| #[trigger] k0.processor.valid_tid(t) implies kernel.processor.thread(t).process == k0.processor.thread(t).process by {
                assert(k1.processor.valid_tid(t));
                assert(k1.processor.thread(t).process == k0.processor.thread(t).process);
                assert(k2.processor.thread(t).process == k1.processor.thread(t).process);
                assert(kernel.processor.valid_tid(t));
            }
            kernel.lemma_owners_kept(k0);
            if tid != cur {
                assert(kernel.processor.state_of(cur) == k2.processor.state_of(cur));
            }
        }
        kernel.waits = Ghost(k0.waits@.insert(cur, WaitSite::Join(tid)));
        proof {
            let site = WaitSite::Join(tid);
            assert(mutexes_kept(k0, *kernel));
            assert forall|u: ThreadID| #[trigger] k0.processor.valid_tid(u) && u != tid implies kernel.processor.thread(u).join_handle@
                == k0.processor.thread(u).join_handle@ by {
                assert(k1.processor.valid_tid(u));
                assert(k2.processor.valid_tid(u));
                assert(kernel.processor.valid_tid(u));
            }
            lemma_other_sites(k0, *kernel, site);
            let q0 = k0.processor.thread(tid).join_handle@;
            assert(q0.insert(q0.len() as int, cur) =~= q0.push(cur));
            assert forall|u: ThreadID| #[trigger] k0.waits@.contains_key(u) implies kernel.processor.asleep(u) by {
                assert(k0.processor.asleep(u));
                assert(k1.processor.valid_tid(u));
                assert(k1.processor.thread(u).inner == k0.processor.thread(u).inner);
                assert(k2.processor.valid_tid(u));
                assert(u != cur);
                assert(k2.processor.thread(u).inner == k1.processor.thread(u).inner);
                assert(kernel.processor.valid_tid(u));
                assert(kernel.processor.thread(u).inner == k2.processor.thread(u).inner);
            }
            assert(kernel.processor.valid_tid(cur));
            lemma_enqueue(k0, *kernel, cur, site, q0.len() as int);
        }
        SyscallResult::Park(0)
    } else {
        SyscallResult::Proceed(-1)
    }
}

/// The last step of a thread's life: it leaves its process's thread map and
/// every thread joining it is woken.
pub fn release_thread(kernel: &mut Kernel, t: ThreadID)
    requires
        old(kernel).wf(),
        old(kernel).processor.valid_tid(t),
    ensures
        final(kernel).wf(),
        final(kernel).alarm == old(kernel).alarm,
        final(kernel).processes@.len() == old(kernel).processes@.len(),
        final(kernel).processor.threads@.len() == old(kernel).processor.threads@.len(),
        final(kernel).processor.current_thread == old(kernel).processor.current_thread,
        final(kernel).processor.idle_thread == old(kernel).processor.idle_thread,
        !registered_threads(final(kernel).processes@[old(kernel).processor.thread(t).process as int].inner.threads).contains(t),
        final(kernel).processor.thread(t).join_handle@.len() == 0,
        contexts_kept(old(kernel).processor, final(kernel).processor),
        mutexes_kept(*old(kernel), *final(kernel)),
        forall|u: ThreadID| #[trigger] old(kernel).processor.valid_tid(u) && u != t ==> final(kernel).processor.thread(
            u,
        ).join_handle@ == old(kernel).processor.thread(u).join_handle@,
        forall|u: ThreadID| #[trigger] old(kernel).processor.valid_tid(u) ==> final(kernel).processor.state_of(u)
            == old(kernel).processor.state_of(u) || (old(kernel).processor.asleep(u)
            && final(kernel).processor.state_of(u) == ThreadState::Runnable),
        forall|x: ThreadID| old(kernel).processor.is_ready(x) ==> #[trigger] final(kernel).processor.is_ready(x),
        forall|x: ThreadID| #[trigger] final(kernel).processor.is_ready(x) ==> old(kernel).processor.is_ready(x)
            || (old(kernel).processor.thread(t).join_handle@.contains(x) && old(kernel).processor.asleep(x)),
        ({
            let joined = old(kernel).processor.thread(t).join_handle@;
            &&& final(kernel).processor.scheduler@ == old(kernel).processor.scheduler@ + joined
            &&& forall|k: int| 0 <= k < joined.len() ==> final(kernel).processor.state_of(#[trigger] joined[k]) == ThreadState::Runnable
        }),
{
    let p = kernel.processor.thread_process(t);
    proof {
        let kk = *old(kernel);
        let joined = kk.processor.thread(t).join_handle@;
        assert(kk.waiters(WaitSite::Join(t)) == joined);
        assert(held_at(joined, kk.waits@, WaitSite::Join(t)));
        assert forall|k: int| 0 <= k < joined.len() implies kk.processor.valid_tid(#[trigger] joined[k])
            && kk.processor.state_of(joined[k]) == ThreadState::Sleeping by {
            assert(kk.waits@.contains_key(joined[k]));
        }
        assert(kk.processor.all_asleep(joined));
    }
    thread_map_remove(&mut kernel.processes[p].inner.threads, t);
    proof {
        assert(old(kernel).processes@[p as int].wf());
        kernel.lemma_processes_wf(*old(kernel), p as int);
    }
    let ghost k0 = *kernel;
    let mut handle = kernel.processor.take_join_handle(t);
    let ghost k1 = *kernel;
    let ghost h0 = handle@;
    handle.notify_all(&mut kernel.processor);
    proof {
        assert forall|u: ThreadID| #[trigger] k0.processor.valid_tid(u) implies kernel.processor.thread(u).process == k0.processor.thread(u).process by {
            assert(k1.processor.valid_tid(u));
            assert(k1.processor.thread(u).process == k0.processor.thread(u).process);
        }
        kernel.lemma_owners_kept(k0);
        assert(k1.processor.valid_tid(t));
        assert forall|u: ThreadID| #[trigger] old(kernel).processor.valid_tid(u) implies kernel.processor.state_of(u)
            == old(kernel).processor.state_of(u) || (old(kernel).processor.asleep(u)
            && kernel.processor.state_of(u) == ThreadState::Runnable) by {
            assert(k1.processor.valid_tid(u));
            assert(k1.processor.thread(u).inner == k0.processor.thread(u).inner);
        }
        if old(kernel).processor.all_asleep(old(kernel).processor.thread(t).join_handle@) {
            let joined = old(kernel).processor.thread(t).join_handle@;
            assert(h0 == joined);
            assert(k1.processor.all_asleep(joined)) by {
                assert forall|k: int| 0 <= k < joined.len() implies k1.processor.valid_tid(#[trigger] joined[k]) && k1.processor.state_of(joined[k]) == ThreadState::Sleeping by {
                    let x = joined[k];
                    assert(k0.processor == old(kernel).processor);
                    assert(k1.processor.valid_tid(x));
                    assert(k1.processor.thread(x).inner == k0.processor.thread(x).inner);
                }
            }
            assert forall|k: int| 0 <= k < joined.len() implies kernel.processor.state_of(#[trigger] joined[k]) == ThreadState::Runnable by {
                assert(joined.contains(joined[k]));
            }
        }
    }
    let ghost w = old(kernel).waits@.remove_keys(h0.subrange(0, h0.len() as int).to_set());
    kernel.waits = Ghost(w);
    proof {
        let kk = *old(kernel);
        let site = WaitSite::Join(t);
        let joined = kk.processor.thread(t).join_handle@;
        assert(h0 == joined);
        assert(mutexes_kept(kk, *kernel)) by {
            assert forall|j: int| 0 <= j < kk.processes@.len() implies mutex_entries(#[trigger] kernel.processes@[j].inner.mutex_queue)
                == mutex_entries(kk.processes@[j].inner.mutex_queue) by {
                if j != p {
                    assert(k0.processes@[j] == kk.processes@[j]);
                }
            }
        }
        assert forall|u: ThreadID| #[trigger] kk.processor.valid_tid(u) && u != t implies kernel.processor.thread(u).join_handle@
            == kk.processor.thread(u).join_handle@ by {
            assert(k1.processor.valid_tid(u));
        }
        lemma_other_sites(kk, *kernel, site);
        assert(kernel.waiters(site) =~= joined.subrange(joined.len() as int, joined.len() as int));
        assert forall|u: ThreadID| #[trigger] kernel.waits@.contains_key(u) implies kernel.processor.asleep(u) by {
            assert(kk.waits@.contains_key(u));
            assert(kk.processor.asleep(u));
            assert(!joined.contains(u)) by {
                if joined.contains(u) {
                    let j = choose|j: int| 0 <= j < joined.len() && joined[j] == u;
                    assert(joined.subrange(0, joined.len() as int)[j] == u);
                }
            }
            assert(k1.processor.valid_tid(u));
            assert(k1.processor.thread(u).inner == k0.processor.thread(u).inner);
        }
        lemma_dequeue(kk, *kernel, site, joined.len() as int);
    }
}

/// The system calls this kernel serves.
pub open spec fn is_known_syscall(id: usize) -> bool {
    id == SYS_SLEEP || id == SYS_JOIN || id == SYS_MUTEX_CREATE || id == SYS_MUTEX_DESTROY || id
        == SYS_MUTEX_LOCK || id == SYS_MUTEX_UNLOCK || id == SYS_CREATE_THREAD || id == SYS_READ
        || id == SYS_WRITE || id == SYS_EXIT
}

/// A transfer on an open stream, which the code around the kernel performs.
#[derive(Clone, Copy, PartialEq, Eq, Structural, Debug)]
pub struct IoRequest {
    /// Writing when set, reading otherwise.
    pub write: bool,
    /// The stream the descriptor refers to.
    pub stream: usize,
    /// User address of the buffer.
    pub buffer: usize,
    /// Number of bytes.
    pub len: usize,
}

/// What a handler decided: an outcome, or a transfer to perform first.
#[derive(Clone, Copy, PartialEq, Eq, Structural, Debug)]
pub enum Handled {
    Done(SyscallResult, Option<UserStore>),
    Io(IoRequest),
}

/// How the trap ends.
#[derive(Clone, Copy)]
pub enum TrapOutcome {
    /// Perform the store, if any, in the trapping thread's memory, then
    /// continue with these registers.
    Run(Context, Option<UserStore>),
    /// Perform the transfer, then hand its byte count to `complete_io` with
    /// these registers, which belong to the trapping thread.
    Io(IoRequest, Context),
    /// Nothing can ever run again.
    Halt,
}

/// A transfer on descriptor `fd` of the executing thread's process: `-1`
/// when the process has no such descriptor.
pub fn sys_io(kernel: &Kernel, write: bool, fd: usize, buffer: usize, len: usize) -> (r: Handled)
    requires
        kernel.at_trap(),
    ensures
        ({
            let ds = kernel.processes@[kernel.current_process()].inner.descriptors@;
            &&& fd < ds.len() ==> r == Handled::Io(
                IoRequest { write, stream: ds[fd as int], buffer, len },
            )
            &&& fd >= ds.len() ==> r == Handled::Done(SyscallResult::Proceed(-1isize), None)
        }),
{
    let cur = kernel.processor.current_thread();
    let p = kernel.processor.thread_process(cur);
    if fd < kernel.processes[p].inner.descriptors.len() {
        Handled::Io(IoRequest { write, stream: kernel.processes[p].inner.descriptors[fd], buffer, len })
    } else {
        Handled::Done(SyscallResult::Proceed(-1), None)
    }
}

/// What the handler of system call `id` decides in kernel state `k` for
/// the arguments `a`.
pub open spec fn spec_handled(k: Kernel, id: usize, a: Seq<usize>) -> Handled {
    let p = k.current_process();
    if id == SYS_SLEEP {
        Handled::Done(SyscallResult::Park(0isize), None)
    } else if id == SYS_JOIN {
        Handled::Done(
            if join_target_found(k, a[0] as ThreadID) {
                SyscallResult::Park(0isize)
            } else {
                SyscallResult::Proceed(-1isize)
            },
            None,
        )
    } else if id == SYS_MUTEX_CREATE {
        let next = k.processes@[p].inner.next_mutex_id;
        if a[0] != 0 && next < usize::MAX {
            Handled::Done(SyscallResult::Proceed(0isize), Some(UserStore { addr: a[0], value: next }))
        } else {
            Handled::Done(SyscallResult::Proceed(-1isize), None)
        }
    } else if id == SYS_MUTEX_DESTROY {
        Handled::Done(
            if has_mutex(k, p, a[0]) {
                SyscallResult::Proceed(0isize)
            } else {
                SyscallResult::Proceed(-1isize)
            },
            None,
        )
    } else if id == SYS_MUTEX_LOCK {
        Handled::Done(
            if !has_mutex(k, p, a[0]) {
                SyscallResult::Proceed(-1isize)
            } else if mutex_of(k, p, a[0]).owner_thread_id == NO_OWNER {
                SyscallResult::Proceed(0isize)
            } else {
                SyscallResult::Park(0isize)
            },
            None,
        )
    } else if id == SYS_MUTEX_UNLOCK {
        Handled::Done(
            if has_mutex(k, p, a[0]) {
                SyscallResult::Park(0isize)
            } else {
                SyscallResult::Proceed(-1isize)
            },
            None,
        )
    } else if id == SYS_CREATE_THREAD {
        let n = k.processor.threads@.len();
        if a[0] != 0 && n + 1 < isize::MAX && !space_full(
            k.processes@[p].inner.memory_set.segments@,
            STACK_SIZE,
        ) {
            Handled::Done(
                SyscallResult::Proceed(0isize),
                Some(UserStore { addr: a[0], value: (n + 1) as usize }),
            )
        } else {
            Handled::Done(SyscallResult::Proceed(-1isize), None)
        }
    } else if id == SYS_READ || id == SYS_WRITE {
        let ds = k.processes@[p].inner.descriptors@;
        if a[0] < ds.len() {
            Handled::Io(
                IoRequest { write: id == SYS_WRITE, stream: ds[a[0] as int], buffer: a[1], len: a[2] },
            )
        } else {
            Handled::Done(SyscallResult::Proceed(-1isize), None)
        }
    } else {
        Handled::Done(SyscallResult::Kill, None)
    }
}

/// The change of state that system call `id` with arguments `a` made from
/// `k0` to `k1`, beside its result.
pub open spec fn dispatch_effect(k0: Kernel, k1: Kernel, id: usize, a: Seq<usize>) -> bool {
    let cur = k0.processor.current_thread->Some_0;
    let p = k0.current_process();
    let asleep_now = k1.processor.state_of(cur) == ThreadState::Sleeping && !k1.processor.is_ready(cur);
    &&& id == SYS_SLEEP ==> asleep_now && k1.alarm.sleepers().len() == k0.alarm.sleepers().len() + 1
    &&& id == SYS_JOIN && join_target_found(k0, a[0] as ThreadID) ==> asleep_now && k1.processor.thread(
        a[0] as ThreadID,
    ).join_handle@ == k0.processor.thread(a[0] as ThreadID).join_handle@.push(cur)
    &&& id == SYS_MUTEX_LOCK && has_mutex(k0, p, a[0]) ==> has_mutex(k1, p, a[0]) && if mutex_of(
        k0,
        p,
        a[0],
    ).owner_thread_id == NO_OWNER {
        mutex_of(k1, p, a[0]).owner_thread_id == cur && k1.processor == k0.processor
    } else {
        asleep_now && mutex_of(k1, p, a[0]).queue@ == mutex_of(k0, p, a[0]).queue@.push(cur)
    }
    &&& id == SYS_MUTEX_UNLOCK && has_mutex(k0, p, a[0]) ==> has_mutex(k1, p, a[0]) && if mutex_of(
        k0,
        p,
        a[0],
    ).queue@.len() > 0 {
        handed_over(mutex_of(k0, p, a[0]), mutex_of(k1, p, a[0]), k0.processor, k1.processor, 0)
    } else {
        mutex_of(k1, p, a[0]).owner_thread_id == NO_OWNER && k1.processor == k0.processor
    }
    &&& id == SYS_MUTEX_DESTROY ==> !has_mutex(k1, p, a[0]) && mutex_entries(
        k1.processes@[p].inner.mutex_queue,
    ) == mutex_entries(k0.processes@[p].inner.mutex_queue).remove(a[0])
    &&& id == SYS_MUTEX_CREATE && spec_handled(k0, id, a) == Handled::Done(
        SyscallResult::Proceed(0isize),
        Some(UserStore { addr: a[0], value: k0.processes@[p].inner.next_mutex_id }),
    ) ==> has_mutex(k1, p, k0.processes@[p].inner.next_mutex_id) && mutex_of(
        k1,
        p,
        k0.processes@[p].inner.next_mutex_id,
    ).owner_thread_id == NO_OWNER
    &&& id == SYS_CREATE_THREAD && a[0] != 0 && k0.processor.threads@.len() + 1 < isize::MAX && !space_full(
        k0.processes@[p].inner.memory_set.segments@,
        STACK_SIZE,
    ) ==> k1.processor.scheduler@ == k0.processor.scheduler@.push((k0.processor.threads@.len() + 1) as ThreadID)
}

/// Runs the handler of system call `id` with the arguments `args`. An
/// unknown `id` ends the thread that made it and changes nothing else.
pub fn dispatch(kernel: &mut Kernel, id: usize, args: [usize; 4]) -> (r: Handled)
    requires
        old(kernel).at_trap(),
    ensures
        final(kernel).handled_from(*old(kernel)),
        r == spec_handled(*old(kernel), id, args@),
        r is Io || r == Handled::Done(SyscallResult::Kill, None) ==> *final(kernel) == *old(kernel),
        dispatch_effect(*old(kernel), *final(kernel), id, args@),
{
    if id == SYS_SLEEP {
        Handled::Done(sys_sleep(kernel, args[0] as u64), None)
    } else if id == SYS_JOIN {
        Handled::Done(sys_join(kernel, args[0] as ThreadID), None)
    } else if id == SYS_MUTEX_CREATE {
        let (res, store) = sys_mutex_create(kernel, args[0]);
        Handled::Done(res, store)
    } else if id == SYS_MUTEX_DESTROY {
        Handled::Done(sys_mutex_destroy(kernel, args[0]), None)
    } else if id == SYS_MUTEX_LOCK {
        Handled::Done(sys_mutex_lock(kernel, args[0]), None)
    } else if id == SYS_MUTEX_UNLOCK {
        Handled::Done(sys_mutex_unlock(kernel, args[0]), None)
    } else if id == SYS_CREATE_THREAD {
        let (res, store) = sys_create_thread(kernel, args[0], args[1], args[2], args[3]);
        Handled::Done(res, store)
    } else if id == SYS_READ {
        sys_io(kernel, false, args[0], args[1], args[2])
    } else if id == SYS_WRITE {
        sys_io(kernel, true, args[0], args[1], args[2])
    } else {
        Handled::Done(sys_exit(kernel, args[0]), None)
    }
}

/// `c` is `ctx` returning `v` from the system call: the result register
/// holds `v` and nothing else changed.
pub open spec fn returns_value(ctx: Context, c: Context, v: isize) -> bool {
    &&& c.x@ == ctx.x@.update(REG_A0 as int, v as usize)
    &&& c.sepc == ctx.sepc
    &&& c.sstatus == ctx.sstatus
}

/// Writes the result `v` of a system call into `ctx`.
pub fn with_return_value(ctx: Context, v: isize) -> (c: Context)
    ensures
        returns_value(ctx, c, v),
{
    let mut c = ctx;
    c.x[REG_A0] = v as usize;
    c
}

/// The registers with which the thread that waited for a transfer continues
/// once `bytes` were moved (or a negative error).
pub fn complete_io(ctx: Context, bytes: isize) -> (c: Context)
    ensures
        returns_value(ctx, c, bytes),
{
    with_return_value(ctx, bytes)
}

/// Picks the next thread and hands out its registers; `None` when nothing
/// is runnable and no sleeper can ever be woken into an idle wait.
pub fn run_next(kernel: &mut Kernel) -> (r: Option<Context>)
    requires
        old(kernel).wf(),
        old(kernel).processor.current_thread matches Some(cur) ==> old(kernel).processor.thread(
            cur,
        ).inner.context is Some,
    ensures
        final(kernel).wf(),
        r is None ==> *final(kernel) == *old(kernel),
        r is None <==> !old(kernel).processor.can_run_next(),
        r is Some ==> {
            let next = old(kernel).processor.next_choice();
            &&& final(kernel).processor.current_thread == Some(next)
            &&& old(kernel).processor.thread(next).inner.context == r
            &&& forall|x: ThreadID| #[trigger] final(kernel).processor.is_ready(x) <==> old(kernel).processor.is_ready(x)
            &&& old(kernel).processor.scheduler@.len() > 0 ==> final(kernel).processor.scheduler@
                == old(kernel).processor.scheduler@.drop_first().push(old(kernel).processor.scheduler@[0])
            &&& old(kernel).processor.scheduler@.len() == 0 ==> final(kernel).processor.scheduler@
                == old(kernel).processor.scheduler@
            &&& final(kernel).processor.thread(next).inner.context is None
            &&& forall|t: ThreadID| #[trigger] old(kernel).processor.valid_tid(t) && t != next ==> final(kernel).processor.thread(t).inner.context
                == old(kernel).processor.thread(t).inner.context
        },
        final(kernel).processor.num_sleeping_threads == old(kernel).processor.num_sleeping_threads,
        final(kernel).processor.idle_thread == old(kernel).processor.idle_thread,
        joins_kept(old(kernel).processor, final(kernel).processor),
        final(kernel).processor.threads@.len() == old(kernel).processor.threads@.len(),
        forall|t: ThreadID| #[trigger] final(kernel).processor.valid_tid(t) ==> final(kernel).processor.state_of(t) == old(kernel).processor.state_of(t),
        final(kernel).alarm == old(kernel).alarm,
        final(kernel).processes == old(kernel).processes,
{
    let usable_idle = match kernel.processor.idle_thread {
        Some(d) => kernel.processor.num_sleeping_threads > 0 && kernel.processor.thread_state(d)
            != ThreadState::Dead,
        None => false,
    };
    if kernel.processor.scheduler.len() > 0 || usable_idle {
        let ghost k0 = *old(kernel);
        let c = kernel.processor.prepare_next_thread();
        proof {
            kernel.lemma_owners_kept(k0);
            assert forall|u: ThreadID| #[trigger] k0.waits@.contains_key(u) implies kernel.processor.asleep(u) by {
                assert(k0.processor.asleep(u));
            }
            lemma_processor_only(k0, *kernel);
            let s0 = k0.processor.scheduler@;
            if s0.len() > 0 {
                assert forall|x: ThreadID| #[trigger] kernel.processor.is_ready(x) <==> k0.processor.is_ready(x) by {
                    if k0.processor.is_ready(x) {
                        let k = choose|k: int| 0 <= k < s0.len() && s0[k] == x;
                        if k == 0 {
                            assert(kernel.processor.scheduler@[s0.len() - 1] == x);
                        } else {
                            assert(kernel.processor.scheduler@[k - 1] == x);
                        }
                    }
                    if kernel.processor.is_ready(x) {
                        let k = choose|k: int| 0 <= k < kernel.processor.scheduler@.len() && kernel.processor.scheduler@[k] == x;
                        if k == s0.len() - 1 {
                            assert(s0[0] == x);
                        } else {
                            assert(s0[k + 1] == x);
                        }
                    }
                }
            }
        }
        Some(c)
    } else {
        None
    }
}

/// The ready queue once thread `cur` of `p0` has ended: the others in their
/// order, then the threads that were joining `cur`.
pub open spec fn ready_after_end(p0: Processor, cur: ThreadID) -> Seq<ThreadID> {
    remove_value(p0.scheduler@, cur) + p0.thread(cur).join_handle@
}

/// After thread `cur` of `p0` ended, `p1` runs the head of the remaining
/// ready queue (which moves to the tail), or else the idle thread, and `r`
/// holds that thread's saved registers; nothing runs only when no thread
/// is ready.
pub open spec fn killed_then_next(p0: Processor, p1: Processor, cur: ThreadID, r: Option<Context>) -> bool {
    let s1 = ready_after_end(p0, cur);
    let next = if s1.len() > 0 {
        s1[0]
    } else {
        p0.idle_thread->Some_0
    };
    &&& r is None ==> s1.len() == 0
    &&& r is Some ==> p1.current_thread == Some(next) && r == p0.thread(next).inner.context
    &&& s1.len() > 0 ==> r is Some && p1.scheduler@ == s1.drop_first().push(s1[0])
}

/// Ends the trap as `result` asks. `ctx` holds the trapping thread's
/// registers, already past the trapping instruction.
pub fn finish_trap(kernel: &mut Kernel, ctx: Context, result: SyscallResult) -> (r: Option<Context>)
    requires
        old(kernel).wf(),
        old(kernel).processor.current_thread is Some,
        old(kernel).processor.thread(old(kernel).processor.current_thread->Some_0).inner.context is None,
        result == SyscallResult::Kill ==> old(kernel).processor.state_of(
            old(kernel).processor.current_thread->Some_0,
        ) != ThreadState::Sleeping,
    ensures
        final(kernel).wf(),
        result matches SyscallResult::Proceed(v) ==> *final(kernel) == *old(kernel) && r is Some
            && returns_value(ctx, r->Some_0, v),
        result matches SyscallResult::Park(v) ==> {
            let cur = old(kernel).processor.current_thread->Some_0;
            let next = old(kernel).processor.next_choice();
            &&& r is None <==> !old(kernel).processor.can_run_next()
            &&& r is Some ==> final(kernel).processor.current_thread == Some(next)
            &&& r is Some && next == cur ==> returns_value(ctx, r->Some_0, v)
            &&& r is Some && next != cur ==> r == old(kernel).processor.thread(next).inner.context
            &&& (r is None || next != cur) ==> final(kernel).processor.thread(cur).inner.context is Some
                && returns_value(ctx, final(kernel).processor.thread(cur).inner.context->Some_0, v)
            &&& r is None ==> !final(kernel).processor.can_run_next()
            &&& final(kernel).processor.state_of(cur) == old(kernel).processor.state_of(cur)
        },
        result == SyscallResult::Kill ==> {
            let cur = old(kernel).processor.current_thread->Some_0;
            &&& final(kernel).processor.state_of(cur) == ThreadState::Dead
            &&& !final(kernel).processor.is_ready(cur)
            &&& final(kernel).processor.current_thread != Some(cur)
            &&& forall|x: ThreadID| x != cur && old(kernel).processor.is_ready(x) ==> #[trigger] final(kernel).processor.is_ready(x)
            &&& forall|x: ThreadID| #[trigger] final(kernel).processor.is_ready(x) ==> old(kernel).processor.is_ready(x)
                || old(kernel).processor.thread(cur).join_handle@.contains(x)
            &&& final(kernel).processor.thread(cur).inner.context is None
            &&& final(kernel).alarm == old(kernel).alarm
            &&& mutexes_kept(*old(kernel), *final(kernel))
            &&& killed_then_next(old(kernel).processor, final(kernel).processor, cur, r)
            &&& forall|u: ThreadID| #[trigger] old(kernel).processor.valid_tid(u) && u != cur ==> final(kernel).processor.thread(
                u,
            ).join_handle@ == old(kernel).processor.thread(u).join_handle@
        },
{
    let cur = kernel.processor.current_thread();
    match result {
        SyscallResult::Proceed(v) => Some(with_return_value(ctx, v)),
        SyscallResult::Park(v) => {
            let c = with_return_value(ctx, v);
            let ghost k0 = *old(kernel);
            kernel.processor.park_current_thread(c);
            proof {
                kernel.lemma_owners_kept(k0);
                assert forall|u: ThreadID| #[trigger] k0.waits@.contains_key(u) implies kernel.processor.asleep(u) by {
                    assert(k0.processor.asleep(u));
                }
                lemma_processor_only(k0, *kernel);
            }
            let ghost k1 = *kernel;
            let r = run_next(kernel);
            proof {
                let next = k0.processor.next_choice();
                assert(k1.processor.next_choice() == next);
                if k0.processor.idle_thread is Some {
                    let d = k0.processor.idle_thread->Some_0;
                    assert(k1.processor.state_of(d) == k0.processor.state_of(d));
                }
                assert(k1.processor.can_run_next() == k0.processor.can_run_next());
                assert(k1.processor.valid_tid(cur));
                assert(kernel.processor.valid_tid(cur));
                if r is Some {
                    if kernel.processor.current_thread == Some(cur) {
                        assert(k1.processor.next_choice() == cur);
                    }
                    if next != cur {
                        assert(k1.processor.thread(next) == k0.processor.thread(next));
                        assert(k1.processor.valid_tid(cur));
                    }
                }
            }
            r
        },
        SyscallResult::Kill => {
            let ghost k0 = *old(kernel);
            kernel.processor.kill_current_thread();
            proof {
                kernel.lemma_owners_kept(k0);
                assert forall|u: ThreadID| #[trigger] k0.waits@.contains_key(u) implies kernel.processor.asleep(u) by {
                    assert(k0.processor.asleep(u));
                }
                lemma_processor_only(k0, *kernel);
                crate::scheduler::lemma_removal(k0.processor.scheduler@, kernel.processor.scheduler@, cur);
            }
            let ghost k1 = *kernel;
            release_thread(kernel, cur);
            let ghost k2 = *kernel;
            proof {
                assert(k1.processor.thread(cur).join_handle@ == k0.processor.thread(cur).join_handle@);
                assert(!k2.processor.is_ready(cur)) by {
                    if k2.processor.is_ready(cur) {
                        assert(!k1.processor.asleep(cur));
                    }
                }
            }
            let r = run_next(kernel);
            proof {
                assert(kernel.processor.valid_tid(cur));
                assert(k1.processor.valid_tid(cur));
                assert(k1.processor.state_of(cur) == ThreadState::Dead);
                assert(k2.processor.state_of(cur) == ThreadState::Dead);
                if r is Some {
                    let next = k2.processor.next_choice();
                    if k2.processor.scheduler@.len() > 0 {
                        assert(k2.processor.scheduler@.contains(next));
                    }
                }
                assert forall|x: ThreadID| x != cur && old(kernel).processor.is_ready(x) implies #[trigger] kernel.processor.is_ready(x) by {
                    assert(k1.processor.is_ready(x));
                }
                lemma_removal_value(k0.processor.scheduler@, k1.processor.scheduler@, cur);
                let s1 = ready_after_end(k0.processor, cur);
                assert(k2.processor.scheduler@ == s1);
                let next = k2.processor.next_choice();
                assert(k0.processor.thread(cur).inner.context is None);
                assert(k1.processor.thread(cur).inner.context is None);
                assert(k2.processor.thread(cur).inner.context is None);
                if r is Some {
                    assert(k2.processor.valid_tid(next));
                    assert(k2.processor.state_of(next) != ThreadState::Dead);
                    assert(next != cur);
                    assert(k0.processor.valid_tid(next));
                    assert(k1.processor.thread(next).inner.context == k0.processor.thread(next).inner.context);
                    assert(k2.processor.thread(next).inner.context == k1.processor.thread(next).inner.context);
                } else {
                    assert(kernel.processor.thread(cur).inner.context is None);
                }
                assert(mutexes_kept(k0, k2)) by {
                    assert forall|j: int| 0 <= j < k0.processes@.len() implies mutex_entries(#[trigger] k2.processes@[j].inner.mutex_queue)
                        == mutex_entries(k0.processes@[j].inner.mutex_queue) by {
                        assert(k1.processes@[j] == k0.processes@[j]);
                        assert(mutex_entries(k2.processes@[j].inner.mutex_queue) == mutex_entries(k1.processes@[j].inner.mutex_queue));
                    }
                }
            }
            r
        },
    }
}

/// `ctx` once the saved program counter moved past the trapping instruction.
pub open spec fn advanced(ctx: Context) -> Context {
    Context { sepc: (ctx.sepc + ECALL_WIDTH) as usize, ..ctx }
}

/// The arguments of a trapped system call: registers `a0` to `a3`.
pub open spec fn trap_args(ctx: Context) -> Seq<usize> {
    ctx.x@.subrange(REG_A0 as int, REG_A0 + 4)
}

/// The registers with which the trap resumes, if it resumes a thread.
pub open spec fn run_registers(r: TrapOutcome) -> Option<Context> {
    match r {
        TrapOutcome::Run(c, _) => Some(c),
        _ => None,
    }
}

/// The trap from the executing thread of `k0`, whose registers moved past
/// the trapping instruction are `adv` and whose handler decided `h`, ended
/// as `r` in `k1`:
/// - a transfer hands `adv` out and changes nothing;
/// - `Proceed(v)` resumes the same thread with `v` in `a0`;
/// - `Park(v)` saves `adv` with `v` in `a0` on the thread and runs the next
///   one, or halts when none can run;
/// - `Kill` ends the thread, discards `adv` and runs the next thread.
pub open spec fn trap_ends_as(k0: Kernel, k1: Kernel, adv: Context, h: Handled, r: TrapOutcome) -> bool {
    let cur = k0.processor.current_thread->Some_0;
    let saved = k1.processor.thread(cur).inner.context;
    &&& h is Io ==> r == TrapOutcome::Io(h->Io_0, adv) && k1 == k0
    &&& h is Done && h->Done_0 is Proceed ==> {
        &&& r is Run
        &&& r->Run_1 == h->Done_1
        &&& returns_value(adv, r->Run_0, h->Done_0->Proceed_0)
        &&& k1.processor.current_thread == Some(cur)
        &&& saved is None
    }
    &&& h is Done && h->Done_0 is Park ==> {
        let v = h->Done_0->Park_0;
        &&& r is Run || r is Halt
        &&& r is Run ==> r->Run_1 is None && k1.processor.current_thread is Some
        &&& r is Run && k1.processor.current_thread == Some(cur) ==> returns_value(adv, r->Run_0, v)
        &&& !(r is Run && k1.processor.current_thread == Some(cur)) ==> saved is Some && returns_value(
            adv,
            saved->Some_0,
            v,
        )
        &&& r is Run && k1.processor.current_thread != Some(cur) && k0.processor.valid_tid(
            k1.processor.current_thread->Some_0,
        ) ==> Some(r->Run_0) == k0.processor.thread(k1.processor.current_thread->Some_0).inner.context
        &&& r is Halt ==> !k1.processor.can_run_next()
    }
    &&& h is Done && h->Done_0 is Kill ==> {
        &&& r is Run || r is Halt
        &&& r is Run ==> r->Run_1 is None
        &&& k1.processor.state_of(cur) == ThreadState::Dead
        &&& !k1.processor.is_ready(cur)
        &&& k1.processor.current_thread != Some(cur)
        &&& saved is None
        &&& k1.alarm == k0.alarm
        &&& mutexes_kept(k0, k1)
        &&& killed_then_next(k0.processor, k1.processor, cur, run_registers(r))
        &&& forall|u: ThreadID| #[trigger] k0.processor.valid_tid(u) && u != cur ==> k1.processor.thread(
            u,
        ).join_handle@ == k0.processor.thread(u).join_handle@
        &&& forall|x: ThreadID| x != cur && k0.processor.is_ready(x) ==> #[trigger] k1.processor.is_ready(x)
    }
    &&& h is Done && !(h->Done_0 is Kill) ==> k1.processor.state_of(cur) != ThreadState::Dead
}

/// The trap entry for a system call: the saved program counter moves past
/// the trapping instruction, the call named by `a7` runs with the arguments
/// in `a0` to `a3`, and the trap ends as its handler decided.
pub fn syscall_handler(kernel: &mut Kernel, context: Context) -> (r: TrapOutcome)
    requires
        old(kernel).at_trap(),
        context.sepc <= usize::MAX - ECALL_WIDTH,
    ensures
        final(kernel).wf(),
        r is Run && final(kernel).processor.current_thread == old(kernel).processor.current_thread
            ==> r->Run_0.sepc == context.sepc + ECALL_WIDTH && r->Run_0.sstatus == context.sstatus,
        trap_ends_as(
            *old(kernel),
            *final(kernel),
            advanced(context),
            spec_handled(*old(kernel), context.x@[REG_A7 as int], trap_args(context)),
            r,
        ),
        !is_known_syscall(context.x@[REG_A7 as int]) ==> spec_handled(
            *old(kernel),
            context.x@[REG_A7 as int],
            trap_args(context),
        ) == Handled::Done(SyscallResult::Kill, None),
{
    let mut ctx = context;
    ctx.sepc = ctx.sepc + ECALL_WIDTH;
    let id = ctx.x[REG_A7];
    let args: [usize; 4] = [ctx.x[REG_A0], ctx.x[REG_A0 + 1], ctx.x[REG_A0 + 2], ctx.x[REG_A0 + 3]];
    assert(args@ =~= trap_args(context));
    assert(ctx == advanced(context));
    let ghost k0 = *old(kernel);
    let cur = kernel.processor.current_thread();
    match dispatch(kernel, id, args) {
        Handled::Io(req) => TrapOutcome::Io(req, ctx),
        Handled::Done(result, store) => {
            let ghost k1 = *kernel;
            proof {
                if result == SyscallResult::Kill {
                    assert(*kernel == k0);
                }
                assert(k0.processor.valid_tid(cur));
                assert(k1.processor.thread(cur).inner.context is None);
            }
            let out = finish_trap(kernel, ctx, result);
            proof {
                if result is Park {
                    let next = k1.processor.next_choice();
                    if out is Some && next != cur && k0.processor.valid_tid(next) {
                        assert(k1.processor.thread(next).inner.context == k0.processor.thread(next).inner.context);
                    }
                }
            }
            match out {
                Some(c) => TrapOutcome::Run(c, store),
                None => TrapOutcome::Halt,
            }
        },
    }
}

/// One timer tick: a virtual second elapses and the sleepers it reaches wake.
pub fn tick(kernel: &mut Kernel)
    requires
        old(kernel).wf(),
        old(kernel).alarm.clock < u64::MAX,
    ensures
        final(kernel).wf(),
        final(kernel).alarm.clock == old(kernel).alarm.clock + 1,
        final(kernel).processor.current_thread == old(kernel).processor.current_thread,
        only_woken(old(kernel).processor, final(kernel).processor),
        final(kernel).processes == old(kernel).processes,
        exists|n: int|
            {
                &&& 0 <= n <= old(kernel).alarm.alarm_threads@.len()
                &&& forall|k: int|
                    0 <= k < old(kernel).alarm.alarm_threads@.len() ==> (k < n <==> (
                    #[trigger] old(kernel).alarm.alarm_threads@[k]).alarm_time <= final(kernel).alarm.clock)
                &&& final(kernel).alarm.alarm_threads@ == #[trigger] old(kernel).alarm.alarm_threads@.subrange(
                    n,
                    old(kernel).alarm.alarm_threads@.len() as int,
                )
                &&& woke_in_order(
                    old(kernel).processor,
                    final(kernel).processor,
                    alarm_ids(old(kernel).alarm.alarm_threads@.subrange(0, n)),
                )
            },
{
    let ghost k0 = *old(kernel);
    proof {
        let q = k0.waiters(WaitSite::Alarm);
        assert(held_at(q, k0.waits@, WaitSite::Alarm));
        assert forall|k: int| 0 <= k < q.len() implies k0.processor.valid_tid(#[trigger] q[k])
            && k0.processor.state_of(q[k]) == ThreadState::Sleeping by {
            assert(k0.waits@.contains_key(q[k]));
        }
        assert(k0.processor.all_asleep(k0.alarm.sleepers()));
    }
    kernel.alarm.alarm(&mut kernel.processor);
    let ghost s0 = k0.alarm.alarm_threads@;
    let ghost n = choose|n: int|
        {
            &&& 0 <= n <= s0.len()
            &&& forall|k: int| 0 <= k < s0.len() ==> (k < n <==> (#[trigger] s0[k]).alarm_time <= kernel.alarm.clock)
            &&& kernel.alarm.alarm_threads@ == s0.subrange(n, s0.len() as int)
            &&& k0.processor.all_asleep(k0.alarm.sleepers()) ==> woke_in_order(
                k0.processor,
                kernel.processor,
                alarm_ids(s0.subrange(0, n)),
            )
        };
    kernel.waits = Ghost(k0.waits@.remove_keys(alarm_ids(s0).subrange(0, n).to_set()));
    proof {
        assert forall|t: ThreadID| #[trigger] k0.processor.valid_tid(t) implies kernel.processor.thread(t).process == k0.processor.thread(t).process by {}
        kernel.lemma_owners_kept(k0);
        let ids = alarm_ids(s0);
        assert(alarm_ids(s0.subrange(0, n)) =~= ids.subrange(0, n));
        assert(alarm_ids(s0.subrange(n, s0.len() as int)) =~= ids.subrange(n, ids.len() as int));
        assert(mutexes_kept(k0, *kernel));
        lemma_other_sites(k0, *kernel, WaitSite::Alarm);
        assert forall|u: ThreadID| #[trigger] kernel.waits@.contains_key(u) implies kernel.processor.asleep(u) by {
            assert(k0.waits@.contains_key(u));
            assert(k0.processor.asleep(u));
            assert(!ids.subrange(0, n).contains(u)) by {
                if ids.subrange(0, n).contains(u) {
                    let j = choose|j: int| 0 <= j < n && ids.subrange(0, n)[j] == u;
                    assert(ids.subrange(0, n).to_set().contains(u));
                }
            }
        }
        lemma_dequeue(k0, *kernel, WaitSite::Alarm, n);
    }
}

/// `later` is `earlier` after the sleepers `woken` were woken by the clock:
/// they are marked runnable and ready, every other thread keeps its state,
/// and no other thread became ready or left the ready queue.
pub open spec fn tick_woke(earlier: Processor, later: Processor, woken: Seq<ThreadID>) -> bool {
    &&& forall|t: ThreadID|
        #[trigger] earlier.valid_tid(t) ==> later.state_of(t) == if woken.contains(t) {
            ThreadState::Runnable
        } else {
            earlier.state_of(t)
        }
    &&& forall|x: ThreadID| #[trigger] later.is_ready(x) <==> earlier.is_ready(x) || woken.contains(x)
}

/// A timer interrupt: one tick of the alarm clock, then the executing
/// thread is preempted, keeping its place in the ready queue, and the next
/// thread gets the processor.
pub fn timer_interrupt(kernel: &mut Kernel, context: Context) -> (r: Option<Context>)
    requires
        old(kernel).wf(),
        old(kernel).alarm.clock < u64::MAX,
        old(kernel).processor.current_thread is Some,
        old(kernel).processor.thread(old(kernel).processor.current_thread->Some_0).inner.context is None,
    ensures
        final(kernel).wf(),
        final(kernel).alarm.clock == old(kernel).alarm.clock + 1,
        exists|n: int|
            {
                &&& 0 <= n <= old(kernel).alarm.alarm_threads@.len()
                &&& forall|k: int|
                    0 <= k < old(kernel).alarm.alarm_threads@.len() ==> (k < n <==> (
                    #[trigger] old(kernel).alarm.alarm_threads@[k]).alarm_time <= final(kernel).alarm.clock)
                &&& final(kernel).alarm.alarm_threads@ == #[trigger] old(kernel).alarm.alarm_threads@.subrange(
                    n,
                    old(kernel).alarm.alarm_threads@.len() as int,
                )
                &&& tick_woke(
                    old(kernel).processor,
                    final(kernel).processor,
                    alarm_ids(old(kernel).alarm.alarm_threads@.subrange(0, n)),
                )
            },
        r is None <==> !final(kernel).processor.can_run_next(),
        ({
            let cur = old(kernel).processor.current_thread->Some_0;
            let next = final(kernel).processor.current_thread->Some_0;
            &&& r is Some ==> final(kernel).processor.current_thread is Some
            &&& r is Some && next == cur ==> r == Some(context)
            &&& r is Some && next != cur && old(kernel).processor.valid_tid(next) ==> r == old(
                kernel,
            ).processor.thread(next).inner.context
            &&& !(r is Some && next == cur) ==> final(kernel).processor.thread(cur).inner.context == Some(
                context,
            )
        }),
{
    let ghost k0 = *old(kernel);
    tick(kernel);
    let ghost k1 = *kernel;
    let ghost s0 = k0.alarm.alarm_threads@;
    let ghost n = choose|n: int|
        {
            &&& 0 <= n <= s0.len()
            &&& forall|k: int| 0 <= k < s0.len() ==> (k < n <==> (#[trigger] s0[k]).alarm_time <= k1.alarm.clock)
            &&& k1.alarm.alarm_threads@ == #[trigger] s0.subrange(n, s0.len() as int)
            &&& woke_in_order(k0.processor, k1.processor, alarm_ids(s0.subrange(0, n)))
        };
    let cur = kernel.processor.current_thread();
    proof {
        assert(k0.processor.valid_tid(cur));
    }
    kernel.processor.park_current_thread(context);
    proof {
        assert forall|t: ThreadID| #[trigger] k1.processor.valid_tid(t) implies kernel.processor.thread(t).process == k1.processor.thread(t).process by {}
        kernel.lemma_owners_kept(k1);
        assert forall|u: ThreadID| #[trigger] k1.waits@.contains_key(u) implies kernel.processor.asleep(u) by {
            assert(k1.processor.asleep(u));
        }
        lemma_processor_only(k1, *kernel);
    }
    let ghost k2 = *kernel;
    let r = run_next(kernel);
    proof {
        let ids = alarm_ids(s0.subrange(0, n));
        assert forall|t: ThreadID| #[trigger] k0.processor.valid_tid(t) implies kernel.processor.state_of(t) == if ids.contains(
            t,
        ) {
            ThreadState::Runnable
        } else {
            k0.processor.state_of(t)
        } by {
            assert(k1.processor.valid_tid(t));
            assert(k2.processor.valid_tid(t));
            assert(kernel.processor.valid_tid(t));
            assert(k2.processor.state_of(t) == k1.processor.state_of(t));
            assert(kernel.processor.state_of(t) == k2.processor.state_of(t));
        }
        assert forall|x: ThreadID| #[trigger] kernel.processor.is_ready(x) <==> k0.processor.is_ready(x) || ids.contains(x) by {
            assert(k2.processor.scheduler@ == k0.processor.scheduler@ + ids);
            if k0.processor.is_ready(x) {
                let j = choose|j: int| 0 <= j < k0.processor.scheduler@.len() && k0.processor.scheduler@[j] == x;
                assert(k2.processor.scheduler@[j] == x);
            }
            if ids.contains(x) {
                let j = choose|j: int| 0 <= j < ids.len() && ids[j] == x;
                assert(k2.processor.scheduler@[k0.processor.scheduler@.len() + j] == x);
            }
            if k2.processor.is_ready(x) {
                let j = choose|j: int| 0 <= j < k2.processor.scheduler@.len() && k2.processor.scheduler@[j] == x;
                if j < k0.processor.scheduler@.len() {
                    assert(k0.processor.scheduler@[j] == x);
                } else {
                    assert(ids[j - k0.processor.scheduler@.len()] == x);
                }
            }
        }
        assert(tick_woke(k0.processor, kernel.processor, ids));
        if k2.processor.idle_thread is Some {
            let d = k2.processor.idle_thread->Some_0;
            assert(k2.processor.valid_tid(d));
            assert(kernel.processor.state_of(d) == k2.processor.state_of(d));
        }
        if r is Some {
            assert(kernel.processor.can_run_next() == k2.processor.can_run_next());
            let next = k2.processor.next_choice();
            assert(kernel.processor.valid_tid(cur));
            if next != cur && k0.processor.valid_tid(next) {
                assert(k1.processor.valid_tid(next));
                assert(k1.processor.thread(next).inner.context == k0.processor.thread(next).inner.context);
            }
        }
    }
    r
}
} // verus!
