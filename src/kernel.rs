//! The kernel context: the processor, the alarm clock and the process table,
//! and the thread lifecycle operations that touch more than one of them.
use vstd::prelude::*;
use crate::abi::{MutexID, ThreadID};
use crate::alarm::AlarmClock;
use crate::context::Context;
use crate::process::{AllocError, Process, FLAG_READABLE, FLAG_WRITABLE, STACK_SIZE, space_full};
use crate::processor::{Processor, contexts_kept, joins_kept};
use crate::table::{mutex_entries, registered_threads, thread_map_insert};
use crate::thread::{Thread, ThreadState};

verus! {

/// Why a thread could not be created.
#[derive(Clone, Copy, PartialEq, Eq, Structural, Debug)]
pub enum ThreadError {
    /// No room was left for its stack.
    Stack(AllocError),
    /// Thread identifiers are used up.
    OutOfIds,
}

/// A wait structure that can hold a sleeping thread.
#[derive(Clone, Copy, PartialEq, Eq, Structural, Debug)]
pub enum WaitSite {
    /// The alarm clock's sleepers.
    Alarm,
    /// The wait queue of mutex `.1` of process `.0`.
    Mutex(usize, MutexID),
    /// The threads joining thread `.0`.
    Join(ThreadID),
}

/// `q` holds each of its threads once, and `w` places each of them at `site`.
pub open spec fn held_at(q: Seq<ThreadID>, w: Map<ThreadID, WaitSite>, site: WaitSite) -> bool {
    &&& q.no_duplicates()
    &&& forall|k: int| 0 <= k < q.len() ==> w.contains_key(#[trigger] q[k]) && w[q[k]] == site
}

/// Everything the trap handler works on, passed explicitly rather than held
/// in globals.
pub struct Kernel {
    pub processor: Processor,
    pub alarm: AlarmClock,
    pub processes: Vec<Process>,
    /// Where each waiting thread waits.
    pub waits: Ghost<Map<ThreadID, WaitSite>>,
}

impl Kernel {
    /// The kernel's invariant: its tables are consistent, and every waiting
    /// thread waits in exactly one wait structure.
    pub open spec fn wf(&self) -> bool {
        &&& self.wf_tables()
        &&& self.exclusive()
    }

    /// The consistency of the tables: the processor's and the clock's
    /// invariants hold, every thread belongs to a process of the table, and
    /// every process is well formed.
    pub open spec fn wf_tables(&self) -> bool {
        &&& self.processor.wf()
        &&& self.alarm.wf()
        &&& forall|i: int|
            0 <= i < self.processor.threads@.len() ==> (#[trigger] self.processor.threads@[i]).process
                < self.processes@.len()
        &&& forall|j: int| 0 <= j < self.processes@.len() ==> (#[trigger] self.processes@[j]).wf()
    }

    /// The state in which a trap from the executing thread reaches the
    /// kernel: the invariant holds, and a runnable thread is executing with
    /// no saved registers.
    pub open spec fn at_trap(&self) -> bool {
        &&& self.wf()
        &&& self.processor.current_thread matches Some(c)
        &&& self.processor.state_of(c) == ThreadState::Runnable
        &&& self.processor.thread(c).inner.context is None
    }

    /// What a system-call handler keeps: the invariant, the executing thread,
    /// which is not ended, and the saved registers of every thread.
    pub open spec fn handled_from(&self, before: Kernel) -> bool {
        &&& self.wf()
        &&& self.processor.current_thread == before.processor.current_thread
        &&& self.processor.threads@.len() >= before.processor.threads@.len()
        &&& contexts_kept(before.processor, self.processor)
        &&& self.processor.state_of(self.processor.current_thread->Some_0) != ThreadState::Dead
        &&& self.processes@.len() == before.processes@.len()
    }

    /// The threads queued in the wait structure `site`.
    pub open spec fn waiters(&self, site: WaitSite) -> Seq<ThreadID> {
        match site {
            WaitSite::Alarm => self.alarm.sleepers(),
            WaitSite::Mutex(p, m) => if p < self.processes@.len() && mutex_entries(
                self.processes@[p as int].inner.mutex_queue,
            ).contains_key(m) {
                mutex_entries(self.processes@[p as int].inner.mutex_queue)[m].queue@
            } else {
                Seq::empty()
            },
            WaitSite::Join(u) => if self.processor.valid_tid(u) {
                self.processor.thread(u).join_handle@
            } else {
                Seq::empty()
            },
        }
    }

    /// Sleeping threads are owned by exactly one wait structure: `waits`
    /// names it, each structure holds exactly the threads placed there, once
    /// each, and every placed thread is asleep.
    pub open spec fn exclusive(&self) -> bool {
        &&& forall|site: WaitSite| held_at(#[trigger] self.waiters(site), self.waits@, site)
        &&& forall|t: ThreadID| #[trigger] self.waits@.contains_key(t) ==> self.processor.asleep(t)
    }

    /// The process of the executing thread.
    pub open spec fn current_process(&self) -> int {
        self.processor.thread(self.processor.current_thread->Some_0).process as int
    }

    /// A kernel with no process, no thread, and the clock at zero.
    pub fn new() -> (k: Kernel)
        ensures
            k.wf(),
            k.processes@.len() == 0,
            k.processor.threads@.len() == 0,
            k.processor.current_thread is None,
            k.alarm.clock == 0,
            k.alarm.alarm_threads@.len() == 0,
    {
        Kernel {
            processor: Processor::new(),
            alarm: AlarmClock::new(),
            processes: Vec::new(),
            waits: Ghost(Map::empty()),
        }
    }

    /// Adds a process to the table and returns its index.
    pub fn add_process(&mut self, p: Process) -> (i: usize)
        requires
            old(self).wf(),
            p.wf(),
            mutex_entries(p.inner.mutex_queue).dom() == Set::<MutexID>::empty(),
        ensures
            final(self).wf(),
            i == old(self).processes@.len(),
            final(self).processes@ == old(self).processes@.push(p),
            final(self).processor == old(self).processor,
            final(self).alarm == old(self).alarm,
    {
        let i = self.processes.len();
        self.processes.push(p);
        assert forall|j: int| 0 <= j < self.processor.threads@.len() implies (
        #[trigger] self.processor.threads@[j]).process < self.processes@.len() by {
            assert(old(self).processor.threads@[j].process < old(self).processes@.len());
        }
        proof {
            let k0 = *old(self);
            assert forall|s: WaitSite| #[trigger] self.waiters(s) == k0.waiters(s) by {
                if let WaitSite::Mutex(q, m) = s {
                    if q < k0.processes@.len() {
                        assert(self.processes@[q as int] == k0.processes@[q as int]);
                    } else if q == k0.processes@.len() {
                        assert(!mutex_entries(p.inner.mutex_queue).dom().contains(m));
                    }
                }
            }
            assert forall|s: WaitSite| held_at(#[trigger] self.waiters(s), self.waits@, s) by {
                assert(held_at(k0.waiters(s), k0.waits@, s));
            }
        }
        i
    }

    /// Creates a runnable thread of `process`: a fresh stack in the
    /// process's address space, registers set to start at `entry_point` with
    /// `arguments`, the return address `exit_fn` when given, and the thread
    /// registered in its process. The thread is not queued yet.
    pub fn build_thread(
        &mut self,
        process: usize,
        entry_point: usize,
        arguments: &[usize],
        exit_fn: Option<usize>,
    ) -> (r: Result<ThreadID, ThreadError>)
        requires
            old(self).wf(),
            process < old(self).processes@.len(),
            arguments@.len() <= 8,
        ensures
            final(self).wf(),
            final(self).processes@.len() == old(self).processes@.len(),
            final(self).alarm == old(self).alarm,
            final(self).processor.scheduler@ == old(self).processor.scheduler@,
            final(self).processor.current_thread == old(self).processor.current_thread,
            final(self).processor.idle_thread == old(self).processor.idle_thread,
            forall|u: ThreadID|
                #[trigger] old(self).processor.valid_tid(u) ==> final(self).processor.valid_tid(u)
                    && final(self).processor.thread(u) == old(self).processor.thread(u),
            forall|j: int|
                0 <= j < old(self).processes@.len() && j != process ==> #[trigger] final(self).processes@[j]
                    == old(self).processes@[j],
            match r {
                Ok(t) => {
                    &&& t == old(self).processor.threads@.len() + 1
                    &&& old(self).processor.threads@.len() + 1 < isize::MAX
                    &&& !space_full(old(self).processes@[process as int].inner.memory_set.segments@, STACK_SIZE)
                    &&& final(self).processor.threads@.len() == t
                    &&& final(self).processor.thread(t).process == process
                    &&& final(self).processor.state_of(t) == ThreadState::Runnable
                    &&& final(self).processor.thread(t).join_handle@.len() == 0
                    &&& final(self).processor.thread(t).inner.context matches Some(c) && c.sepc
                        == entry_point && (exit_fn matches Some(ra) ==> c.x@[1] == ra) && (forall|i: int|
                        0 <= i < arguments@.len() ==> c.x@[10 + i] == arguments@[i])
                    &&& registered_threads(final(self).processes@[process as int].inner.threads)
                        == registered_threads(old(self).processes@[process as int].inner.threads).insert(t)
                },
                Err(e) => {
                    &&& e == ThreadError::OutOfIds ==> old(self).processor.threads@.len() + 1 >= isize::MAX
                    &&& e is Stack ==> space_full(
                        old(self).processes@[process as int].inner.memory_set.segments@,
                        STACK_SIZE,
                    )
                    &&& final(self).processor.threads@ == old(self).processor.threads@
                    &&& registered_threads(final(self).processes@[process as int].inner.threads)
                        == registered_threads(old(self).processes@[process as int].inner.threads)
                },
            },
    {
        let stack = match self.processes[process].alloc_page_range(
            STACK_SIZE,
            FLAG_READABLE | FLAG_WRITABLE,
        ) {
            Ok(range) => range,
            Err(e) => {
                proof {
                    assert(old(self).processes@[process as int].wf());
                    self.lemma_processes_wf(*old(self), process as int);
                    self.lemma_tables_kept(*old(self), process as int);
                }
                return Err(ThreadError::Stack(e));
            },
        };
        let is_user = self.processes[process].is_user;
        let mut context = Context::new(stack.end, entry_point, arguments, is_user);
        if let Some(ra) = exit_fn {
            context.set_ra(ra);
        }
        let t = match self.processor.new_thread(process, stack, context) {
            Some(t) => t,
            None => {
                proof {
                    assert(old(self).processes@[process as int].wf());
                    self.lemma_processes_wf(*old(self), process as int);
                    self.lemma_tables_kept(*old(self), process as int);
                }
                return Err(ThreadError::OutOfIds);
            },
        };
        thread_map_insert(&mut self.processes[process].inner.threads, t);
        proof {
            assert(old(self).processes@[process as int].wf());
            self.lemma_processes_wf(*old(self), process as int);
            assert forall|j: int| 0 <= j < self.processor.threads@.len() implies (
            #[trigger] self.processor.threads@[j]).process < self.processes@.len() by {
                if j < old(self).processor.threads@.len() {
                    assert(self.processor.threads@[j] == old(self).processor.threads@[j]);
                    assert(old(self).processor.threads@[j].process < old(self).processes@.len());
                }
            }
            assert forall|u: ThreadID| #[trigger] old(self).processor.valid_tid(u) implies self.processor.valid_tid(u)
                && self.processor.thread(u) == old(self).processor.thread(u) by {
                assert(self.processor.threads@.drop_last()[u - 1] == self.processor.threads@[u - 1]);
            }
            self.lemma_tables_kept(*old(self), process as int);
        }
        Ok(t)
    }

    /// Creates a thread of `process` that starts at `entry_point` with
    /// `arguments` and continues at `exit_fn` when its function returns, and
    /// queues it.
    pub fn create_kernel_thread(
        &mut self,
        process: usize,
        entry_point: usize,
        arguments: &[usize],
        exit_fn: usize,
    ) -> (r: Result<ThreadID, ThreadError>)
        requires
            old(self).wf(),
            process < old(self).processes@.len(),
            arguments@.len() <= 8,
        ensures
            final(self).wf(),
            final(self).processor.current_thread == old(self).processor.current_thread,
            old(self).processor.threads@.len() + 1 < isize::MAX && !space_full(
                old(self).processes@[process as int].inner.memory_set.segments@,
                STACK_SIZE,
            ) ==> r is Ok,
            match r {
                Ok(t) => {
                    &&& t == old(self).processor.threads@.len() + 1
                    &&& final(self).processor.scheduler@ == old(self).processor.scheduler@.push(t)
                    &&& final(self).processor.thread(t).process == process
                    &&& final(self).processor.state_of(t) == ThreadState::Runnable
                },
                Err(_) => {
                    &&& final(self).processor.threads@ == old(self).processor.threads@
                    &&& final(self).processor.scheduler@ == old(self).processor.scheduler@
                },
            },
    {
        let r = self.build_thread(process, entry_point, arguments, Some(exit_fn));
        if let Ok(t) = r {
            assert(!self.processor.scheduler@.contains(t)) by {
                if self.processor.scheduler@.contains(t) {
                    let k = choose|k: int| 0 <= k < self.processor.scheduler@.len() && self.processor.scheduler@[k] == t;
                    assert(old(self).processor.valid_tid(self.processor.scheduler@[k]));
                }
            }
            let ghost k0 = *self;
            self.processor.add_thread(t);
            proof {
                lemma_processor_only(k0, *self);
            }
        }
        r
    }

    /// Creates the thread that runs when every other thread sleeps: it starts
    /// at `entry_point`, which waits for interrupts, and is never queued.
    pub fn create_idle_thread(&mut self, process: usize, entry_point: usize) -> (r: Result<ThreadID, ThreadError>)
        requires
            old(self).wf(),
            process < old(self).processes@.len(),
        ensures
            final(self).wf(),
            final(self).processor.scheduler@ == old(self).processor.scheduler@,
            final(self).processor.current_thread == old(self).processor.current_thread,
            old(self).processor.threads@.len() + 1 < isize::MAX && !space_full(
                old(self).processes@[process as int].inner.memory_set.segments@,
                STACK_SIZE,
            ) ==> r is Ok,
            r matches Ok(t) ==> final(self).processor.idle_thread == Some(t)
                && final(self).processor.state_of(t) == ThreadState::Runnable,
            r is Err ==> final(self).processor.idle_thread == old(self).processor.idle_thread,
    {
        let no_args: Vec<usize> = Vec::new();
        let r = self.build_thread(process, entry_point, no_args.as_slice(), None);
        if let Ok(t) = r {
            let ghost k0 = *self;
            self.processor.set_idle_thread(t);
            proof {
                lemma_processor_only(k0, *self);
            }
        }
        r
    }

    /// Only process `i` changed, keeping its mutex table, and only threads
    /// were added to the processor: no wait structure changed.
    pub(crate) proof fn lemma_tables_kept(&self, before: Kernel, i: int)
        requires
            before.exclusive(),
            self.processes@.len() == before.processes@.len(),
            forall|j: int| 0 <= j < before.processes@.len() && j != i ==> #[trigger] self.processes@[j] == before.processes@[j],
            0 <= i < before.processes@.len(),
            self.processes@[i].inner.mutex_queue == before.processes@[i].inner.mutex_queue,
            self.waits == before.waits,
            self.alarm == before.alarm,
            joins_kept(before.processor, self.processor),
            forall|u: ThreadID| #[trigger] before.processor.valid_tid(u) ==> self.processor.valid_tid(u)
                && self.processor.thread(u).inner == before.processor.thread(u).inner,
        ensures
            self.exclusive(),
    {
        assert forall|j: int| 0 <= j < before.processes@.len() implies mutex_entries(#[trigger] self.processes@[j].inner.mutex_queue)
            == mutex_entries(before.processes@[j].inner.mutex_queue) by {
            if j != i {
                assert(self.processes@[j] == before.processes@[j]);
            }
        }
        assert forall|u: ThreadID| #[trigger] before.waits@.contains_key(u) implies self.processor.asleep(u) by {
            assert(before.processor.asleep(u));
        }
        lemma_sites_kept(before, *self);
    }

    /// Only process `i` changed, and it is still well formed, so every
    /// process is.
    pub(crate) proof fn lemma_processes_wf(&self, before: Kernel, i: int)
        requires
            forall|j: int| 0 <= j < before.processes@.len() ==> (#[trigger] before.processes@[j]).wf(),
            self.processes@.len() == before.processes@.len(),
            forall|j: int| 0 <= j < before.processes@.len() && j != i ==> #[trigger] self.processes@[j] == before.processes@[j],
            0 <= i < before.processes@.len(),
            self.processes@[i].wf(),
        ensures
            forall|j: int| 0 <= j < self.processes@.len() ==> (#[trigger] self.processes@[j]).wf(),
    {
        assert forall|j: int| 0 <= j < self.processes@.len() implies (#[trigger] self.processes@[j]).wf() by {
            if j != i {
                assert(before.processes@[j].wf());
            }
        }
    }

    /// Owners are kept when thread records change but none is added or
    /// loses its process.
    pub(crate) proof fn lemma_owners_kept(&self, before: Kernel)
        requires
            forall|i: int|
                0 <= i < before.processor.threads@.len() ==> (#[trigger] before.processor.threads@[i]).process
                    < before.processes@.len(),
            self.processor.threads@.len() == before.processor.threads@.len(),
            before.processor.threads@.len() < isize::MAX,
            self.processes@.len() == before.processes@.len(),
            forall|t: ThreadID|
                #[trigger] before.processor.valid_tid(t) ==> self.processor.thread(t).process
                    == before.processor.thread(t).process,
        ensures
            forall|i: int|
                0 <= i < self.processor.threads@.len() ==> (#[trigger] self.processor.threads@[i]).process
                    < self.processes@.len(),
    {
        assert forall|i: int| 0 <= i < self.processor.threads@.len() implies (
        #[trigger] self.processor.threads@[i]).process < self.processes@.len() by {
            let t = (i + 1) as ThreadID;
            assert(before.processor.valid_tid(t));
            assert(self.processor.thread(t).process == before.processor.thread(t).process);
            assert(before.processor.threads@[i].process < before.processes@.len());
        }
    }
}

impl Thread {
    /// Creates a thread of `process`: a fresh stack in the process's address
    /// space, the next unused identifier, registers set to start at
    /// `entry_point` with `arguments`, and the thread registered in its
    /// process. It fails, changing no thread and no registration, exactly
    /// when identifiers are used up or no stack fits. The thread is runnable
    /// but not queued yet.
    pub fn new(kernel: &mut Kernel, process: usize, entry_point: usize, arguments: &[usize]) -> (r:
        Result<ThreadID, ThreadError>)
        requires
            old(kernel).wf(),
            process < old(kernel).processes@.len(),
            arguments@.len() <= 8,
        ensures
            final(kernel).wf(),
            final(kernel).processes@.len() == old(kernel).processes@.len(),
            final(kernel).alarm == old(kernel).alarm,
            final(kernel).processor.scheduler@ == old(kernel).processor.scheduler@,
            final(kernel).processor.current_thread == old(kernel).processor.current_thread,
            forall|u: ThreadID|
                #[trigger] old(kernel).processor.valid_tid(u) ==> final(kernel).processor.valid_tid(u)
                    && final(kernel).processor.thread(u) == old(kernel).processor.thread(u),
            r is Ok <==> old(kernel).processor.threads@.len() + 1 < isize::MAX && !space_full(
                old(kernel).processes@[process as int].inner.memory_set.segments@,
                STACK_SIZE,
            ),
            match r {
                Ok(t) => {
                    &&& t == old(kernel).processor.threads@.len() + 1
                    &&& final(kernel).processor.threads@.len() == t
                    &&& final(kernel).processor.thread(t).process == process
                    &&& final(kernel).processor.state_of(t) == ThreadState::Runnable
                    &&& final(kernel).processor.thread(t).join_handle@.len() == 0
                    &&& final(kernel).processor.thread(t).inner.context matches Some(c) && c.sepc
                        == entry_point && (forall|i: int|
                        0 <= i < arguments@.len() ==> c.x@[10 + i] == arguments@[i])
                    &&& registered_threads(final(kernel).processes@[process as int].inner.threads)
                        == registered_threads(old(kernel).processes@[process as int].inner.threads).insert(t)
                },
                Err(_) => {
                    &&& final(kernel).processor.threads@ == old(kernel).processor.threads@
                    &&& registered_threads(final(kernel).processes@[process as int].inner.threads)
                        == registered_threads(old(kernel).processes@[process as int].inner.threads)
                },
            },
    {
        kernel.build_thread(process, entry_point, arguments, None)
    }

    /// Creates a thread in the executing thread's process that starts at
    /// `entry_point` with `arg` and continues at `exit_fn` when its function
    /// returns. The thread is not queued yet.
    pub fn spawn(kernel: &mut Kernel, entry_point: usize, exit_fn: usize, arg: usize) -> (r: Result<
        ThreadID,
        ThreadError,
    >)
        requires
            old(kernel).wf(),
            old(kernel).processor.current_thread is Some,
        ensures
            final(kernel).wf(),
            final(kernel).processes@.len() == old(kernel).processes@.len(),
            final(kernel).alarm == old(kernel).alarm,
            final(kernel).processor.scheduler@ == old(kernel).processor.scheduler@,
            final(kernel).processor.current_thread == old(kernel).processor.current_thread,
            final(kernel).processor.idle_thread == old(kernel).processor.idle_thread,
            forall|u: ThreadID|
                #[trigger] old(kernel).processor.valid_tid(u) ==> final(kernel).processor.valid_tid(u)
                    && final(kernel).processor.thread(u) == old(kernel).processor.thread(u),
            old(kernel).processor.threads@.len() + 1 < isize::MAX && !space_full(
                old(kernel).processes@[old(kernel).current_process()].inner.memory_set.segments@,
                STACK_SIZE,
            ) ==> r is Ok,
            match r {
                Ok(t) => {
                    let p = old(kernel).current_process();
                    &&& t == old(kernel).processor.threads@.len() + 1
                    &&& old(kernel).processor.threads@.len() + 1 < isize::MAX
                    &&& !space_full(old(kernel).processes@[p].inner.memory_set.segments@, STACK_SIZE)
                    &&& final(kernel).processor.threads@.len() == t
                    &&& final(kernel).processor.thread(t).process == p
                    &&& final(kernel).processor.state_of(t) == ThreadState::Runnable
                    &&& final(kernel).processor.thread(t).inner.context matches Some(c) && c.sepc
                        == entry_point && c.x@[1] == exit_fn && c.x@[10] == arg
                    &&& registered_threads(final(kernel).processes@[p].inner.threads)
                        == registered_threads(old(kernel).processes@[p].inner.threads).insert(t)
                },
                Err(_) => {
                    let p = old(kernel).current_process();
                    &&& final(kernel).processor.threads@ == old(kernel).processor.threads@
                    &&& registered_threads(final(kernel).processes@[p].inner.threads)
                        == registered_threads(old(kernel).processes@[p].inner.threads)
                },
            },
    {
        let cur = kernel.processor.current_thread();
        let p = kernel.processor.thread_process(cur);
        let mut args: Vec<usize> = Vec::new();
        args.push(arg);
        let r = kernel.build_thread(p, entry_point, args.as_slice(), Some(exit_fn));
        assert(args@[0] == arg);
        r
    }
}

/// The mutex tables of `k1` are those of `k0`.
pub open spec fn mutexes_kept(k0: Kernel, k1: Kernel) -> bool {
    &&& k1.processes@.len() == k0.processes@.len()
    &&& forall|p: int| 0 <= p < k0.processes@.len() ==> mutex_entries(#[trigger] k1.processes@[p].inner.mutex_queue)
        == mutex_entries(k0.processes@[p].inner.mutex_queue)
}

/// Wait structures other than `site` hold the same threads in `k1` as in
/// `k0`, given which families of structures were kept.
pub proof fn lemma_other_sites(k0: Kernel, k1: Kernel, site: WaitSite)
    requires
        site != WaitSite::Alarm ==> k1.alarm.alarm_threads@ == k0.alarm.alarm_threads@,
        !(site is Mutex) ==> mutexes_kept(k0, k1),
        site is Mutex ==> k1.processes@.len() == k0.processes@.len() && forall|p: int|
            0 <= p < k0.processes@.len() && p != site->Mutex_0 ==> mutex_entries(#[trigger] k1.processes@[p].inner.mutex_queue)
                == mutex_entries(k0.processes@[p].inner.mutex_queue),
        site is Mutex ==> forall|m: MutexID| m != site->Mutex_1 ==> (#[trigger] mutex_entries(k1.processes@[site->Mutex_0 as int].inner.mutex_queue).contains_key(m)
            == mutex_entries(k0.processes@[site->Mutex_0 as int].inner.mutex_queue).contains_key(m)) && (mutex_entries(k0.processes@[site->Mutex_0 as int].inner.mutex_queue).contains_key(m)
            ==> mutex_entries(k1.processes@[site->Mutex_0 as int].inner.mutex_queue)[m].queue@ == mutex_entries(k0.processes@[site->Mutex_0 as int].inner.mutex_queue)[m].queue@),
        joins_kept(k0.processor, k1.processor) || (site is Join && k1.processor.threads@.len() == k0.processor.threads@.len() && forall|u: ThreadID|
            #[trigger] k0.processor.valid_tid(u) && u != site->Join_0 ==> k1.processor.thread(u).join_handle@ == k0.processor.thread(u).join_handle@),
    ensures
        forall|s: WaitSite| s != site ==> #[trigger] k1.waiters(s) == k0.waiters(s),
{
    assert forall|s: WaitSite| s != site implies #[trigger] k1.waiters(s) == k0.waiters(s) by {
        match s {
            WaitSite::Alarm => {},
            WaitSite::Mutex(p, m) => {
                if p < k0.processes@.len() {
                    let e0 = mutex_entries(k0.processes@[p as int].inner.mutex_queue);
                    let e1 = mutex_entries(k1.processes@[p as int].inner.mutex_queue);
                    if site is Mutex && p == site->Mutex_0 {
                        assert(m != site->Mutex_1);
                        assert(e1.contains_key(m) == e0.contains_key(m));
                    } else {
                        assert(e1 == e0);
                    }
                }
            },
            WaitSite::Join(u) => {
                if k0.processor.valid_tid(u) {
                } else if k1.processor.valid_tid(u) {
                }
            },
        }
    }
}

/// No wait structure and no place changed, and every placed thread is
/// still asleep.
pub proof fn lemma_sites_kept(k0: Kernel, k1: Kernel)
    requires
        k0.exclusive(),
        k1.waits@ == k0.waits@,
        k1.alarm.alarm_threads@ == k0.alarm.alarm_threads@,
        mutexes_kept(k0, k1),
        joins_kept(k0.processor, k1.processor),
        forall|u: ThreadID| #[trigger] k0.waits@.contains_key(u) ==> k1.processor.asleep(u),
    ensures
        k1.exclusive(),
{
    lemma_other_sites(k0, k1, WaitSite::Alarm);
    assert forall|s: WaitSite| held_at(#[trigger] k1.waiters(s), k1.waits@, s) by {
        assert(held_at(k0.waiters(s), k0.waits@, s));
        if s == WaitSite::Alarm {
            assert(k1.waiters(s) == k0.waiters(s));
        }
    }
}

/// Only the processor changed, keeping join queues and the states of the
/// threads in it.
pub proof fn lemma_processor_only(k0: Kernel, k1: Kernel)
    requires
        k0.exclusive(),
        k1.processes == k0.processes,
        k1.alarm == k0.alarm,
        k1.waits == k0.waits,
        joins_kept(k0.processor, k1.processor),
        forall|u: ThreadID| #[trigger] k0.waits@.contains_key(u) ==> k1.processor.asleep(u),
    ensures
        k1.exclusive(),
{
    lemma_sites_kept(k0, k1);
}

/// Every wait structure holds what it held, the places are the same, and
/// every placed thread is still asleep.
pub proof fn lemma_same_waiters(k0: Kernel, k1: Kernel)
    requires
        k0.exclusive(),
        forall|s: WaitSite| #[trigger] k1.waiters(s) == k0.waiters(s),
        k1.waits@ == k0.waits@,
        forall|u: ThreadID| #[trigger] k0.waits@.contains_key(u) ==> k1.processor.asleep(u),
    ensures
        k1.exclusive(),
{
    assert forall|s: WaitSite| held_at(#[trigger] k1.waiters(s), k1.waits@, s) by {
        assert(held_at(k0.waiters(s), k0.waits@, s));
    }
}

/// A thread that was in no wait structure joins `site`: `waits` places it
/// there and nothing else changed for the other threads.
pub proof fn lemma_enqueue(k0: Kernel, k1: Kernel, t: ThreadID, site: WaitSite, pos: int)
    requires
        k0.exclusive(),
        !k0.processor.asleep(t),
        0 <= pos <= k0.waiters(site).len(),
        k1.waiters(site) == k0.waiters(site).insert(pos, t),
        forall|s: WaitSite| s != site ==> #[trigger] k1.waiters(s) == k0.waiters(s),
        k1.waits@ == k0.waits@.insert(t, site),
        k1.processor.asleep(t),
        forall|u: ThreadID| #[trigger] k0.waits@.contains_key(u) ==> k1.processor.asleep(u),
    ensures
        k1.exclusive(),
{
    let w0 = k0.waits@;
    let w1 = k1.waits@;
    assert(!w0.contains_key(t));
    assert forall|s: WaitSite| held_at(#[trigger] k1.waiters(s), w1, s) by {
        let q0 = k0.waiters(s);
        assert(held_at(q0, w0, s));
        assert(!q0.contains(t)) by {
            if q0.contains(t) {
                let k = choose|k: int| 0 <= k < q0.len() && q0[k] == t;
                assert(w0.contains_key(q0[k]));
            }
        }
        if s == site {
            let q1 = k1.waiters(s);
            assert forall|a: int, b: int| 0 <= a < b < q1.len() implies q1[a] != q1[b] by {
                if a < pos && b < pos {
                } else if a < pos && b == pos {
                    assert(q1[a] == q0[a]);
                } else if a < pos {
                    assert(q1[a] == q0[a]);
                    assert(q1[b] == q0[b - 1]);
                } else if a == pos {
                    assert(q1[b] == q0[b - 1]);
                    assert(q0.contains(q0[b - 1]));
                } else {
                    assert(q1[a] == q0[a - 1]);
                    assert(q1[b] == q0[b - 1]);
                }
            }
            assert forall|k: int| 0 <= k < q1.len() implies w1.contains_key(#[trigger] q1[k]) && w1[q1[k]] == s by {
                if k < pos {
                    assert(q1[k] == q0[k]);
                } else if k > pos {
                    assert(q1[k] == q0[k - 1]);
                }
            }
        } else {
            assert forall|k: int| 0 <= k < q0.len() implies w1.contains_key(#[trigger] q0[k]) && w1[q0[k]] == s by {
                assert(q0[k] != t);
            }
        }
    }
}

/// The first `n` threads of `site` left it and their places were dropped
/// from `waits`; every thread still placed is asleep.
pub proof fn lemma_dequeue(k0: Kernel, k1: Kernel, site: WaitSite, n: int)
    requires
        k0.exclusive(),
        0 <= n <= k0.waiters(site).len(),
        k1.waiters(site) == k0.waiters(site).subrange(n, k0.waiters(site).len() as int),
        forall|s: WaitSite| s != site ==> #[trigger] k1.waiters(s) == k0.waiters(s),
        k1.waits@ == k0.waits@.remove_keys(k0.waiters(site).subrange(0, n).to_set()),
        forall|u: ThreadID| #[trigger] k1.waits@.contains_key(u) ==> k1.processor.asleep(u),
    ensures
        k1.exclusive(),
{
    let w0 = k0.waits@;
    let w1 = k1.waits@;
    let gone = k0.waiters(site).subrange(0, n).to_set();
    assert forall|s: WaitSite| held_at(#[trigger] k1.waiters(s), w1, s) by {
        let q0 = k0.waiters(s);
        assert(held_at(q0, w0, s));
        if s == site {
            let q1 = k1.waiters(s);
            assert forall|k: int| 0 <= k < q1.len() implies w1.contains_key(#[trigger] q1[k]) && w1[q1[k]] == s by {
                assert(q1[k] == q0[k + n]);
                assert(!gone.contains(q1[k])) by {
                    if gone.contains(q1[k]) {
                        let j = choose|j: int| 0 <= j < n && q0.subrange(0, n)[j] == q1[k];
                        assert(q0[j] == q0[k + n]);
                    }
                }
            }
            assert forall|a: int, b: int| 0 <= a < b < q1.len() implies q1[a] != q1[b] by {
                assert(q1[a] == q0[a + n]);
                assert(q1[b] == q0[b + n]);
            }
        } else {
            assert forall|k: int| 0 <= k < q0.len() implies w1.contains_key(#[trigger] q0[k]) && w1[q0[k]] == s by {
                assert(!gone.contains(q0[k])) by {
                    if gone.contains(q0[k]) {
                        let j = choose|j: int| 0 <= j < n && k0.waiters(site).subrange(0, n)[j] == q0[k];
                        assert(w0[k0.waiters(site)[j]] == site);
                    }
                }
            }
        }
    }
}

/// With the invariant, a thread waits in at most one structure, and a
/// waiting thread is not in the ready queue.
pub proof fn lemma_one_wait_structure(k: Kernel, t: ThreadID, s1: WaitSite, s2: WaitSite)
    requires
        k.wf(),
        k.waiters(s1).contains(t),
    ensures
        k.waiters(s2).contains(t) ==> s1 == s2,
        !k.processor.is_ready(t),
{
    assert(held_at(k.waiters(s1), k.waits@, s1));
    assert(held_at(k.waiters(s2), k.waits@, s2));
    let i = choose|i: int| 0 <= i < k.waiters(s1).len() && k.waiters(s1)[i] == t;
    assert(k.waits@[t] == s1);
    if k.waiters(s2).contains(t) {
        let j = choose|j: int| 0 <= j < k.waiters(s2).len() && k.waiters(s2)[j] == t;
        assert(k.waits@[t] == s2);
    }
    assert(k.processor.asleep(t));
    if k.processor.is_ready(t) {
        let r = choose|r: int| 0 <= r < k.processor.scheduler@.len() && k.processor.scheduler@[r] == t;
        assert(k.processor.state_of(k.processor.scheduler@[r]) == ThreadState::Runnable);
    }
}

} // verus!
