//! The single-core scheduling authority.
use vstd::prelude::*;
use crate::abi::ThreadID;
use crate::condvar::Condvar;
use crate::context::Context;
use crate::memory::Range;
use crate::scheduler::{FifoScheduler, is_removal, lemma_removal};
use crate::thread::{Thread, ThreadState, with_context, with_state};

verus! {

/// Number of sleeping threads in `s`.
pub open spec fn count_sleeping(s: Seq<Thread>) -> nat
    decreases s.len(),
{
    if s.len() == 0 {
        0
    } else {
        count_sleeping(s.drop_last()) + if s.last().inner.state == ThreadState::Sleeping {
            1nat
        } else {
            0nat
        }
    }
}

/// One for a sleeping thread, zero for another.
pub open spec fn sleeping_weight(t: Thread) -> nat {
    if t.inner.state == ThreadState::Sleeping {
        1
    } else {
        0
    }
}

proof fn lemma_count_bounded(s: Seq<Thread>)
    ensures
        count_sleeping(s) <= s.len(),
    decreases s.len(),
{
    if s.len() > 0 {
        lemma_count_bounded(s.drop_last());
    }
}

proof fn lemma_count_push(s: Seq<Thread>, t: Thread)
    ensures
        count_sleeping(s.push(t)) == count_sleeping(s) + sleeping_weight(t),
{
    assert(s.push(t).drop_last() =~= s);
}

proof fn lemma_count_update(s: Seq<Thread>, i: int, t: Thread)
    requires
        0 <= i < s.len(),
    ensures
        count_sleeping(s.update(i, t)) + sleeping_weight(s[i]) == count_sleeping(s) + sleeping_weight(
            t,
        ),
    decreases s.len(),
{
    if i == s.len() - 1 {
        assert(s.update(i, t).drop_last() =~= s.drop_last());
    } else {
        lemma_count_update(s.drop_last(), i, t);
        assert(s.update(i, t).drop_last() =~= s.drop_last().update(i, t));
    }
}

/// `later` is `earlier` after waking the threads `ts` in order: they are queued at
/// the tail and marked runnable, and no other thread changed.
pub open spec fn woke_in_order(earlier: Processor, later: Processor, ts: Seq<ThreadID>) -> bool {
    &&& later.scheduler@ == earlier.scheduler@ + ts
    &&& later.threads@.len() == earlier.threads@.len()
    &&& forall|t: ThreadID|
        earlier.valid_tid(t) ==> #[trigger] later.thread(t) == if ts.contains(t) {
            with_state(earlier.thread(t), ThreadState::Runnable)
        } else {
            earlier.thread(t)
        }
}

/// The join queues of `later` are those of `earlier`, and threads new in `later` have
/// empty ones.
pub open spec fn joins_kept(earlier: Processor, later: Processor) -> bool {
    &&& later.threads@.len() >= earlier.threads@.len()
    &&& forall|u: ThreadID| #[trigger] earlier.valid_tid(u) ==> later.thread(u).join_handle@ == earlier.thread(u).join_handle@
    &&& forall|u: ThreadID| #[trigger] later.valid_tid(u) && !earlier.valid_tid(u) ==> later.thread(u).join_handle@.len() == 0
}

/// `later` is `earlier` after some of its threads were woken, and nothing else
/// happened to any thread record.
pub open spec fn only_woken(earlier: Processor, later: Processor) -> bool {
    &&& later.threads@.len() == earlier.threads@.len()
    &&& forall|t: ThreadID|
        #[trigger] earlier.valid_tid(t) ==> later.thread(t) == earlier.thread(t) || (earlier.asleep(t) && later.thread(t)
            == with_state(earlier.thread(t), ThreadState::Runnable))
}

/// A thread in the ready queue is in no wait queue whose entries are
/// sleeping threads: the ready queue holds runnable threads only, each once.
pub proof fn lemma_ready_excludes_waiting(p: Processor, q: Seq<ThreadID>, t: ThreadID)
    requires
        p.wf(),
        p.all_asleep(q),
        p.is_ready(t),
    ensures
        !q.contains(t),
        p.state_of(t) == ThreadState::Runnable,
        p.scheduler@.no_duplicates(),
{
    let k = choose|k: int| 0 <= k < p.scheduler@.len() && p.scheduler@[k] == t;
    assert(p.state_of(p.scheduler@[k]) == ThreadState::Runnable);
    if q.contains(t) {
        let j = choose|j: int| 0 <= j < q.len() && q[j] == t;
        assert(p.state_of(q[j]) == ThreadState::Sleeping);
    }
}

/// Every thread of `earlier` has in `later` the saved registers it had.
pub open spec fn contexts_kept(earlier: Processor, later: Processor) -> bool {
    forall|t: ThreadID| #[trigger] earlier.valid_tid(t) ==> later.valid_tid(t) && later.thread(t).inner.context
        == earlier.thread(t).inner.context
}

/// The entries of `q` that name sleeping threads of `p`, in order.
pub open spec fn asleep_among(p: Processor, q: Seq<ThreadID>) -> Seq<ThreadID> {
    q.filter(|x: ThreadID| p.asleep(x))
}

proof fn lemma_asleep_among_push(p: Processor, s: Seq<ThreadID>, t: ThreadID)
    ensures
        asleep_among(p, s.push(t)) == if p.asleep(t) {
            asleep_among(p, s).push(t)
        } else {
            asleep_among(p, s)
        },
{
    reveal(Seq::filter);
    assert(s.push(t).drop_last() =~= s);
}

/// Tracks the executing thread, owns every thread record and the ready queue.
/// The thread with identifier `t` is stored at index `t - 1`.
pub struct Processor {
    pub threads: Vec<Thread>,
    /// The thread executing now, if any.
    pub current_thread: Option<ThreadID>,
    pub scheduler: FifoScheduler,
    pub num_sleeping_threads: u64,
    /// The thread that waits for the next interrupt when nothing is runnable.
    pub idle_thread: Option<ThreadID>,
}

impl Processor {
    /// `t` names a thread of this processor.
    pub open spec fn valid_tid(&self, t: ThreadID) -> bool {
        1 <= t <= self.threads@.len()
    }

    /// The record of thread `t`.
    pub open spec fn thread(&self, t: ThreadID) -> Thread {
        self.threads@[t - 1]
    }

    pub open spec fn state_of(&self, t: ThreadID) -> ThreadState {
        self.thread(t).inner.state
    }

    /// `t` is queued and ready to run.
    pub open spec fn is_ready(&self, t: ThreadID) -> bool {
        self.scheduler@.contains(t)
    }

    /// The invariant of the processor: identifiers match positions, the ready
    /// queue holds each runnable thread at most once and nothing else, the
    /// sleeping count is exact, and every live thread but the executing one
    /// has saved registers.
    pub open spec fn wf(&self) -> bool {
        &&& self.threads@.len() < isize::MAX
        &&& forall|i: int| 0 <= i < self.threads@.len() ==> (#[trigger] self.threads@[i]).id == i + 1
        &&& self.scheduler@.no_duplicates()
        &&& forall|k: int|
            0 <= k < self.scheduler@.len() ==> self.valid_tid(#[trigger] self.scheduler@[k])
                && self.state_of(self.scheduler@[k]) == ThreadState::Runnable
        &&& (self.current_thread matches Some(c) ==> self.valid_tid(c))
        &&& (self.idle_thread matches Some(d) ==> self.valid_tid(d))
        &&& self.num_sleeping_threads == count_sleeping(self.threads@)
        &&& forall|i: int|
            0 <= i < self.threads@.len() && (#[trigger] self.threads@[i]).inner.state
                != ThreadState::Dead && self.current_thread != Some((i + 1) as ThreadID)
                ==> self.threads@[i].inner.context is Some
    }

    /// `t` names a thread that is asleep.
    pub open spec fn asleep(&self, t: ThreadID) -> bool {
        self.valid_tid(t) && self.state_of(t) == ThreadState::Sleeping
    }

    /// Every entry of the wait queue `q` is a distinct sleeping thread.
    pub open spec fn all_asleep(&self, q: Seq<ThreadID>) -> bool {
        &&& q.no_duplicates()
        &&& forall|k: int|
            0 <= k < q.len() ==> self.valid_tid(#[trigger] q[k]) && self.state_of(q[k])
                == ThreadState::Sleeping
    }

    /// Nothing is runnable, but a sleeper exists and the idle thread can wait
    /// for it.
    pub open spec fn can_idle(&self) -> bool {
        &&& self.num_sleeping_threads > 0
        &&& self.idle_thread is Some
        &&& self.state_of(self.idle_thread->Some_0) != ThreadState::Dead
    }

    /// Some thread can be given the processor.
    pub open spec fn can_run_next(&self) -> bool {
        self.scheduler@.len() > 0 || self.can_idle()
    }

    /// The thread that `prepare_next_thread` picks.
    pub open spec fn next_choice(&self) -> ThreadID {
        if self.scheduler@.len() > 0 {
            self.scheduler@[0]
        } else {
            self.idle_thread->Some_0
        }
    }

    /// A processor with no threads.
    pub fn new() -> (p: Processor)
        ensures
            p.wf(),
            p.threads@.len() == 0,
            p.current_thread is None,
            p.idle_thread is None,
            p.scheduler@.len() == 0,
    {
        Processor {
            threads: Vec::new(),
            current_thread: None,
            scheduler: FifoScheduler::new(),
            num_sleeping_threads: 0,
            idle_thread: None,
        }
    }

    /// Records a new runnable thread of `process` that starts from `context`
    /// and returns its identifier, the next unused one; `None` when no
    /// identifier is left. The thread is not queued yet.
    pub fn new_thread(&mut self, process: usize, stack: Range, context: Context) -> (r: Option<
        ThreadID,
    >)
        requires
            old(self).wf(),
        ensures
            contexts_kept(*old(self), *final(self)),
            joins_kept(*old(self), *final(self)),
            final(self).wf(),
            final(self).scheduler@ == old(self).scheduler@,
            final(self).current_thread == old(self).current_thread,
            final(self).idle_thread == old(self).idle_thread,
            old(self).threads@.len() + 1 < isize::MAX <==> r is Some,
            match r {
                Some(t) => {
                    &&& t == old(self).threads@.len() + 1
                    &&& final(self).threads@.len() == t
                    &&& final(self).threads@.drop_last() == old(self).threads@
                    &&& final(self).thread(t).id == t
                    &&& final(self).thread(t).process == process
                    &&& final(self).thread(t).stack == stack
                    &&& final(self).thread(t).inner.context == Some(context)
                    &&& final(self).state_of(t) == ThreadState::Runnable
                    &&& final(self).thread(t).join_handle@.len() == 0
                },
                None => final(self).threads@ == old(self).threads@,
            },
    {
        let n = self.threads.len();
        if n + 1 >= isize::MAX as usize {
            return None;
        }
        let id = (n + 1) as ThreadID;
        let th = Thread::from_parts(id, process, stack, context);
        proof {
            lemma_count_push(self.threads@, th);
        }
        self.threads.push(th);
        assert(self.threads@.drop_last() =~= old(self).threads@);
        Some(id)
    }

    /// Chooses `t` as the idle thread.
    pub fn set_idle_thread(&mut self, t: ThreadID)
        requires
            old(self).wf(),
            old(self).valid_tid(t),
        ensures
            contexts_kept(*old(self), *final(self)),
            joins_kept(*old(self), *final(self)),
            final(self).wf(),
            final(self).idle_thread == Some(t),
            final(self).threads@ == old(self).threads@,
            final(self).scheduler@ == old(self).scheduler@,
            final(self).current_thread == old(self).current_thread,
    {
        self.idle_thread = Some(t);
    }

    /// The executing thread.
    pub fn current_thread(&self) -> (t: ThreadID)
        requires
            self.current_thread is Some,
        ensures
            self.current_thread == Some(t),
    {
        self.current_thread.unwrap()
    }

    /// The state of thread `t`.
    pub fn thread_state(&self, t: ThreadID) -> (s: ThreadState)
        requires
            self.valid_tid(t),
        ensures
            s == self.state_of(t),
    {
        self.threads[(t - 1) as usize].inner.state
    }

    /// Whether `t` names a thread that is asleep.
    pub fn is_asleep(&self, t: ThreadID) -> (r: bool)
        ensures
            r == self.asleep(t),
    {
        1 <= t && t as usize <= self.threads.len() && self.threads[(t - 1) as usize].inner.state
            == ThreadState::Sleeping
    }

    /// The process that owns thread `t`.
    pub fn thread_process(&self, t: ThreadID) -> (p: usize)
        requires
            self.valid_tid(t),
        ensures
            p == self.thread(t).process,
    {
        self.threads[(t - 1) as usize].process
    }

    /// Replaces the state of thread `t`, keeping the sleeping count exact.
    fn set_state(&mut self, t: ThreadID, s: ThreadState)
        requires
            old(self).valid_tid(t),
            old(self).threads@.len() < isize::MAX,
            old(self).num_sleeping_threads == count_sleeping(old(self).threads@),
        ensures
            final(self).threads@ == old(self).threads@.update(t - 1, with_state(old(self).thread(t), s)),
            final(self).num_sleeping_threads == count_sleeping(final(self).threads@),
            final(self).scheduler == old(self).scheduler,
            final(self).current_thread == old(self).current_thread,
            final(self).idle_thread == old(self).idle_thread,
    {
        let i = (t - 1) as usize;
        proof {
            lemma_count_update(self.threads@, i as int, with_state(self.threads@[i as int], s));
            lemma_count_bounded(self.threads@);
        }
        let old_state = self.threads[i].inner.state;
        self.threads[i].inner.state = s;
        assert(self.threads@ =~= old(self).threads@.update(t - 1, with_state(old(self).thread(t), s)));
        if old_state == ThreadState::Sleeping && s != ThreadState::Sleeping {
            self.num_sleeping_threads = self.num_sleeping_threads - 1;
        } else if old_state != ThreadState::Sleeping && s == ThreadState::Sleeping {
            self.num_sleeping_threads = self.num_sleeping_threads + 1;
        }
    }

    /// Puts the runnable thread `t` at the tail of the ready queue.
    pub fn add_thread(&mut self, t: ThreadID)
        requires
            old(self).wf(),
            old(self).valid_tid(t),
            old(self).state_of(t) == ThreadState::Runnable,
            !old(self).is_ready(t),
        ensures
            contexts_kept(*old(self), *final(self)),
            joins_kept(*old(self), *final(self)),
            final(self).wf(),
            final(self).scheduler@ == old(self).scheduler@.push(t),
            final(self).threads@ == old(self).threads@,
            final(self).current_thread == old(self).current_thread,
            final(self).idle_thread == old(self).idle_thread,
    {
        self.scheduler.add_thread(t);
        assert forall|k: int| 0 <= k < self.scheduler@.len() implies self.valid_tid(
            #[trigger] self.scheduler@[k],
        ) && self.state_of(self.scheduler@[k]) == ThreadState::Runnable by {
            if k < old(self).scheduler@.len() {
                assert(self.scheduler@[k] == old(self).scheduler@[k]);
            }
        }
    }

    /// Saves `context` as the registers of the executing thread, which must
    /// have none saved.
    pub fn park_current_thread(&mut self, context: Context)
        requires
            old(self).wf(),
            old(self).current_thread is Some,
            old(self).thread(old(self).current_thread->Some_0).inner.context is None,
        ensures
            final(self).num_sleeping_threads == old(self).num_sleeping_threads,
            joins_kept(*old(self), *final(self)),
            final(self).wf(),
            final(self).threads@ == old(self).threads@.update(
                old(self).current_thread->Some_0 - 1,
                with_context(old(self).thread(old(self).current_thread->Some_0), Some(context)),
            ),
            final(self).scheduler@ == old(self).scheduler@,
            final(self).current_thread == old(self).current_thread,
            final(self).idle_thread == old(self).idle_thread,
    {
        let t = self.current_thread.unwrap();
        let i = (t - 1) as usize;
        self.threads[i].inner.context = Some(context);
        assert(self.threads@ =~= old(self).threads@.update(
            t - 1,
            with_context(old(self).thread(t), Some(context)),
        ));
        proof {
            assert(self.threads@[i as int].inner.state == old(self).threads@[i as int].inner.state);
            assert forall|j: int| 0 <= j < self.threads@.len() implies #[trigger] sleeping_weight(self.threads@[j]) == sleeping_weight(old(self).threads@[j]) by {}
            lemma_count_update(old(self).threads@, i as int, self.threads@[i as int]);
        }
    }

    /// Takes the executing thread off the ready queue and marks it sleeping;
    /// the caller keeps its identifier in a wait structure of its own.
    pub fn sleep_current_thread(&mut self) -> (t: ThreadID)
        requires
            old(self).wf(),
            old(self).current_thread is Some,
            old(self).state_of(old(self).current_thread->Some_0) == ThreadState::Runnable,
        ensures
            contexts_kept(*old(self), *final(self)),
            joins_kept(*old(self), *final(self)),
            final(self).wf(),
            old(self).current_thread == Some(t),
            final(self).threads@ == old(self).threads@.update(
                t - 1,
                with_state(old(self).thread(t), ThreadState::Sleeping),
            ),
            is_removal(old(self).scheduler@, final(self).scheduler@, t),
            !final(self).is_ready(t),
            final(self).current_thread == old(self).current_thread,
            final(self).idle_thread == old(self).idle_thread,
            final(self).num_sleeping_threads == old(self).num_sleeping_threads + 1,
    {
        let t = self.current_thread.unwrap();
        self.scheduler.remove_thread(t);
        proof {
            lemma_removal(old(self).scheduler@, self.scheduler@, t);
        }
        self.set_state(t, ThreadState::Sleeping);
        proof {
            lemma_count_update(old(self).threads@, t - 1, self.threads@[t - 1]);
            assert forall|k: int| 0 <= k < self.scheduler@.len() implies self.valid_tid(
                #[trigger] self.scheduler@[k],
            ) && self.state_of(self.scheduler@[k]) == ThreadState::Runnable by {
                let x = self.scheduler@[k];
                assert(old(self).scheduler@.contains(x));
                assert(x != t);
            }
        }
        t
    }

    /// Marks the sleeping thread `t` runnable again and queues it; when it
    /// runs is the ready queue's decision.
    pub fn wake_thread(&mut self, t: ThreadID)
        requires
            old(self).wf(),
            old(self).valid_tid(t),
            old(self).state_of(t) == ThreadState::Sleeping,
        ensures
            contexts_kept(*old(self), *final(self)),
            joins_kept(*old(self), *final(self)),
            final(self).wf(),
            final(self).threads@ == old(self).threads@.update(
                t - 1,
                with_state(old(self).thread(t), ThreadState::Runnable),
            ),
            final(self).scheduler@ == old(self).scheduler@.push(t),
            final(self).current_thread == old(self).current_thread,
            final(self).idle_thread == old(self).idle_thread,
            final(self).num_sleeping_threads == old(self).num_sleeping_threads - 1,
    {
        assert(!self.scheduler@.contains(t));
        self.set_state(t, ThreadState::Runnable);
        proof {
            lemma_count_update(old(self).threads@, t - 1, self.threads@[t - 1]);
        }
        self.add_thread(t);
    }

    /// Ends the executing thread: it leaves the ready queue, is marked dead,
    /// and nothing executes until the next `prepare_next_thread`.
    pub fn kill_current_thread(&mut self)
        requires
            old(self).wf(),
            old(self).current_thread is Some,
            old(self).state_of(old(self).current_thread->Some_0) != ThreadState::Sleeping,
        ensures
            contexts_kept(*old(self), *final(self)),
            joins_kept(*old(self), *final(self)),
            final(self).wf(),
            final(self).threads@ == old(self).threads@.update(
                old(self).current_thread->Some_0 - 1,
                with_state(old(self).thread(old(self).current_thread->Some_0), ThreadState::Dead),
            ),
            is_removal(old(self).scheduler@, final(self).scheduler@, old(self).current_thread->Some_0),
            final(self).current_thread is None,
            final(self).idle_thread == old(self).idle_thread,
            final(self).num_sleeping_threads == old(self).num_sleeping_threads,
    {
        let t = self.current_thread.unwrap();
        self.scheduler.remove_thread(t);
        proof {
            lemma_removal(old(self).scheduler@, self.scheduler@, t);
        }
        self.set_state(t, ThreadState::Dead);
        self.current_thread = None;
        proof {
            lemma_count_update(old(self).threads@, t - 1, self.threads@[t - 1]);
            assert forall|k: int| 0 <= k < self.scheduler@.len() implies self.valid_tid(
                #[trigger] self.scheduler@[k],
            ) && self.state_of(self.scheduler@[k]) == ThreadState::Runnable by {
                let x = self.scheduler@[k];
                assert(old(self).scheduler@.contains(x));
                assert(x != t);
            }
        }
    }

    /// Chooses the thread to run next, the head of the ready queue or, when
    /// it is empty, the idle thread, makes it the executing thread and hands
    /// out its saved registers.
    pub fn prepare_next_thread(&mut self) -> (c: Context)
        requires
            old(self).wf(),
            old(self).current_thread matches Some(cur) ==> old(self).thread(cur).inner.context is Some,
            old(self).scheduler@.len() == 0 ==> {
                &&& old(self).num_sleeping_threads > 0
                &&& old(self).idle_thread matches Some(d)
                &&& old(self).state_of(d) != ThreadState::Dead
            },
        ensures
            joins_kept(*old(self), *final(self)),
            final(self).wf(),
            final(self).current_thread == Some(old(self).next_choice()),
            old(self).thread(old(self).next_choice()).inner.context == Some(c),
            final(self).threads@ == old(self).threads@.update(
                old(self).next_choice() - 1,
                with_context(old(self).thread(old(self).next_choice()), None),
            ),
            old(self).scheduler@.len() > 0 ==> final(self).scheduler@ == old(self).scheduler@.drop_first().push(old(self).scheduler@[0]),
            old(self).scheduler@.len() == 0 ==> final(self).scheduler@ == old(self).scheduler@,
            final(self).idle_thread == old(self).idle_thread,
            final(self).num_sleeping_threads == old(self).num_sleeping_threads,
    {
        let next = match self.scheduler.get_next() {
            Some(t) => t,
            None => self.idle_thread.unwrap(),
        };
        proof {
            if old(self).scheduler@.len() > 0 {
                let s0 = old(self).scheduler@;
                assert(s0.contains(s0[0]));
                assert forall|k: int| 0 <= k < self.scheduler@.len() implies self.valid_tid(
                    #[trigger] self.scheduler@[k],
                ) && self.state_of(self.scheduler@[k]) == ThreadState::Runnable by {
                    if k < s0.len() - 1 {
                        assert(self.scheduler@[k] == s0[k + 1]);
                    } else {
                        assert(self.scheduler@[k] == s0[0]);
                    }
                }
                assert forall|a: int, b: int| 0 <= a < b < self.scheduler@.len() implies self.scheduler@[a] != self.scheduler@[b] by {
                    if b == s0.len() - 1 {
                        assert(self.scheduler@[b] == s0[0]);
                        assert(self.scheduler@[a] == s0[a + 1]);
                    } else {
                        assert(self.scheduler@[a] == s0[a + 1]);
                        assert(self.scheduler@[b] == s0[b + 1]);
                    }
                }
            }
        }
        let i = (next - 1) as usize;
        let c = self.threads[i].inner.context.unwrap();
        self.threads[i].inner.context = None;
        self.current_thread = Some(next);
        assert(self.threads@ =~= old(self).threads@.update(
            next - 1,
            with_context(old(self).thread(next), None),
        ));
        proof {
            lemma_count_update(old(self).threads@, i as int, self.threads@[i as int]);
        }
        c
    }

    /// Wakes, in order, each entry of `ts` that names a sleeping thread when
    /// its turn comes; the other entries are passed over. When `ts` holds distinct
    /// sleeping threads, all of them are woken, once each, in order.
    pub fn wake_each(&mut self, ts: &Vec<ThreadID>)
        requires
            old(self).wf(),
        ensures
            contexts_kept(*old(self), *final(self)),
            joins_kept(*old(self), *final(self)),
            final(self).wf(),
            only_woken(*old(self), *final(self)),
            final(self).current_thread == old(self).current_thread,
            final(self).idle_thread == old(self).idle_thread,
            old(self).all_asleep(ts@) ==> woke_in_order(*old(self), *final(self), ts@),
            ts@.no_duplicates() ==> woke_in_order(*old(self), *final(self), asleep_among(*old(self), ts@)),
            forall|x: ThreadID| old(self).is_ready(x) ==> #[trigger] final(self).is_ready(x),
            forall|x: ThreadID| #[trigger] final(self).is_ready(x) ==> old(self).is_ready(x) || (ts@.contains(x) && old(self).asleep(x)),
    {
        let ghost q = ts@;
        let ghost earlier = *old(self);
        let mut n: usize = 0;
        while n < ts.len()
            invariant
                q == ts@,
                earlier == *old(self),
                n <= q.len(),
                self.wf(),
                only_woken(earlier, *self),
                forall|x: ThreadID| earlier.is_ready(x) ==> #[trigger] self.is_ready(x),
                forall|x: ThreadID| #[trigger] self.is_ready(x) ==> earlier.is_ready(x) || (q.subrange(0, n as int).contains(x) && earlier.asleep(x)),
                self.current_thread == earlier.current_thread,
                self.idle_thread == earlier.idle_thread,
                forall|x: ThreadID| #[trigger] asleep_among(earlier, q.subrange(0, n as int)).contains(x) ==> q.subrange(0, n as int).contains(x),
                q.no_duplicates() ==> self.scheduler@ == earlier.scheduler@ + asleep_among(earlier, q.subrange(0, n as int)),
                q.no_duplicates() ==> forall|t: ThreadID|
                    earlier.valid_tid(t) ==> #[trigger] self.thread(t) == if asleep_among(earlier, q.subrange(0, n as int)).contains(t) {
                        with_state(earlier.thread(t), ThreadState::Runnable)
                    } else {
                        earlier.thread(t)
                    },
                earlier.all_asleep(q) ==> self.scheduler@ == earlier.scheduler@ + q.subrange(0, n as int),
                earlier.all_asleep(q) ==> forall|t: ThreadID|
                    earlier.valid_tid(t) ==> #[trigger] self.thread(t) == if q.subrange(0, n as int).contains(t) {
                        with_state(earlier.thread(t), ThreadState::Runnable)
                    } else {
                        earlier.thread(t)
                    },
            decreases q.len() - n,
        {
            let t = ts[n];
            proof {
                if q.no_duplicates() {
                    assert(!q.subrange(0, n as int).contains(t)) by {
                        if q.subrange(0, n as int).contains(t) {
                            let j = choose|j: int| 0 <= j < n && q.subrange(0, n as int)[j] == t;
                            assert(q[j] == q[n as int]);
                        }
                    }
                    assert(!asleep_among(earlier, q.subrange(0, n as int)).contains(t));
                    if earlier.valid_tid(t) {
                        assert(self.thread(t) == earlier.thread(t));
                    }
                }
                if earlier.all_asleep(q) {
                    assert(earlier.valid_tid(t));
                    assert(!q.subrange(0, n as int).contains(t)) by {
                        if q.subrange(0, n as int).contains(t) {
                            let j = choose|j: int| 0 <= j < n && q.subrange(0, n as int)[j] == t;
                            assert(q[j] == q[n as int]);
                        }
                    }
                    assert(self.thread(t) == earlier.thread(t));
                }
            }
            let ghost pre = *self;
            if self.is_asleep(t) {
                self.wake_thread(t);
                proof {
                    assert forall|x: ThreadID| pre.is_ready(x) implies #[trigger] self.is_ready(x) by {
                        let k = choose|k: int| 0 <= k < pre.scheduler@.len() && pre.scheduler@[k] == x;
                        assert(self.scheduler@[k] == x);
                    }
                    assert forall|x: ThreadID| #[trigger] self.is_ready(x) implies pre.is_ready(x) || x == t by {
                        let k = choose|k: int| 0 <= k < self.scheduler@.len() && self.scheduler@[k] == x;
                        if k < pre.scheduler@.len() {
                            assert(pre.scheduler@[k] == x);
                        }
                    }
                    assert(earlier.valid_tid(t));
                    assert(pre.thread(t) == earlier.thread(t));
                    assert forall|u: ThreadID| #[trigger] earlier.valid_tid(u) implies self.thread(u) == earlier.thread(u) || (earlier.asleep(u) && self.thread(u) == with_state(
                        earlier.thread(u),
                        ThreadState::Runnable,
                    )) by {
                        if u != t {
                            assert(self.thread(u) == pre.thread(u));
                        }
                    }
                }
            }
            proof {
                let d2 = n + 1;
                assert(q.subrange(0, d2) =~= q.subrange(0, n as int).push(t));
                let f0 = asleep_among(earlier, q.subrange(0, n as int));
                let f1 = asleep_among(earlier, q.subrange(0, d2));
                lemma_asleep_among_push(earlier, q.subrange(0, n as int), t);
                assert forall|x: ThreadID| #[trigger] f1.contains(x) implies q.subrange(0, d2).contains(x) by {
                    if f0.contains(x) {
                        let j = choose|j: int| 0 <= j < n && q.subrange(0, n as int)[j] == x;
                        assert(q.subrange(0, d2)[j] == x);
                    } else {
                        let j = choose|j: int| 0 <= j < f1.len() && f1[j] == x;
                        assert(x == t);
                        assert(q.subrange(0, d2)[n as int] == t);
                    }
                }
                if q.no_duplicates() {
                    if earlier.asleep(t) {
                        assert(self.scheduler@ =~= earlier.scheduler@ + f1);
                    } else {
                        assert(self.scheduler@ =~= earlier.scheduler@ + f1);
                    }
                    assert forall|u: ThreadID| earlier.valid_tid(u) implies #[trigger] self.thread(u) == if f1.contains(u) {
                        with_state(earlier.thread(u), ThreadState::Runnable)
                    } else {
                        earlier.thread(u)
                    } by {
                        if u == t {
                            if earlier.asleep(t) {
                                assert(f1[f0.len() as int] == t);
                            }
                        } else {
                            assert(self.thread(u) == pre.thread(u));
                            assert(f1.contains(u) == f0.contains(u)) by {
                                if f1.contains(u) {
                                    let j = choose|j: int| 0 <= j < f1.len() && f1[j] == u;
                                    if earlier.asleep(t) && j == f0.len() {
                                    } else {
                                        assert(f0[j] == u);
                                    }
                                }
                                if f0.contains(u) {
                                    let j = choose|j: int| 0 <= j < f0.len() && f0[j] == u;
                                    assert(f1[j] == u);
                                }
                            }
                        }
                    }
                }
                assert forall|x: ThreadID| #[trigger] self.is_ready(x) implies earlier.is_ready(x) || (q.subrange(0, d2).contains(x) && earlier.asleep(x)) by {
                    if pre.is_ready(x) {
                        if !earlier.is_ready(x) {
                            let j = choose|j: int| 0 <= j < n && q.subrange(0, n as int)[j] == x;
                            assert(q.subrange(0, d2)[j] == x);
                        }
                    } else {
                        assert(x == t);
                        assert(q.subrange(0, d2)[n as int] == t);
                        assert(earlier.valid_tid(t));
                        assert(pre.thread(t) == earlier.thread(t));
                    }
                }
                if earlier.all_asleep(q) {
                    assert(q.subrange(0, d2) =~= q.subrange(0, n as int).push(t));
                    assert(self.scheduler@ =~= earlier.scheduler@ + q.subrange(0, d2));
                    assert forall|u: ThreadID| earlier.valid_tid(u) implies #[trigger] self.thread(u) == if q.subrange(0, d2).contains(u) {
                        with_state(earlier.thread(u), ThreadState::Runnable)
                    } else {
                        earlier.thread(u)
                    } by {
                        if u == t {
                            assert(q.subrange(0, d2)[n as int] == t);
                        } else {
                            assert(self.thread(u) == pre.thread(u));
                            assert(q.subrange(0, d2).contains(u) == q.subrange(0, n as int).contains(u)) by {
                                if q.subrange(0, d2).contains(u) {
                                    let j = choose|j: int| 0 <= j < d2 && q.subrange(0, d2)[j] == u;
                                    assert(q.subrange(0, n as int)[j] == u);
                                }
                                if q.subrange(0, n as int).contains(u) {
                                    let j = choose|j: int| 0 <= j < n && q.subrange(0, n as int)[j] == u;
                                    assert(q.subrange(0, d2)[j] == u);
                                }
                            }
                        }
                    }
                }
            }
            n = n + 1;
        }
        assert(q.subrange(0, q.len() as int) =~= q);
    }

    /// Takes out the join queue of thread `t`, leaving an empty one.
    pub fn take_join_handle(&mut self, t: ThreadID) -> (c: Condvar)
        requires
            old(self).wf(),
            old(self).valid_tid(t),
        ensures
            contexts_kept(*old(self), *final(self)),
            final(self).wf(),
            c@ == old(self).thread(t).join_handle@,
            final(self).threads@.len() == old(self).threads@.len(),
            forall|u: ThreadID| #[trigger] final(self).valid_tid(u) && u != t ==> final(self).thread(u) == old(self).thread(u),
            final(self).thread(t).id == old(self).thread(t).id,
            final(self).thread(t).process == old(self).thread(t).process,
            final(self).thread(t).inner == old(self).thread(t).inner,
            final(self).thread(t).join_handle@.len() == 0,
            final(self).scheduler == old(self).scheduler,
            final(self).current_thread == old(self).current_thread,
            final(self).idle_thread == old(self).idle_thread,
            final(self).num_sleeping_threads == old(self).num_sleeping_threads,
    {
        let i = (t - 1) as usize;
        let mut c = Condvar::new();
        std::mem::swap(&mut c, &mut self.threads[i].join_handle);
        proof {
            assert forall|j: int| 0 <= j < self.threads@.len() implies #[trigger] sleeping_weight(self.threads@[j]) == sleeping_weight(old(self).threads@[j]) by {}
            lemma_count_update(old(self).threads@, i as int, self.threads@[i as int]);
            assert(self.threads@ =~= old(self).threads@.update(i as int, self.threads@[i as int]));
        }
        c
    }

    /// Puts `c` back as the join queue of thread `t`.
    pub fn put_join_handle(&mut self, t: ThreadID, c: Condvar)
        requires
            old(self).wf(),
            old(self).valid_tid(t),
        ensures
            contexts_kept(*old(self), *final(self)),
            final(self).wf(),
            final(self).threads@.len() == old(self).threads@.len(),
            forall|u: ThreadID| #[trigger] final(self).valid_tid(u) && u != t ==> final(self).thread(u) == old(self).thread(u),
            final(self).thread(t).id == old(self).thread(t).id,
            final(self).thread(t).process == old(self).thread(t).process,
            final(self).thread(t).inner == old(self).thread(t).inner,
            final(self).thread(t).join_handle@ == c@,
            final(self).scheduler == old(self).scheduler,
            final(self).current_thread == old(self).current_thread,
            final(self).idle_thread == old(self).idle_thread,
            final(self).num_sleeping_threads == old(self).num_sleeping_threads,
    {
        let i = (t - 1) as usize;
        self.threads[i].join_handle = c;
        proof {
            lemma_count_update(old(self).threads@, i as int, self.threads@[i as int]);
            assert(self.threads@ =~= old(self).threads@.update(i as int, self.threads@[i as int]));
        }
    }
}

} // verus!
