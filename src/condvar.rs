//! Condition variables: FIFO queues of blocked threads.
use vstd::prelude::*;
use std::collections::VecDeque;
use crate::abi::ThreadID;
use crate::processor::{Processor, contexts_kept, joins_kept, only_woken, woke_in_order};
use crate::scheduler::is_removal;
use crate::thread::{ThreadState, with_state};

verus! {

/// Threads waiting to be notified, oldest first. It carries no data.
pub struct Condvar {
    watchers: VecDeque<ThreadID>,
}

impl View for Condvar {
    type V = Seq<ThreadID>;

    closed spec fn view(&self) -> Seq<ThreadID> {
        self.watchers@
    }
}

impl Condvar {
    /// A condition variable with no waiters.
    pub fn new() -> (c: Condvar)
        ensures
            c@ == Seq::<ThreadID>::empty(),
    {
        Condvar { watchers: VecDeque::new() }
    }

    /// Number of waiters.
    pub fn len(&self) -> (r: usize)
        ensures
            r == self@.len(),
    {
        self.watchers.len()
    }

    /// Puts the executing thread to sleep at the tail of this queue.
    pub fn wait(&mut self, processor: &mut Processor)
        requires
            old(processor).wf(),
            old(processor).current_thread is Some,
            old(processor).state_of(old(processor).current_thread->Some_0) == ThreadState::Runnable,
        ensures
            contexts_kept(*old(processor), *final(processor)),
            joins_kept(*old(processor), *final(processor)),
            final(self)@ == old(self)@.push(old(processor).current_thread->Some_0),
            final(processor).wf(),
            final(processor).threads@ == old(processor).threads@.update(
                old(processor).current_thread->Some_0 - 1,
                with_state(
                    old(processor).thread(old(processor).current_thread->Some_0),
                    ThreadState::Sleeping,
                ),
            ),
            is_removal(
                old(processor).scheduler@,
                final(processor).scheduler@,
                old(processor).current_thread->Some_0,
            ),
            final(processor).current_thread == old(processor).current_thread,
            final(processor).idle_thread == old(processor).idle_thread,
    {
        let thread = processor.sleep_current_thread();
        self.watchers.push_back(thread);
    }

    /// Wakes the oldest waiter, which leaves the queue; does nothing when
    /// nobody waits. A waiter that is no longer asleep only leaves the queue.
    pub fn notify_one(&mut self, processor: &mut Processor)
        requires
            old(processor).wf(),
        ensures
            joins_kept(*old(processor), *final(processor)),
            final(processor).wf(),
            only_woken(*old(processor), *final(processor)),
            old(self)@.len() == 0 ==> final(self)@ == old(self)@ && *final(processor) == *old(processor),
            old(self)@.len() > 0 ==> final(self)@ == old(self)@.drop_first(),
            old(self)@.len() > 0 && old(processor).asleep(old(self)@[0]) ==> woke_in_order(
                *old(processor),
                *final(processor),
                seq![old(self)@[0]],
            ),
            old(self)@.len() > 0 && !old(processor).asleep(old(self)@[0]) ==> *final(processor) == *old(
                processor,
            ),
            contexts_kept(*old(processor), *final(processor)),
            final(processor).current_thread == old(processor).current_thread,
            final(processor).idle_thread == old(processor).idle_thread,
    {
        if let Some(thread) = self.watchers.pop_front() {
            if processor.is_asleep(thread) {
                processor.wake_thread(thread);
                assert(processor.scheduler@ =~= old(processor).scheduler@ + seq![thread]);
                assert forall|t: ThreadID| old(processor).valid_tid(t) implies #[trigger] processor.thread(t)
                    == if seq![thread].contains(t) {
                    with_state(old(processor).thread(t), ThreadState::Runnable)
                } else {
                    old(processor).thread(t)
                } by {
                    if t == thread {
                        assert(seq![thread][0] == t);
                    } else {
                        assert(!seq![thread].contains(t));
                    }
                }
            }
        }
    }

    /// Wakes every waiter, oldest first, and leaves the queue empty. Waiters
    /// that are no longer asleep only leave the queue.
    pub fn notify_all(&mut self, processor: &mut Processor)
        requires
            old(processor).wf(),
        ensures
            joins_kept(*old(processor), *final(processor)),
            final(self)@ == Seq::<ThreadID>::empty(),
            final(processor).wf(),
            old(processor).all_asleep(old(self)@) ==> woke_in_order(
                *old(processor),
                *final(processor),
                old(self)@,
            ),
            only_woken(*old(processor), *final(processor)),
            contexts_kept(*old(processor), *final(processor)),
            forall|x: ThreadID| old(processor).is_ready(x) ==> #[trigger] final(processor).is_ready(x),
            forall|x: ThreadID| #[trigger] final(processor).is_ready(x) ==> old(processor).is_ready(x) || (old(self)@.contains(x) && old(processor).asleep(x)),
            final(processor).current_thread == old(processor).current_thread,
            final(processor).idle_thread == old(processor).idle_thread,
    {
        let mut all: Vec<ThreadID> = Vec::new();
        while self.watchers.len() > 0
            invariant
                all@ + self@ == old(self)@,
            decreases self@.len(),
        {
            let t = self.watchers.pop_front().unwrap();
            all.push(t);
            assert(all@ + self@ =~= old(self)@);
        }
        assert(all@ =~= old(self)@);
        processor.wake_each(&all);
    }
}

} // verus!
