//! Blocking mutexes owned by a process.
use vstd::prelude::*;
use std::collections::VecDeque;
use crate::abi::ThreadID;
use crate::processor::{Processor, contexts_kept, joins_kept};
use crate::scheduler::is_removal;
use crate::syscall::SyscallResult;
use crate::thread::{ThreadState, with_state};

verus! {

/// Owner value of a mutex that nobody holds.
pub const NO_OWNER: isize = -123;

/// A lock that blocks the threads that cannot take it, in FIFO order.
pub struct Mutex {
    /// Threads put to sleep while waiting for the lock, oldest first.
    pub queue: VecDeque<ThreadID>,
    /// The holder, or `NO_OWNER`.
    pub owner_thread_id: ThreadID,
}

/// Some waiter of `q` is asleep in `p`.
pub open spec fn has_asleep(p: &Processor, q: Seq<ThreadID>) -> bool {
    exists|i: int| 0 <= i < q.len() && p.asleep(#[trigger] q[i])
}

/// `i` is the position of the oldest waiter of `q` that is asleep in `p`.
pub open spec fn is_first_asleep(p: &Processor, q: Seq<ThreadID>, i: int) -> bool {
    &&& 0 <= i < q.len()
    &&& p.asleep(q[i])
    &&& forall|j: int| 0 <= j < i ==> !p.asleep(#[trigger] q[j])
}

/// The lock went from `m0` to the waiter at position `i`, which was woken:
/// the waiters before it left the queue, the ones after it stay.
pub open spec fn handed_over(m0: Mutex, m1: Mutex, earlier: Processor, later: Processor, i: int) -> bool {
    let t = m0.queue@[i];
    &&& m1.queue@ == m0.queue@.subrange(i + 1, m0.queue@.len() as int)
    &&& m1.owner_thread_id == t
    &&& later.threads@ == earlier.threads@.update(t - 1, with_state(earlier.thread(t), ThreadState::Runnable))
    &&& later.scheduler@ == earlier.scheduler@.push(t)
    &&& later.current_thread == earlier.current_thread
    &&& later.idle_thread == earlier.idle_thread
}

impl Mutex {
    /// An unlocked mutex with nobody waiting.
    pub fn new() -> (m: Mutex)
        ensures
            m.owner_thread_id == NO_OWNER,
            m.queue@ == Seq::<ThreadID>::empty(),
    {
        Mutex { queue: VecDeque::new(), owner_thread_id: NO_OWNER }
    }

    /// Takes the lock for the executing thread. When nobody holds it, the
    /// thread becomes the owner and continues; otherwise the thread joins the
    /// tail of the wait queue and sleeps.
    pub fn lock(&mut self, processor: &mut Processor) -> (r: SyscallResult)
        requires
            old(processor).wf(),
            old(processor).current_thread is Some,
            old(processor).state_of(old(processor).current_thread->Some_0) == ThreadState::Runnable,
        ensures
            contexts_kept(*old(processor), *final(processor)),
            joins_kept(*old(processor), *final(processor)),
            final(processor).wf(),
            ({
                let cur = old(processor).current_thread->Some_0;
                if old(self).owner_thread_id == NO_OWNER {
                    &&& r == SyscallResult::Proceed(0)
                    &&& final(self).owner_thread_id == cur
                    &&& final(self).queue@ == old(self).queue@
                    &&& *final(processor) == *old(processor)
                } else {
                    &&& r == SyscallResult::Park(0)
                    &&& final(self).owner_thread_id == old(self).owner_thread_id
                    &&& final(self).queue@ == old(self).queue@.push(cur)
                    &&& final(processor).threads@ == old(processor).threads@.update(
                        cur - 1,
                        with_state(old(processor).thread(cur), ThreadState::Sleeping),
                    )
                    &&& is_removal(old(processor).scheduler@, final(processor).scheduler@, cur)
                    &&& final(processor).current_thread == old(processor).current_thread
                    &&& final(processor).idle_thread == old(processor).idle_thread
                }
            }),
    {
        let current_thread = processor.current_thread();
        if self.owner_thread_id == NO_OWNER {
            self.owner_thread_id = current_thread;
            SyscallResult::Proceed(0)
        } else {
            self.queue.push_back(current_thread);
            processor.sleep_current_thread();
            SyscallResult::Park(0)
        }
    }

    /// Releases the lock. When a waiter is still asleep, the lock does not
    /// become free: it passes straight to the oldest such waiter, which is
    /// woken. That waiter resumes from `lock` as the holder, so leaving the
    /// lock free until it runs would let another thread take it meanwhile and
    /// two threads would hold it. Waiters found in another state are dropped
    /// from the queue. The releasing thread yields to the scheduler.
    pub fn unlock(&mut self, processor: &mut Processor) -> (r: SyscallResult)
        requires
            old(processor).wf(),
        ensures
            contexts_kept(*old(processor), *final(processor)),
            joins_kept(*old(processor), *final(processor)),
            r == SyscallResult::Park(0),
            final(processor).wf(),
            has_asleep(old(processor), old(self).queue@) ==> exists|i: int|
                is_first_asleep(old(processor), old(self).queue@, i) && handed_over(
                    *old(self),
                    *final(self),
                    *old(processor),
                    *final(processor),
                    i,
                ),
            !has_asleep(old(processor), old(self).queue@) ==> {
                &&& final(self).queue@.len() == 0
                &&& final(self).owner_thread_id == NO_OWNER
                &&& *final(processor) == *old(processor)
            },
    {
        self.owner_thread_id = NO_OWNER;
        let ghost q = old(self).queue@;
        while self.queue.len() > 0
            invariant
                *processor == *old(processor),
                q == old(self).queue@,
                processor.wf(),
                self.owner_thread_id == NO_OWNER,
                self.queue@.len() <= q.len(),
                self.queue@ == q.subrange(q.len() - self.queue@.len(), q.len() as int),
                forall|j: int| 0 <= j < q.len() - self.queue@.len() ==> !processor.asleep(#[trigger] q[j]),
            decreases self.queue@.len(),
        {
            let ghost i = q.len() - self.queue@.len();
            let t = self.queue.pop_front().unwrap();
            assert(t == q[i]);
            if processor.is_asleep(t) {
                processor.wake_thread(t);
                self.owner_thread_id = t;
                assert(self.queue@ =~= q.subrange(i + 1, q.len() as int));
                assert(is_first_asleep(old(processor), q, i));
                assert(old(processor).asleep(q[i]));
                assert(has_asleep(old(processor), q));
                assert(handed_over(*old(self), *self, *old(processor), *processor, i));
                return SyscallResult::Park(0);
            }
            assert(self.queue@ =~= q.subrange(q.len() - self.queue@.len(), q.len() as int));
        }
        SyscallResult::Park(0)
    }
}

} // verus!
