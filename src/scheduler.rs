//! The ready queue.
use vstd::prelude::*;
use std::collections::VecDeque;
use crate::abi::ThreadID;

verus! {

/// Runnable threads in first-in, first-out order. The thread handed out by
/// `get_next` moves to the tail, so every runnable thread gets its turn.
pub struct FifoScheduler {
    pool: VecDeque<ThreadID>,
}

impl View for FifoScheduler {
    type V = Seq<ThreadID>;

    closed spec fn view(&self) -> Seq<ThreadID> {
        self.pool@
    }
}

/// `after` is `before` without the first occurrence of `t`, or `before`
/// itself when `t` does not occur.
pub open spec fn is_removal(before: Seq<ThreadID>, after: Seq<ThreadID>, t: ThreadID) -> bool {
    if before.contains(t) {
        exists|i: int|
            0 <= i < before.len() && before[i] == t && (forall|j: int| 0 <= j < i ==> before[j] != t)
                && after == before.remove(i)
    } else {
        after == before
    }
}

/// `s` without the entry `t`, for a queue that holds `t` at most once.
pub open spec fn remove_value(s: Seq<ThreadID>, t: ThreadID) -> Seq<ThreadID> {
    if s.contains(t) {
        s.remove(choose|i: int| 0 <= i < s.len() && s[i] == t)
    } else {
        s
    }
}

/// In a queue without repeats, the removal of `t` is `remove_value`.
pub proof fn lemma_removal_value(before: Seq<ThreadID>, after: Seq<ThreadID>, t: ThreadID)
    requires
        before.no_duplicates(),
        is_removal(before, after, t),
    ensures
        after == remove_value(before, t),
{
    if before.contains(t) {
        let i = choose|i: int|
            0 <= i < before.len() && before[i] == t && (forall|j: int| 0 <= j < i ==> before[j] != t)
                && after == before.remove(i);
        let c = choose|c: int| 0 <= c < before.len() && before[c] == t;
        assert(c == i);
    }
}

/// Removing `t` from a queue without repeats leaves a queue without repeats
/// holding every other entry.
pub proof fn lemma_removal(before: Seq<ThreadID>, after: Seq<ThreadID>, t: ThreadID)
    requires
        before.no_duplicates(),
        is_removal(before, after, t),
    ensures
        after.no_duplicates(),
        !after.contains(t),
        forall|x: ThreadID| x != t ==> (after.contains(x) <==> before.contains(x)),
        forall|k: int| 0 <= k < after.len() ==> before.contains(#[trigger] after[k]),
{
    if before.contains(t) {
        let i = choose|i: int|
            0 <= i < before.len() && before[i] == t && (forall|j: int| 0 <= j < i ==> before[j] != t)
                && after == before.remove(i);
        assert forall|x: ThreadID| x != t implies (after.contains(x) <==> before.contains(x)) by {
            if before.contains(x) {
                let k = choose|k: int| 0 <= k < before.len() && before[k] == x;
                if k < i {
                    assert(after[k] == x);
                } else {
                    assert(after[k - 1] == x);
                }
            }
        }
        assert forall|k: int| 0 <= k < after.len() implies before.contains(#[trigger] after[k]) by {
            if k < i {
                assert(before[k] == after[k]);
            } else {
                assert(before[k + 1] == after[k]);
            }
        }
    }
}

impl FifoScheduler {
    /// An empty ready queue.
    pub fn new() -> (s: FifoScheduler)
        ensures
            s@ == Seq::<ThreadID>::empty(),
    {
        FifoScheduler { pool: VecDeque::new() }
    }

    /// Appends `thread` at the tail.
    pub fn add_thread(&mut self, thread: ThreadID)
        ensures
            final(self)@ == old(self)@.push(thread),
    {
        self.pool.push_back(thread);
    }

    /// The thread at the head, which moves to the tail; `None` when the
    /// queue is empty.
    pub fn get_next(&mut self) -> (r: Option<ThreadID>)
        ensures
            old(self)@.len() == 0 ==> r is None && final(self)@ == old(self)@,
            old(self)@.len() > 0 ==> r == Some(old(self)@[0]) && final(self)@ == old(self)@.drop_first().push(old(self)@[0]),
    {
        match self.pool.pop_front() {
            Some(t) => {
                self.pool.push_back(t);
                Some(t)
            },
            None => None,
        }
    }

    /// Removes the first occurrence of `thread`; does nothing if it is absent.
    pub fn remove_thread(&mut self, thread: ThreadID)
        ensures
            is_removal(old(self)@, final(self)@, thread),
    {
        let mut i: usize = 0;
        while i < self.pool.len()
            invariant
                i <= self.pool@.len(),
                self.pool@ == old(self)@,
                forall|j: int| 0 <= j < i ==> self.pool@[j] != thread,
            decreases self.pool@.len() - i,
        {
            if self.pool[i] == thread {
                let _ = self.pool.remove(i);
                return;
            }
            i = i + 1;
        }
    }

    /// Number of queued threads.
    pub fn len(&self) -> (r: usize)
        ensures
            r == self@.len(),
    {
        self.pool.len()
    }

    /// Whether `thread` is queued.
    pub fn contains(&self, thread: ThreadID) -> (r: bool)
        ensures
            r == self@.contains(thread),
    {
        let mut i: usize = 0;
        while i < self.pool.len()
            invariant
                i <= self.pool@.len(),
                forall|j: int| 0 <= j < i ==> self.pool@[j] != thread,
            decreases self.pool@.len() - i,
        {
            if self.pool[i] == thread {
                assert(self@[i as int] == thread);
                return true;
            }
            i = i + 1;
        }
        false
    }
}

} // verus!
