//! The alarm clock: a virtual second counter and the threads sleeping until
//! a given second.
use vstd::prelude::*;
use crate::abi::ThreadID;
use crate::processor::{Processor, asleep_among, contexts_kept, joins_kept, only_woken, woke_in_order};
use crate::scheduler::is_removal;
use crate::thread::{ThreadState, with_state};

verus! {

/// A sleeping thread and the second at which it wakes.
#[derive(Clone, Copy, PartialEq, Eq, Structural, Debug)]
pub struct ThreadWithAlarmTime {
    pub thread: ThreadID,
    pub alarm_time: u64,
}

/// The second `sec` seconds after `clock`, or the latest representable one.
pub open spec fn wake_second(clock: u64, sec: u64) -> u64 {
    if clock + sec <= u64::MAX {
        (clock + sec) as u64
    } else {
        u64::MAX
    }
}

impl ThreadWithAlarmTime {
    pub open spec fn spec_new(thread: ThreadID, alarm_time: u64) -> ThreadWithAlarmTime {
        ThreadWithAlarmTime { thread, alarm_time }
    }

    pub fn new(thread: ThreadID, alarm_time: u64) -> (r: ThreadWithAlarmTime)
        ensures
            r.thread == thread,
            r.alarm_time == alarm_time,
    {
        ThreadWithAlarmTime { thread, alarm_time }
    }
}

/// The threads of a sequence of alarm entries, in order.
pub open spec fn alarm_ids(s: Seq<ThreadWithAlarmTime>) -> Seq<ThreadID> {
    s.map_values(|e: ThreadWithAlarmTime| e.thread)
}

/// Entries ordered by wake-up second, earliest first.
pub open spec fn sorted_by_time(s: Seq<ThreadWithAlarmTime>) -> bool {
    forall|a: int, b: int| 0 <= a <= b < s.len() ==> s[a].alarm_time <= s[b].alarm_time
}

/// The virtual clock and the sleepers it will wake, earliest first; sleepers
/// due at the same second keep the order in which they arrived.
pub struct AlarmClock {
    pub clock: u64,
    pub alarm_threads: Vec<ThreadWithAlarmTime>,
}

impl AlarmClock {
    pub open spec fn wf(&self) -> bool {
        sorted_by_time(self.alarm_threads@)
    }

    /// The threads waiting for the clock.
    pub open spec fn sleepers(&self) -> Seq<ThreadID> {
        alarm_ids(self.alarm_threads@)
    }

    /// A clock at second zero with no sleepers.
    pub fn new() -> (a: AlarmClock)
        ensures
            a.wf(),
            a.clock == 0,
            a.alarm_threads@.len() == 0,
    {
        AlarmClock { clock: 0, alarm_threads: Vec::new() }
    }

    /// Puts the executing thread to sleep until `sec` seconds from now
    /// (the latest representable second if that is beyond it).
    pub fn put_current_thread_to_alarm_threads(&mut self, processor: &mut Processor, sec: u64)
        requires
            old(self).wf(),
            old(processor).wf(),
            old(processor).current_thread is Some,
            old(processor).state_of(old(processor).current_thread->Some_0) == ThreadState::Runnable,
        ensures
            contexts_kept(*old(processor), *final(processor)),
            joins_kept(*old(processor), *final(processor)),
            final(self).wf(),
            final(self).clock == old(self).clock,
            exists|pos: int|
                0 <= pos <= old(self).alarm_threads@.len() && final(self).alarm_threads@
                    == old(self).alarm_threads@.insert(
                    pos,
                    ThreadWithAlarmTime::spec_new(
                        old(processor).current_thread->Some_0,
                        wake_second(old(self).clock, sec),
                    ),
                ),
            final(processor).wf(),
            final(processor).threads@ == old(processor).threads@.update(
                old(processor).current_thread->Some_0 - 1,
                with_state(
                    old(processor).thread(old(processor).current_thread->Some_0),
                    ThreadState::Sleeping,
                ),
            ),
            is_removal(
                old(processor).scheduler@,
                final(processor).scheduler@,
                old(processor).current_thread->Some_0,
            ),
            final(processor).current_thread == old(processor).current_thread,
            final(processor).idle_thread == old(processor).idle_thread,
    {
        let current_thread = processor.sleep_current_thread();
        let due = self.clock.saturating_add(sec);
        let entry = ThreadWithAlarmTime::new(current_thread, due);
        let mut pos: usize = 0;
        while pos < self.alarm_threads.len() && self.alarm_threads[pos].alarm_time <= due
            invariant
                pos <= self.alarm_threads@.len(),
                self.alarm_threads@ == old(self).alarm_threads@,
                sorted_by_time(self.alarm_threads@),
                forall|k: int| 0 <= k < pos ==> self.alarm_threads@[k].alarm_time <= due,
            decreases self.alarm_threads@.len() - pos,
        {
            pos = pos + 1;
        }
        self.alarm_threads.insert(pos, entry);
        proof {
            let s0 = old(self).alarm_threads@;
            let s1 = self.alarm_threads@;
            assert(s1 =~= s0.insert(pos as int, entry));
            assert(entry == ThreadWithAlarmTime::spec_new(current_thread, wake_second(old(self).clock, sec)));
            assert(0 <= pos <= s0.len() && s1 == s0.insert(pos as int, entry));
            assert forall|a: int, b: int| 0 <= a <= b < s1.len() implies s1[a].alarm_time
                <= s1[b].alarm_time by {
                if b < pos {
                } else if b == pos {
                    if a < pos {
                        assert(s1[a] == s0[a]);
                    }
                } else {
                    assert(s1[b] == s0[b - 1]);
                    if a < pos {
                        assert(s1[a] == s0[a]);
                    } else if a == pos {
                        assert(pos < s0.len());
                        assert(s0[pos as int].alarm_time > due);
                    } else {
                        assert(s1[a] == s0[a - 1]);
                    }
                }
            }
        }
    }

    /// One virtual second elapses: the clock advances and every sleeper whose
    /// second has come leaves the clock and is woken, earliest first.
    pub fn alarm(&mut self, processor: &mut Processor)
        requires
            old(self).wf(),
            old(self).clock < u64::MAX,
            old(processor).wf(),
        ensures
            contexts_kept(*old(processor), *final(processor)),
            joins_kept(*old(processor), *final(processor)),
            final(self).wf(),
            final(self).clock == old(self).clock + 1,
            exists|n: int|
                {
                    &&& 0 <= n <= old(self).alarm_threads@.len()
                    &&& forall|k: int|
                        0 <= k < old(self).alarm_threads@.len() ==> (k < n <==> (
                        #[trigger] old(self).alarm_threads@[k]).alarm_time <= final(self).clock)
                    &&& final(self).alarm_threads@ == old(self).alarm_threads@.subrange(
                        n,
                        old(self).alarm_threads@.len() as int,
                    )
                    &&& old(self).sleepers().no_duplicates() ==> woke_in_order(
                        *old(processor),
                        *final(processor),
                        asleep_among(*old(processor), alarm_ids(old(self).alarm_threads@.subrange(0, n))),
                    )
                    &&& old(processor).all_asleep(old(self).sleepers()) ==> woke_in_order(
                        *old(processor),
                        *final(processor),
                        alarm_ids(old(self).alarm_threads@.subrange(0, n)),
                    )
                },
            final(processor).wf(),
            only_woken(*old(processor), *final(processor)),
            final(processor).current_thread == old(processor).current_thread,
            final(processor).idle_thread == old(processor).idle_thread,
    {
        self.clock = self.clock + 1;
        let ghost s0 = old(self).alarm_threads@;
        let mut n: usize = 0;
        let mut due: Vec<ThreadID> = Vec::new();
        while n < self.alarm_threads.len() && self.alarm_threads[n].alarm_time <= self.clock
            invariant
                s0 == old(self).alarm_threads@,
                self.alarm_threads@ == s0,
                self.clock == old(self).clock + 1,
                n <= s0.len(),
                forall|k: int| 0 <= k < n ==> (#[trigger] s0[k]).alarm_time <= self.clock,
                due@ == alarm_ids(s0.subrange(0, n as int)),
            decreases s0.len() - n,
        {
            due.push(self.alarm_threads[n].thread);
            n = n + 1;
            assert(due@ =~= alarm_ids(s0.subrange(0, n as int)));
        }
        let rest = self.alarm_threads.split_off(n);
        self.alarm_threads = rest;
        proof {
            let ids = alarm_ids(s0);
            if ids.no_duplicates() {
                assert forall|a: int, b: int| 0 <= a < b < due@.len() implies due@[a] != due@[b] by {
                    assert(due@[a] == ids[a]);
                    assert(due@[b] == ids[b]);
                }
            }
            if processor.all_asleep(ids) {
                assert forall|k: int| 0 <= k < due@.len() implies processor.valid_tid(#[trigger] due@[k])
                    && processor.state_of(due@[k]) == ThreadState::Sleeping by {
                    assert(due@[k] == ids[k]);
                }
                assert forall|a: int, b: int| 0 <= a < b < due@.len() implies due@[a] != due@[b] by {
                    assert(due@[a] == ids[a]);
                    assert(due@[b] == ids[b]);
                }
            }
            assert forall|k: int| 0 <= k < s0.len() implies (k < n <==> (
            #[trigger] s0[k]).alarm_time <= self.clock) by {
                if n < s0.len() && k >= n {
                    assert(s0[n as int].alarm_time > self.clock);
                }
            }
        }
        processor.wake_each(&due);
        assert(self.alarm_threads@ =~= s0.subrange(n as int, s0.len() as int));
    }
}

} // verus!
