//! Processes: an address space and the tables its threads share.
use vstd::prelude::*;
use hashbrown::HashMap;
use crate::abi::{MutexID, ThreadID, STDIN, STDOUT};
use crate::memory::Range;
use crate::mutex::{Mutex, NO_OWNER};
use crate::table::{
    mutex_entries, new_mutex_map, new_thread_map, registered_threads, mutex_map_insert,
};

verus! {

/// Size of a page; ranges of an address space are whole pages.
pub const PAGE_SIZE: usize = 4096;

/// Size of each thread's stack.
pub const STACK_SIZE: usize = 0x8_0000;

/// Lowest address at which ranges are handed out.
pub const ALLOC_BASE: usize = 0x100_0000;

/// Permission bits of a segment.
pub const FLAG_READABLE: usize = 0x2;

pub const FLAG_WRITABLE: usize = 0x4;

pub const FLAG_EXECUTABLE: usize = 0x8;

/// Set on the segments of a user process.
pub const FLAG_USER: usize = 0x10;

/// A mapped range with its permission bits.
#[derive(Clone, Copy, PartialEq, Eq, Structural, Debug)]
pub struct Segment {
    pub range: Range,
    pub flags: usize,
}

/// Two ranges share an address.
pub open spec fn overlaps(a: Range, b: Range) -> bool {
    a.start < b.end && b.start < a.end
}

/// Some segment of `segs` shares an address with `r`.
pub open spec fn overlaps_any(segs: Seq<Segment>, r: Range) -> bool {
    exists|k: int| 0 <= k < segs.len() && overlaps(#[trigger] segs[k].range, r)
}

/// The `k`-th place tried for a range of `size` bytes.
pub open spec fn candidate(k: int, size: int) -> (int, int) {
    (ALLOC_BASE + k * size, ALLOC_BASE + (k + 1) * size)
}

/// The `k`-th range tried for a range of `size` bytes, as addresses.
pub open spec fn candidate_range(k: int, size: int) -> Range {
    Range { start: candidate(k, size).0 as usize, end: candidate(k, size).1 as usize }
}

/// `range`, of `size` bytes, was handed out at the `k`-th place tried: the
/// earlier places overlap a segment of `before`, the `k`-th does not, and
/// `after` is `before` with the `k`-th place mapped with `flags`.
pub open spec fn placed_at(
    before: Seq<Segment>,
    after: Seq<Segment>,
    range: Range,
    size: usize,
    flags: usize,
    k: int,
) -> bool {
    let a = page_round_up(size as int);
    &&& k >= 0
    &&& candidate(k, a).1 <= usize::MAX
    &&& range.start == candidate(k, a).0
    &&& range.end == range.start + size
    &&& !overlaps_any(before, candidate_range(k, a))
    &&& forall|j: int| 0 <= j < k ==> overlaps_any(before, #[trigger] candidate_range(j, a))
    &&& after == before.push(Segment { range: candidate_range(k, a), flags })
}

/// No place is left in the address space `segs` for `size` bytes.
pub open spec fn space_full(segs: Seq<Segment>, size: usize) -> bool {
    forall|k: int|
        k >= 0 && #[trigger] candidate(k, page_round_up(size as int)).1 <= usize::MAX ==> overlaps_any(
            segs,
            candidate_range(k, page_round_up(size as int)),
        )
}

/// `size` rounded up to whole pages.
pub open spec fn page_round_up(size: int) -> int {
    (size + PAGE_SIZE - 1) / PAGE_SIZE as int * PAGE_SIZE
}

/// Why an address range could not be handed out.
#[derive(Clone, Copy, PartialEq, Eq, Structural, Debug)]
pub enum AllocError {
    /// A range of zero bytes was asked for.
    EmptyRange,
    /// No free range of that size is left above the base.
    AddressSpaceExhausted,
}

/// The mapped segments of an address space.
pub struct MemorySet {
    pub segments: Vec<Segment>,
}

impl MemorySet {
    /// An address space with the given segments.
    pub fn new(segments: Vec<Segment>) -> (m: MemorySet)
        ensures
            m.segments@ == segments@,
    {
        MemorySet { segments }
    }

    /// Whether `range` shares an address with a mapped segment.
    pub fn overlap_with(&self, range: Range) -> (r: bool)
        ensures
            r == overlaps_any(self.segments@, range),
    {
        let mut i: usize = 0;
        while i < self.segments.len()
            invariant
                i <= self.segments@.len(),
                forall|k: int| 0 <= k < i ==> !overlaps(#[trigger] self.segments@[k].range, range),
            decreases self.segments@.len() - i,
        {
            let seg = self.segments[i].range;
            if seg.start < range.end && range.start < seg.end {
                assert(overlaps(self.segments@[i as int].range, range));
                return true;
            }
            i = i + 1;
        }
        false
    }

    /// Maps one more segment.
    pub fn add_segment(&mut self, segment: Segment)
        ensures
            final(self).segments@ == old(self).segments@.push(segment),
    {
        self.segments.push(segment);
    }
}

/// The parts of a process that change.
pub struct ProcessInner {
    pub memory_set: MemorySet,
    /// Open streams, indexed by descriptor number.
    pub descriptors: Vec<usize>,
    /// The live threads of the process.
    pub threads: HashMap<ThreadID, ()>,
    /// The process's mutexes, by identifier.
    pub mutex_queue: HashMap<MutexID, Mutex>,
    /// Identifier of the next mutex created.
    pub next_mutex_id: MutexID,
}

/// An address space and the tables its threads share.
pub struct Process {
    pub is_user: bool,
    pub inner: ProcessInner,
}

impl Process {
    /// Every mutex identifier in use is below the next one.
    pub open spec fn wf(&self) -> bool {
        forall|m: MutexID|
            #[trigger] mutex_entries(self.inner.mutex_queue).contains_key(m) ==> m
                < self.inner.next_mutex_id
    }

    fn with_memory_set(is_user: bool, memory_set: MemorySet) -> (p: Process)
        ensures
            p.wf(),
            p.is_user == is_user,
            p.inner.memory_set.segments@ == memory_set.segments@,
            p.inner.descriptors@ == seq![STDIN, STDOUT],
            registered_threads(p.inner.threads) == Set::<ThreadID>::empty(),
            mutex_entries(p.inner.mutex_queue).dom() == Set::<MutexID>::empty(),
            p.inner.next_mutex_id == 0,
    {
        let mut descriptors: Vec<usize> = Vec::new();
        descriptors.push(STDIN);
        descriptors.push(STDOUT);
        let p = Process {
            is_user,
            inner: ProcessInner {
                memory_set,
                descriptors,
                threads: new_thread_map(),
                mutex_queue: new_mutex_map(),
                next_mutex_id: 0,
            },
        };
        assert(p.inner.descriptors@ =~= seq![STDIN, STDOUT]);
        assert forall|m: MutexID| #[trigger] mutex_entries(p.inner.mutex_queue).contains_key(m) implies m
            < p.inner.next_mutex_id by {
            assert(mutex_entries(p.inner.mutex_queue).dom().contains(m));
        }
        p
    }

    /// A kernel process: nothing mapped yet, the standard streams open.
    pub fn new_kernel() -> (p: Process)
        ensures
            p.wf(),
            !p.is_user,
            p.inner.memory_set.segments@.len() == 0,
            p.inner.descriptors@ == seq![STDIN, STDOUT],
            registered_threads(p.inner.threads) == Set::<ThreadID>::empty(),
            mutex_entries(p.inner.mutex_queue).dom() == Set::<MutexID>::empty(),
            p.inner.next_mutex_id == 0,
    {
        Process::with_memory_set(false, MemorySet::new(Vec::new()))
    }

    /// A process whose address space holds the loadable segments of an
    /// executable image, the standard streams open.
    pub fn from_elf(segments: Vec<Segment>, is_user: bool) -> (p: Process)
        ensures
            p.wf(),
            p.is_user == is_user,
            p.inner.memory_set.segments@ == segments@,
            p.inner.descriptors@ == seq![STDIN, STDOUT],
            registered_threads(p.inner.threads) == Set::<ThreadID>::empty(),
            mutex_entries(p.inner.mutex_queue).dom() == Set::<MutexID>::empty(),
            p.inner.next_mutex_id == 0,
    {
        Process::with_memory_set(is_user, MemorySet::new(segments))
    }

    /// Creates an unlocked mutex with the next identifier and returns that
    /// identifier; `None` once identifiers are used up.
    pub fn create_mutex(&mut self) -> (r: Option<MutexID>)
        requires
            old(self).wf(),
        ensures
            final(self).wf(),
            final(self).is_user == old(self).is_user,
            final(self).inner.memory_set.segments@ == old(self).inner.memory_set.segments@,
            final(self).inner.threads == old(self).inner.threads,
            old(self).inner.next_mutex_id < usize::MAX ==> r == Some(old(self).inner.next_mutex_id),
            old(self).inner.next_mutex_id == usize::MAX ==> r is None && *final(self) == *old(self),
            match r {
                Some(id) => {
                    &&& !mutex_entries(old(self).inner.mutex_queue).contains_key(id)
                    &&& mutex_entries(final(self).inner.mutex_queue) == mutex_entries(
                        old(self).inner.mutex_queue,
                    ).insert(id, mutex_entries(final(self).inner.mutex_queue)[id])
                    &&& mutex_entries(final(self).inner.mutex_queue)[id].owner_thread_id == NO_OWNER
                    &&& mutex_entries(final(self).inner.mutex_queue)[id].queue@.len() == 0
                    &&& final(self).inner.next_mutex_id == id + 1
                },
                None => mutex_entries(final(self).inner.mutex_queue) == mutex_entries(
                    old(self).inner.mutex_queue,
                ) && final(self).inner.next_mutex_id == old(self).inner.next_mutex_id,
            },
    {
        let id: MutexID = self.inner.next_mutex_id;
        if id == usize::MAX {
            return None;
        }
        mutex_map_insert(&mut self.inner.mutex_queue, id, Mutex::new());
        self.inner.next_mutex_id = id + 1;
        assert forall|m: MutexID| #[trigger] mutex_entries(self.inner.mutex_queue).contains_key(m) implies m
            < self.inner.next_mutex_id by {
            if m != id {
                assert(mutex_entries(old(self).inner.mutex_queue).contains_key(m));
            }
        }
        Some(id)
    }

    /// The flags a segment of this process gets for the permissions `flags`.
    pub open spec fn segment_flags(&self, flags: usize) -> usize {
        if self.is_user {
            flags | FLAG_USER
        } else {
            flags
        }
    }

    /// Maps `size` bytes of fresh address space, rounded up to whole pages,
    /// at the first place `ALLOC_BASE + k * rounded` that overlaps no mapped
    /// segment, and returns the range of `size` bytes starting there.
    pub fn alloc_page_range(&mut self, size: usize, flags: usize) -> (r: Result<Range, AllocError>)
        ensures
            final(self).is_user == old(self).is_user,
            final(self).inner.threads == old(self).inner.threads,
            final(self).inner.mutex_queue == old(self).inner.mutex_queue,
            final(self).inner.next_mutex_id == old(self).inner.next_mutex_id,
            r == Err::<Range, AllocError>(AllocError::EmptyRange) <==> size == 0,
            r is Err ==> final(self).inner.memory_set.segments@ == old(self).inner.memory_set.segments@,
            r == Err::<Range, AllocError>(AllocError::AddressSpaceExhausted) ==> space_full(
                old(self).inner.memory_set.segments@,
                size,
            ),
            r is Ok ==> !space_full(old(self).inner.memory_set.segments@, size),
            r is Ok ==> exists|k: int|
                placed_at(
                    old(self).inner.memory_set.segments@,
                    final(self).inner.memory_set.segments@,
                    r->Ok_0,
                    size,
                    old(self).segment_flags(flags),
                    k,
                ),
    {
        if size == 0 {
            return Err(AllocError::EmptyRange);
        }
        if size > usize::MAX - (PAGE_SIZE - 1) {
            proof {
                assert forall|k: int|
                    k >= 0 && #[trigger] candidate(k, page_round_up(size as int)).1 <= usize::MAX
                        implies false by {
                    let a = page_round_up(size as int);
                    assert(a >= size) by (nonlinear_arith)
                        requires
                            a == (size + 4096 - 1) / 4096 * 4096,
                    ;
                    assert((k + 1) * a >= a) by (nonlinear_arith)
                        requires
                            k >= 0,
                            a >= 0,
                    ;
                }
            }
            return Err(AllocError::AddressSpaceExhausted);
        }
        let alloc_size: usize = (size + (PAGE_SIZE - 1)) / PAGE_SIZE * PAGE_SIZE;
        let ghost a = page_round_up(size as int);
        proof {
            assert(a <= size + 4095 && a >= size) by (nonlinear_arith)
                requires
                    a == (size + 4096 - 1) / 4096 * 4096,
            ;
        }
        let ghost segs = old(self).inner.memory_set.segments@;
        if alloc_size > usize::MAX - ALLOC_BASE {
            proof {
                assert forall|k: int|
                    k >= 0 && #[trigger] candidate(k, page_round_up(size as int)).1 <= usize::MAX
                        implies false by {
                    assert((k + 1) * a >= a) by (nonlinear_arith)
                        requires
                            k >= 0,
                            a >= 0,
                    ;
                }
            }
            return Err(AllocError::AddressSpaceExhausted);
        }
        let mut start: usize = ALLOC_BASE;
        let mut end: usize = ALLOC_BASE + alloc_size;
        let ghost mut k: int = 0;
        assert(alloc_size == a);
        assert(candidate(0, a) == (start as int, end as int)) by (nonlinear_arith)
            requires
                start == ALLOC_BASE,
                end == ALLOC_BASE + a,
        ;
        let mut busy = self.inner.memory_set.overlap_with(Range { start, end });
        while busy
            invariant
                busy == overlaps_any(segs, Range { start, end }),
                end == start + a,
                segs == old(self).inner.memory_set.segments@,
                self.inner.memory_set.segments@ == segs,
                *self == *old(self),
                a == page_round_up(size as int),
                alloc_size == a,
                a >= size,
                a > 0,
                k >= 0,
                candidate(k, a) == (start as int, end as int),
                forall|j: int|
                    0 <= j < k ==> overlaps_any(
                        segs,
                        #[trigger] candidate_range(j, a),
                    ),
            decreases usize::MAX - end,
        {
            proof {
                assert(Range { start, end } == candidate_range(k, a));
            }
            if end > usize::MAX - alloc_size {
                proof {
                    assert forall|j: int|
                        j >= 0 && #[trigger] candidate(j, page_round_up(size as int)).1 <= usize::MAX
                            implies overlaps_any(
                            segs,
                            candidate_range(j, page_round_up(size as int)),
                        ) by {
                        if j > k {
                            assert((j + 1) * a >= (k + 2) * a) by (nonlinear_arith)
                                requires
                                    j > k,
                                    a >= 0,
                            ;
                            assert(candidate(k + 1, a).1 == end + a) by (nonlinear_arith)
                                requires
                                    candidate(k, a).1 == end,
                            ;
                        }
                    }
                }
                return Err(AllocError::AddressSpaceExhausted);
            }
            proof {
                assert(candidate(k + 1, a) == (start + a, end + a)) by (nonlinear_arith)
                    requires
                        candidate(k, a) == (start as int, end as int),
                ;
            }
            start = start + alloc_size;
            end = end + alloc_size;
            proof {
                k = k + 1;
            }
            busy = self.inner.memory_set.overlap_with(Range { start, end });
        }
        let mapped = Range { start, end };
        let seg_flags: usize = if self.is_user {
            flags | FLAG_USER
        } else {
            flags
        };
        self.inner.memory_set.add_segment(Segment { range: mapped, flags: seg_flags });
        proof {
            assert(mapped == candidate_range(k, a));
            assert(Range { start, end } == candidate_range(k, a));
            assert(!overlaps_any(segs, candidate_range(k, a)));
            assert(start + size <= end);
            assert(candidate(k, a).1 <= usize::MAX);
            assert(self.inner.memory_set.segments@ == segs.push(
                Segment { range: candidate_range(k, a), flags: old(self).segment_flags(flags) },
            ));
            assert(placed_at(
                segs,
                self.inner.memory_set.segments@,
                Range { start, end: (start + size) as usize },
                size,
                old(self).segment_flags(flags),
                k,
            ));
        }
        let result = Range { start, end: start + size };
        assert(placed_at(
            old(self).inner.memory_set.segments@,
            self.inner.memory_set.segments@,
            result,
            size,
            old(self).segment_flags(flags),
            k,
        ));
        let r: Result<Range, AllocError> = Ok(result);
        assert(r->Ok_0 == result);
        assert(candidate(k, page_round_up(size as int)).1 <= usize::MAX);
        r
    }
}

} // verus!
