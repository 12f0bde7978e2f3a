//! A bump arena: a fixed region handed out front to back, never reclaimed.
use vstd::prelude::*;

verus! {

/// Size of the kernel's arena in bytes.
pub const ARENA_SIZE: usize = 0x10_0000;

/// An arena of `size` bytes of which the first `used` are handed out.
pub struct Arena {
    pub size: usize,
    pub used: usize,
}

impl Arena {
    pub open spec fn wf(&self) -> bool {
        self.used <= self.size
    }

    /// An arena of `size` bytes with nothing handed out.
    pub fn new(size: usize) -> (a: Arena)
        ensures
            a.wf(),
            a.size == size,
            a.used == 0,
    {
        Arena { size, used: 0 }
    }
}

/// Hands out the next `n` bytes of the arena as an offset into it; `None`
/// when fewer than `n` bytes are left.
pub fn arena_alloc(arena: &mut Arena, n: usize) -> (r: Option<usize>)
    requires
        old(arena).wf(),
    ensures
        final(arena).wf(),
        final(arena).size == old(arena).size,
        n <= old(arena).size - old(arena).used ==> r == Some(old(arena).used) && final(arena).used
            == old(arena).used + n,
        n > old(arena).size - old(arena).used ==> r is None && *final(arena) == *old(arena),
{
    if n > arena.size - arena.used {
        return None;
    }
    let at = arena.used;
    arena.used = arena.used + n;
    Some(at)
}

} // verus!
