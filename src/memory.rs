//! Address ranges handed out by a process's address space.
use vstd::prelude::*;

verus! {

/// A half-open range `[start, end)` of virtual addresses.
#[derive(Clone, Copy, PartialEq, Eq, Structural, Debug)]
pub struct Range {
    pub start: usize,
    pub end: usize,
}

} // verus!
