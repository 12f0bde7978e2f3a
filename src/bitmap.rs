//! Navigation in a tree laid out over the indices `1..=length`, where a
//! node's lowest set bit gives its level: `0b1000` has the children
//! `0b0100`, `0b0110` and `0b0111`, and `0b0100` has `0b0010` and `0b0011`.
use vstd::prelude::*;

verus! {

/// The lowest set bit of `x`, zero for zero.
pub open spec fn spec_lowbit(x: usize) -> usize {
    if x == 0 {
        0
    } else {
        x & !((x - 1) as usize)
    }
}

/// The lowest set bit of `x` is a single bit of `x`, below which `x` has none.
pub proof fn lemma_lowbit(x: usize)
    requires
        x != 0,
    ensures
        spec_lowbit(x) != 0,
        spec_lowbit(x) & x == spec_lowbit(x),
        spec_lowbit(x) & ((spec_lowbit(x) - 1) as usize) == 0,
        x & ((spec_lowbit(x) - 1) as usize) == 0,
        spec_lowbit(x) <= x,
{
    let y = (x - 1) as usize;
    let r = x & !y;
    assert(r != 0 && r & x == r && r & ((r - 1) as usize) == 0 && x & ((r - 1) as usize) == 0 && r
        <= x) by (bit_vector)
        requires
            x != 0,
            y == x - 1,
            r == x & !y,
    ;
}

/// The lowest set bit of `x`, zero for zero.
pub fn lowbit(x: usize) -> (r: usize)
    ensures
        r == spec_lowbit(x),
{
    if x == 0 {
        0
    } else {
        x & !(x - 1)
    }
}

/// The first child of `node`; a leaf (odd index) is its own first child.
pub fn first_son(node: usize) -> (r: usize)
    ensures
        r == node - (spec_lowbit(node) >> 1),
{
    let b = lowbit(node);
    proof {
        if node != 0 {
            lemma_lowbit(node);
        }
        assert(b >> 1 <= b) by (bit_vector);
    }
    node - (b >> 1)
}

/// The parent of `node`.
pub fn father(node: usize) -> (r: usize)
    requires
        node + spec_lowbit(node) <= usize::MAX,
    ensures
        r == node + spec_lowbit(node),
{
    node + lowbit(node)
}

/// The next node on the same level, under the same parent.
pub fn next_sibling(node: usize) -> (r: usize)
    requires
        node + (spec_lowbit(node) >> 1) <= usize::MAX,
    ensures
        r == node + (spec_lowbit(node) >> 1),
{
    node + (lowbit(node) >> 1)
}

/// The first node on the level of `node`, under the same parent.
pub fn first_sibling(node: usize) -> (r: usize)
    requires
        node + spec_lowbit(node) <= usize::MAX,
    ensures
        r == (node + spec_lowbit(node)) - (spec_lowbit((node + spec_lowbit(node)) as usize) >> 1),
{
    first_son(father(node))
}

} // verus!
