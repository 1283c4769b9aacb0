//! Edge bookkeeping of the mesh simplifier.
use vstd::prelude::*;

verus! {

/// An edge with its smaller vertex index first.
pub fn order_edge(a: u32, b: u32) -> (e: (u32, u32))
    ensures
        e == (if a < b { (a, b) } else { (b, a) }),
{
    if a < b {
        (a, b)
    } else {
        (b, a)
    }
}

} // verus!
