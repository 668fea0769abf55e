//! The longest-edge rotation table of the subdivision step.
//!
//! The altitude engine keeps the invariant that edge `ab` of the working
//! tetrahedron is its longest. When a scan of the six squared edge lengths
//! (in the order `ab, ac, ad, bc, bd, cd`) finds another edge longest, the
//! step permutes the four vertices by a fixed swap sequence before cutting.
//! The swap sequences are pure index work, so they live here, verified; the
//! renderer applies the resulting order to its vertices.

use vstd::prelude::*;

verus! {

/// The net vertex order that the swap sequence for longest edge `max`
/// produces: entry `i` says which old vertex (0 = a, 1 = b, 2 = c, 3 = d)
/// lands in position `i`.
pub open spec fn spec_edge_rotation(max: int) -> Seq<u8> {
    if max == 1 {
        seq![0u8, 2u8, 1u8, 3u8]
    } else if max == 2 {
        seq![0u8, 3u8, 1u8, 2u8]
    } else if max == 3 {
        seq![2u8, 0u8, 1u8, 3u8]
    } else if max == 4 {
        seq![1u8, 3u8, 0u8, 2u8]
    } else if max == 5 {
        seq![2u8, 3u8, 0u8, 1u8]
    } else {
        seq![0u8, 1u8, 2u8, 3u8]
    }
}

/// Performs the swap sequence of the subdivision step for the edge found
/// longest, and returns the vertex order it leaves behind. `max` indexes the
/// scan order `ab, ac, ad, bc, bd, cd`; for `max == 0` the tetrahedron is
/// already canonical and nothing moves.
pub fn edge_rotation_order(max: u8) -> (r: [u8; 4])
    requires
        max <= 5,
    ensures
        r@ == spec_edge_rotation(max as int),
{
    let mut a: u8 = 0;
    let mut b: u8 = 1;
    let mut c: u8 = 2;
    let mut d: u8 = 3;
    let mut t: u8 = 0;
    if max == 1 {
        t = b;
        b = c;
        c = t;
    } else if max == 2 {
        t = b;
        b = d;
        d = t;
        t = c;
        c = d;
        d = t;
    } else if max == 3 {
        t = a;
        a = c;
        c = t;
        t = b;
        b = c;
        c = t;
    } else if max == 4 {
        t = a;
        a = c;
        c = t;
        t = a;
        a = d;
        d = t;
        t = a;
        a = b;
        b = t;
    } else if max == 5 {
        t = a;
        a = c;
        c = t;
        t = b;
        b = d;
        d = t;
    }
    let r = [a, b, c, d];
    proof {
        assert(r@ =~= spec_edge_rotation(max as int));
    }
    r
}

} // verus!
