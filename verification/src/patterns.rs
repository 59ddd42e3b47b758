//! The shapes that can be stamped onto a grid, as offsets from an anchor.

use crate::grid::wrap;
use vstd::prelude::*;

verus! {

/// The glider, as `(row, col)` offsets.
pub open spec fn spaceship() -> Seq<(int, int)> {
    seq![(0int, 1int), (1int, 2int), (2int, 0int), (2int, 1int), (2int, 2int)]
}

/// The signs that mirror one quadrant of the pulsar into all four.
pub open spec fn quadrants() -> Seq<(int, int)> {
    seq![(1int, 1int), (1int, -1int), (-1int, 1int), (-1int, -1int)]
}

/// One quadrant of the pulsar, as `(row, col)` offsets from its centre.
pub open spec fn pulsar_quadrant() -> Seq<(int, int)> {
    seq![
        (2int, 1int),
        (3int, 1int),
        (4int, 1int),
        (1int, 2int),
        (1int, 3int),
        (1int, 4int),
        (2int, 6int),
        (3int, 6int),
        (4int, 6int),
        (6int, 2int),
        (6int, 3int),
        (6int, 4int),
    ]
}

/// The pulsar: the quadrant under each of the four pairs of signs, quadrant
/// by quadrant.
pub open spec fn pulsar() -> Seq<(int, int)> {
    Seq::new(
        48,
        |k: int|
            (
                quadrants()[k / 12].0 * pulsar_quadrant()[k % 12].0,
                quadrants()[k / 12].1 * pulsar_quadrant()[k % 12].1,
            ),
    )
}

/// The positions that `offsets` reach from the anchor `(row, col)` on a
/// torus of the given dimensions.
pub open spec fn placed(offsets: Seq<(int, int)>, row: int, col: int, width: nat, height: nat) -> Seq<
    (int, int),
> {
    Seq::new(
        offsets.len(),
        |k: int| (wrap(row, offsets[k].0, height), wrap(col, offsets[k].1, width)),
    )
}

/// Where `step` steps from `coord` lead on an axis of extent `dim` that
/// closes on itself, for a coordinate and a step of either sign.
pub fn wrap_signed(coord: i32, step: i32, dim: u32) -> (at: u32)
    requires
        dim > 0,
    ensures
        at == wrap(coord as int, step as int, dim as nat),
{
    let target: i64 = coord as i64 + step as i64;
    let extent: i64 = dim as i64;
    if target >= 0 {
        (target % extent) as u32
    } else {
        let back: i64 = (-target) % extent;
        proof {
            let q = (-target) / (extent as int);
            vstd::arithmetic::div_mod::lemma_fundamental_div_mod(-target as int, extent as int);
            if back == 0 {
                assert(target == extent * (-q) + 0) by (nonlinear_arith)
                    requires
                        -target == extent * q + 0,
                ;
                vstd::arithmetic::div_mod::lemma_fundamental_div_mod_converse(
                    target as int,
                    extent as int,
                    -q,
                    0,
                );
            } else {
                assert(target == (-q - 1) * extent + (extent - back)) by (nonlinear_arith)
                    requires
                        -target == extent * q + back,
                ;
                vstd::arithmetic::div_mod::lemma_fundamental_div_mod_converse(
                    target as int,
                    extent as int,
                    -q - 1,
                    extent - back,
                );
            }
        }
        if back == 0 {
            0
        } else {
            (extent - back) as u32
        }
    }
}

} // verus!
