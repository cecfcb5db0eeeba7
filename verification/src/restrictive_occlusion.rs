//! What the restrictive algorithm does not see: the cells behind an opaque
//! cell, along a row, a column or a diagonal.
use crate::cell_index;
use crate::fov_restrictive::restrictive;
use crate::geometry::{ray, Setup};
use crate::restrictive_axis::lemma_restrictive_axis_occlusion;
use crate::restrictive_diagonal::lemma_restrictive_diagonal_occlusion;
use crate::restrictive_proofs::lemma_restrictive_sees_unobstructed;
use vstd::prelude::*;

verus! {

/// The restrictive algorithm does not see past an opaque cell along a
/// row, a column or a diagonal: when the cell `wall` steps from the
/// observer in the direction `(dx, dy)` is opaque, no cell farther in that
/// direction is in the field of view, whatever else the map holds.
pub proof fn lemma_restrictive_occlusion(
    s: Setup,
    transparent: Seq<bool>,
    dx: int,
    dy: int,
    wall: int,
    far: int,
)
    requires
        s.wf(),
        transparent.len() == s.width * s.height,
        dx != 0 || dy != 0,
        1 <= wall < far,
        0 <= ray(s.x as int, dx, far) < s.width,
        0 <= ray(s.y as int, dy, far) < s.height,
        !transparent[cell_index(
            s.width as int,
            ray(s.x as int, dx, wall),
            ray(s.y as int, dy, wall),
        )],
    ensures
        !restrictive(s, transparent)[cell_index(
            s.width as int,
            ray(s.x as int, dx, far),
            ray(s.y as int, dy, far),
        )],
{
    if dx != 0 && dy != 0 {
        lemma_restrictive_diagonal_occlusion(s, transparent, dx, dy, wall, far);
    } else {
        lemma_restrictive_axis_occlusion(s, transparent, dx, dy, wall, far);
    }
}

/// A single opaque cell between the observer and a farther cell on the
/// same row, column or diagonal: the restrictive algorithm leaves the
/// farther cell dark, and puts the opaque cell in the field of view exactly
/// if `light_walls` is set and the cell is within the radius.
pub proof fn lemma_restrictive_lone_wall(
    s: Setup,
    transparent: Seq<bool>,
    dx: int,
    dy: int,
    wall: int,
    far: int,
)
    requires
        s.wf(),
        transparent.len() == s.width * s.height,
        dx != 0 || dy != 0,
        1 <= wall < far,
        0 <= ray(s.x as int, dx, far) < s.width,
        0 <= ray(s.y as int, dy, far) < s.height,
        forall|i: int|
            0 <= i < transparent.len() ==> (transparent[i] <==> i != cell_index(
                s.width as int,
                ray(s.x as int, dx, wall),
                ray(s.y as int, dy, wall),
            )),
    ensures
        !restrictive(s, transparent)[cell_index(
            s.width as int,
            ray(s.x as int, dx, far),
            ray(s.y as int, dy, far),
        )],
        restrictive(s, transparent)[cell_index(
            s.width as int,
            ray(s.x as int, dx, wall),
            ray(s.y as int, dy, wall),
        )] == (s.light_walls && s.near(ray(s.x as int, dx, wall), ray(s.y as int, dy, wall))),
{
    let wx = ray(s.x as int, dx, wall);
    let wy = ray(s.y as int, dy, wall);
    crate::lemma_cell_index_in_range(s.width as int, s.height as int, wx, wy);
    lemma_restrictive_occlusion(s, transparent, dx, dy, wall, far);
    lemma_restrictive_sees_unobstructed(s, transparent, wx, wy);
}

} // verus!
