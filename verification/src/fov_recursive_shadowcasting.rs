use crate::geometry::{lemma_cell_fits, nth_octant, setup_of, Octant, Setup};
use crate::shadowcasting_proofs::lemma_shadowcast_lights_only;
use crate::slope::{lower_slope, slope_lt, upper_slope, Ratio, Slope};
use crate::{FovAlgorithm, MapData};
use vstd::prelude::*;

verus! {

/// Recursive shadowcasting. Fast and produces good results.
///
/// Each octant is scanned row by row, away from the observer. A scan keeps
/// the interval of slopes `[end, start]` through which the observer still
/// sees; it begins as `[0, 1]`. A cell is looked at when its own slope
/// interval, from `lower_slope` to `upper_slope`, meets the scan's. A cell
/// that is looked at is put in the field of view when it is within the
/// radius (by Euclidean distance) and is transparent or `light_walls` is
/// set. An opaque cell splits the scan: what lies above it is scanned by a
/// scan of its own, which starts in the next row, and the scan goes on
/// below it.
pub struct FovRecursiveShadowCasting {}

/// The field of view after the scan of octant `o` has gone on from the cell
/// `(across, along)`, with the slope interval `[end, start]`, into the field
/// of view `fov`. `blocked` tells that the cell before was opaque.
pub open spec fn scan(
    s: Setup,
    transparent: Seq<bool>,
    o: Octant,
    fov: Seq<bool>,
    along: int,
    across: int,
    start: Slope,
    end: Slope,
    blocked: bool,
) -> Seq<bool>
    decreases s.reach(o) - along, across + 1,
{
    let last = s.reach(o);
    if !(1 <= along <= last) {
        fov
    } else if across < 0 || (s.on_map(o, across, along) && !slope_lt(
        start,
        lower_slope(across, along),
    ) && slope_lt(upper_slope(across, along), end)) {
        // The row is finished: its last cell is passed, or this cell and
        // those after it lie below the interval. Below an opaque cell the
        // scan ends; else it goes on in the next row.
        if blocked || along >= last {
            fov
        } else {
            scan(s, transparent, o, fov, along + 1, along + 1, start, end, false)
        }
    } else if !s.on_map(o, across, along) || slope_lt(start, lower_slope(across, along)) {
        // The cell is off the map or lies above the interval.
        scan(s, transparent, o, fov, along, across - 1, start, end, blocked)
    } else {
        let c = s.cell(o, across, along);
        let lit = if s.in_radius(across, along) && (s.light_walls || transparent[c]) {
            fov.update(c, true)
        } else {
            fov
        };
        if transparent[c] {
            scan(s, transparent, o, lit, along, across - 1, start, end, false)
        } else if blocked {
            scan(s, transparent, o, lit, along, across - 1, lower_slope(across, along), end, true)
        } else if along < last {
            let above = cast(s, transparent, o, lit, along + 1, start, upper_slope(across, along));
            scan(s, transparent, o, above, along, across - 1, lower_slope(across, along), end, true)
        } else {
            scan(s, transparent, o, lit, along, across - 1, start, end, false)
        }
    }
}

/// The field of view after a scan of octant `o` that starts in row `row`
/// with the slope interval `[end, start]`. An empty interval changes nothing.
pub open spec fn cast(
    s: Setup,
    transparent: Seq<bool>,
    o: Octant,
    fov: Seq<bool>,
    row: int,
    start: Slope,
    end: Slope,
) -> Seq<bool>
    decreases s.reach(o) - row + 1, 0int,
{
    if slope_lt(start, end) || !(1 <= row <= s.reach(o)) {
        fov
    } else {
        scan(s, transparent, o, fov, row, row, start, end, false)
    }
}

/// The field of view after the first `count` octants were scanned in full,
/// each from row 1 with the slope interval `[0, 1]`.
pub open spec fn cast_octants(s: Setup, transparent: Seq<bool>, count: int, fov: Seq<bool>) -> Seq<
    bool,
>
    decreases count,
{
    if count <= 0 {
        fov
    } else {
        cast(
            s,
            transparent,
            nth_octant(count - 1),
            cast_octants(s, transparent, count - 1, fov),
            1,
            Slope { num: 1, den: 1 },
            Slope { num: 0, den: 1 },
        )
    }
}

/// The field of view that recursive shadowcasting computes: all eight
/// octants scanned into an empty field of view, and the observer's own cell.
pub open spec fn shadowcast(s: Setup, transparent: Seq<bool>) -> Seq<bool> {
    cast_octants(s, transparent, 8, Seq::new(transparent.len(), |i: int| false)).update(
        s.observer(),
        true,
    )
}

impl FovRecursiveShadowCasting {
    pub fn new() -> (fov: Self)
        ensures
            fov == (FovRecursiveShadowCasting {}),
    {
        Self {}
    }

    /// Scans octant `o` from row `row` on with the slope interval
    /// `[end, start]`.
    fn cast_light(
        s: Setup,
        o: Octant,
        transparent: &Vec<bool>,
        fov: &mut Vec<bool>,
        row: usize,
        start: Ratio,
        end: Ratio,
    )
        requires
            s.wf(),
            transparent@.len() == s.width * s.height,
            old(fov)@.len() == s.width * s.height,
            s.fits(o, start@),
            s.fits(o, end@),
        ensures
            final(fov)@.len() == old(fov)@.len(),
            final(fov)@ == cast(s, transparent@, o, old(fov)@, row as int, start@, end@),
        decreases s.reach(o) - row + 1,
    {
        let last: usize = s.last_row(o);
        if s.less(start, end, Ghost(o)) || row < 1 || row > last {
            return ;
        }
        let ghost seen = scan(s, transparent@, o, fov@, row as int, row as int, start@, end@, false);
        let mut along: usize = row;
        // the cells `0..left` of the row are still to be looked at
        let mut left: usize = row + 1;
        let mut start: Ratio = start;
        let mut blocked: bool = false;
        loop
            invariant
                s.wf(),
                last == s.reach(o),
                transparent@.len() == s.width * s.height,
                fov@.len() == s.width * s.height,
                1 <= row <= along <= last,
                left <= along + 1,
                s.fits(o, start@),
                s.fits(o, end@),
                scan(s, transparent@, o, fov@, along as int, left - 1, start@, end@, blocked)
                    == seen,
            ensures
                fov@.len() == s.width * s.height,
                fov@ == seen,
            decreases last - along, left,
        {
            let mut row_done: bool = left == 0;
            if !row_done {
                let across: usize = left - 1;
                match s.locate(o, across, along) {
                    None => {
                        left = across;
                    },
                    Some(c) => {
                        proof {
                            lemma_cell_fits(s, o, across as int, along as int);
                        }
                        let lower: Ratio = Ratio::lower(across, along);
                        let upper: Ratio = Ratio::upper(across, along);
                        if s.less(start, lower, Ghost(o)) {
                            left = across;
                        } else if s.less(upper, end, Ghost(o)) {
                            row_done = true;
                        } else {
                            let clear: bool = transparent[c];
                            if s.within_radius(across, along) && (s.light_walls || clear) {
                                fov[c] = true;
                            }
                            if clear {
                                blocked = false;
                            } else if blocked {
                                start = lower;
                            } else if along < last {
                                Self::cast_light(s, o, transparent, fov, along + 1, start, upper);
                                start = lower;
                                blocked = true;
                            }
                            left = across;
                        }
                    },
                }
            }
            if row_done {
                if blocked || along >= last {
                    break ;
                }
                along += 1;
                left = along + 1;
                blocked = false;
            }
        }
    }
}

impl FovAlgorithm for FovRecursiveShadowCasting {
    /// The observer must stand on the map.
    open spec fn accepts(&self, map: &MapData, x: usize, y: usize) -> bool {
        x < map.width && y < map.height
    }

    /// What `shadowcast` gives for the map's size and transparency. The
    /// field of view that the map held before plays no part.
    open spec fn field_of_view(
        &self,
        map: &MapData,
        x: usize,
        y: usize,
        max_radius: usize,
        light_walls: bool,
    ) -> Seq<bool> {
        shadowcast(setup_of(map, x, y, max_radius, light_walls), map.transparent@)
    }

    /// Replaces the map's field of view by what the observer at `(x, y)`
    /// sees. The observer's own cell is always in it; any other cell only
    /// if it is within the radius and is transparent or `light_walls` is set.
    fn compute_fov(
        &mut self,
        map: &mut MapData,
        x: usize,
        y: usize,
        max_radius: usize,
        light_walls: bool,
    )
        ensures
            final(map).fov@[old(map).index_of(x as int, y as int)],
            forall|cx: int, cy: int|
                #![trigger old(map).index_of(cx, cy)]
                old(map).in_bounds(cx, cy) && (cx != x || cy != y) && final(map).fov@[old(
                    map,
                ).index_of(cx, cy)] ==> setup_of(old(map), x, y, max_radius, light_walls).near(
                    cx,
                    cy,
                ) && (light_walls || old(map).transparent@[old(map).index_of(cx, cy)]),
    {
        proof {
            map.lemma_index_fits(x as int, y as int);
        }
        map.clear_fov();
        let s = Setup { width: map.width, height: map.height, x, y, max_radius, light_walls };
        let ghost empty = map.fov@;
        let mut k: usize = 0;
        while k < 8
            invariant
                k <= 8,
                s.wf(),
                s == setup_of(old(map), x, y, max_radius, light_walls),
                map.wf(),
                map.width == old(map).width,
                map.height == old(map).height,
                map.transparent@ == old(map).transparent@,
                empty == Seq::new(map.transparent@.len(), |i: int| false),
                map.fov@ == cast_octants(s, map.transparent@, k as int, empty),
            decreases 8 - k,
        {
            let o = Octant::nth(k);
            Self::cast_light(
                s,
                o,
                &map.transparent,
                &mut map.fov,
                1,
                Ratio { num: 1, den: 1 },
                Ratio { num: 0, den: 1 },
            );
            k += 1;
        }
        map.fov[x + y * map.width] = true;
        proof {
            assert forall|cx: int, cy: int|
                #![trigger old(map).index_of(cx, cy)]
                old(map).in_bounds(cx, cy) && (cx != x || cy != y) && map.fov@[old(map).index_of(
                    cx,
                    cy,
                )] implies s.near(cx, cy) && (light_walls || old(map).transparent@[old(
                map,
            ).index_of(cx, cy)]) by {
                lemma_shadowcast_lights_only(s, map.transparent@, cx, cy);
            }
        }
    }
}

} // verus!
