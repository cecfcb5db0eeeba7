//! What recursive shadowcasting sees and does not see.
use crate::cell_index;
use crate::fov_recursive_shadowcasting::{cast, cast_octants, scan, shadowcast};
use crate::geometry::{
    covers, lemma_cell_fits, lemma_cell_is, lemma_cell_of, lemma_cells_differ,
    lemma_octant_number, lemma_octant_of, lemma_row_in_reach, lemma_wide_radius, nth_octant,
    octant_number, octant_of, ray, Octant, Setup,
};
use crate::slope::{
    lemma_ray_slopes, lemma_shadow_on_edge, lemma_slope_chain, lemma_slopes_grow_across,
    lower_slope, slope_le, slope_lt, upper_slope, Slope,
};
use vstd::prelude::*;

verus! {

/// A scan with a radius of at least `width + height` goes as the scan with
/// the radius 0 does.
proof fn lemma_scan_wide_radius(
    s: Setup,
    radius: usize,
    transparent: Seq<bool>,
    o: Octant,
    fov: Seq<bool>,
    along: int,
    across: int,
    start: Slope,
    end: Slope,
    blocked: bool,
)
    requires
        s.wf(),
        radius >= s.width + s.height,
        across <= along,
    ensures
        scan(s.with_radius(radius), transparent, o, fov, along, across, start, end, blocked)
            == scan(s.with_radius(0), transparent, o, fov, along, across, start, end, blocked),
    decreases s.with_radius(0).reach(o) - along, across + 1,
{
    let wide = s.with_radius(radius);
    let free = s.with_radius(0);
    let last = free.reach(o);
    lemma_wide_radius(s, radius, o, across, along);
    if !(1 <= along <= last) {
    } else if across < 0 || (free.on_map(o, across, along) && !slope_lt(
        start,
        lower_slope(across, along),
    ) && slope_lt(upper_slope(across, along), end)) {
        if blocked || along >= last {
        } else {
            lemma_scan_wide_radius(
                s,
                radius,
                transparent,
                o,
                fov,
                along + 1,
                along + 1,
                start,
                end,
                false,
            );
        }
    } else if !free.on_map(o, across, along) || slope_lt(start, lower_slope(across, along)) {
        lemma_scan_wide_radius(
            s,
            radius,
            transparent,
            o,
            fov,
            along,
            across - 1,
            start,
            end,
            blocked,
        );
    } else {
        let c = free.cell(o, across, along);
        assert(wide.cell(o, across, along) == c);
        assert(wide.in_radius(across, along) && free.in_radius(across, along));
        let lit = if free.light_walls || transparent[c] {
            fov.update(c, true)
        } else {
            fov
        };
        let lower = lower_slope(across, along);
        let upper = upper_slope(across, along);
        if transparent[c] {
            lemma_scan_wide_radius(
                s,
                radius,
                transparent,
                o,
                lit,
                along,
                across - 1,
                start,
                end,
                false,
            );
        } else if blocked {
            lemma_scan_wide_radius(
                s,
                radius,
                transparent,
                o,
                lit,
                along,
                across - 1,
                lower,
                end,
                true,
            );
        } else if along < last {
            lemma_scan_wide_radius(
                s,
                radius,
                transparent,
                o,
                lit,
                along + 1,
                along + 1,
                start,
                upper,
                false,
            );
            let above = cast(free, transparent, o, lit, along + 1, start, upper);
            assert(cast(wide, transparent, o, lit, along + 1, start, upper) == above);
            lemma_scan_wide_radius(
                s,
                radius,
                transparent,
                o,
                above,
                along,
                across - 1,
                lower,
                end,
                true,
            );
        } else {
            lemma_scan_wide_radius(
                s,
                radius,
                transparent,
                o,
                lit,
                along,
                across - 1,
                start,
                end,
                false,
            );
        }
    }
}

/// The octants are scanned alike with a radius of at least
/// `width + height` and with the radius 0.
proof fn lemma_octants_wide_radius(
    s: Setup,
    radius: usize,
    transparent: Seq<bool>,
    count: int,
    fov: Seq<bool>,
)
    requires
        s.wf(),
        radius >= s.width + s.height,
    ensures
        cast_octants(s.with_radius(radius), transparent, count, fov) == cast_octants(
            s.with_radius(0),
            transparent,
            count,
            fov,
        ),
    decreases count,
{
    if count > 0 {
        lemma_octants_wide_radius(s, radius, transparent, count - 1, fov);
        let o = nth_octant(count - 1);
        lemma_wide_radius(s, radius, o, 0, 0);
        lemma_scan_wide_radius(
            s,
            radius,
            transparent,
            o,
            cast_octants(s.with_radius(0), transparent, count - 1, fov),
            1,
            1,
            Slope { num: 1, den: 1 },
            Slope { num: 0, den: 1 },
            false,
        );
    }
}

/// Recursive shadowcasting with a radius of at least `width + height` sees
/// what it sees with the unlimited radius 0.
pub proof fn lemma_shadowcast_unlimited_radius(s: Setup, transparent: Seq<bool>, radius: usize)
    requires
        s.wf(),
        radius >= s.width + s.height,
    ensures
        shadowcast(s.with_radius(radius), transparent) == shadowcast(
            s.with_radius(0),
            transparent,
        ),
{
    lemma_octants_wide_radius(
        s,
        radius,
        transparent,
        8,
        Seq::new(transparent.len(), |i: int| false),
    );
}

/// The field of view of recursive shadowcasting depends on the map's size
/// and transparency, the observer, the radius and `light_walls`, and on
/// nothing else: not on the field of view that the map held before.
pub proof fn lemma_shadowcast_repeatable(
    algorithm: crate::FovRecursiveShadowCasting,
    first: crate::MapData,
    second: crate::MapData,
    x: usize,
    y: usize,
    max_radius: usize,
    light_walls: bool,
)
    requires
        first.width == second.width,
        first.height == second.height,
        first.transparent@ == second.transparent@,
    ensures
        crate::FovAlgorithm::field_of_view(&algorithm, &first, x, y, max_radius, light_walls)
            == crate::FovAlgorithm::field_of_view(
            &algorithm,
            &second,
            x,
            y,
            max_radius,
            light_walls,
        ),
{
}

/// A scan only adds to the field of view.
pub proof fn lemma_scan_keeps(
    s: Setup,
    transparent: Seq<bool>,
    o: Octant,
    fov: Seq<bool>,
    along: int,
    across: int,
    start: Slope,
    end: Slope,
    blocked: bool,
)
    requires
        s.wf(),
        fov.len() == s.width * s.height,
    ensures
        covers(scan(s, transparent, o, fov, along, across, start, end, blocked), fov),
    decreases s.reach(o) - along, across + 1,
{
    let last = s.reach(o);
    if !(1 <= along <= last) {
    } else if across < 0 || (s.on_map(o, across, along) && !slope_lt(
        start,
        lower_slope(across, along),
    ) && slope_lt(upper_slope(across, along), end)) {
        if blocked || along >= last {
        } else {
            lemma_scan_keeps(s, transparent, o, fov, along + 1, along + 1, start, end, false);
        }
    } else if !s.on_map(o, across, along) || slope_lt(start, lower_slope(across, along)) {
        lemma_scan_keeps(s, transparent, o, fov, along, across - 1, start, end, blocked);
    } else {
        lemma_cell_fits(s, o, across, along);
        let c = s.cell(o, across, along);
        let lit = if s.in_radius(across, along) && (s.light_walls || transparent[c]) {
            fov.update(c, true)
        } else {
            fov
        };
        assert(covers(lit, fov));
        let lower = lower_slope(across, along);
        let upper = upper_slope(across, along);
        if transparent[c] {
            lemma_scan_keeps(s, transparent, o, lit, along, across - 1, start, end, false);
        } else if blocked {
            lemma_scan_keeps(s, transparent, o, lit, along, across - 1, lower, end, true);
        } else if along < last {
            lemma_scan_keeps(s, transparent, o, lit, along + 1, along + 1, start, upper, false);
            let above = cast(s, transparent, o, lit, along + 1, start, upper);
            assert(covers(above, lit));
            lemma_scan_keeps(s, transparent, o, above, along, across - 1, lower, end, true);
        } else {
            lemma_scan_keeps(s, transparent, o, lit, along, across - 1, start, end, false);
        }
    }
}

/// What a scan of octant `o` adds to the field of view are cells of `o`
/// within the radius that are transparent, or opaque with `light_walls` set.
pub proof fn lemma_scan_lights_only(
    s: Setup,
    transparent: Seq<bool>,
    o: Octant,
    fov: Seq<bool>,
    along: int,
    across: int,
    start: Slope,
    end: Slope,
    blocked: bool,
    cx: int,
    cy: int,
)
    requires
        s.wf(),
        fov.len() == s.width * s.height,
        across <= along,
        0 <= cx < s.width,
        0 <= cy < s.height,
    ensures
        ({
            let c = cell_index(s.width as int, cx, cy);
            scan(s, transparent, o, fov, along, across, start, end, blocked)[c] ==> fov[c] || (
            s.in_octant(o, cx, cy) && s.near(cx, cy) && (s.light_walls || transparent[c]))
        }),
    decreases s.reach(o) - along, across + 1,
{
    let last = s.reach(o);
    let target = cell_index(s.width as int, cx, cy);
    lemma_cell_of(s, o, cx, cy);
    if !(1 <= along <= last) {
    } else if across < 0 || (s.on_map(o, across, along) && !slope_lt(
        start,
        lower_slope(across, along),
    ) && slope_lt(upper_slope(across, along), end)) {
        if blocked || along >= last {
        } else {
            lemma_scan_lights_only(
                s,
                transparent,
                o,
                fov,
                along + 1,
                along + 1,
                start,
                end,
                false,
                cx,
                cy,
            );
        }
    } else if !s.on_map(o, across, along) || slope_lt(start, lower_slope(across, along)) {
        lemma_scan_lights_only(
            s,
            transparent,
            o,
            fov,
            along,
            across - 1,
            start,
            end,
            blocked,
            cx,
            cy,
        );
    } else {
        lemma_cell_fits(s, o, across, along);
        let c = s.cell(o, across, along);
        if c == target {
            lemma_cell_is(s, o, across, along, cx, cy);
        }
        let lit = if s.in_radius(across, along) && (s.light_walls || transparent[c]) {
            fov.update(c, true)
        } else {
            fov
        };
        let lower = lower_slope(across, along);
        let upper = upper_slope(across, along);
        if transparent[c] {
            lemma_scan_lights_only(
                s,
                transparent,
                o,
                lit,
                along,
                across - 1,
                start,
                end,
                false,
                cx,
                cy,
            );
        } else if blocked {
            lemma_scan_lights_only(
                s,
                transparent,
                o,
                lit,
                along,
                across - 1,
                lower,
                end,
                true,
                cx,
                cy,
            );
        } else if along < last {
            lemma_scan_lights_only(
                s,
                transparent,
                o,
                lit,
                along + 1,
                along + 1,
                start,
                upper,
                false,
                cx,
                cy,
            );
            lemma_scan_keeps(s, transparent, o, lit, along + 1, along + 1, start, upper, false);
            let above = cast(s, transparent, o, lit, along + 1, start, upper);
            lemma_scan_lights_only(
                s,
                transparent,
                o,
                above,
                along,
                across - 1,
                lower,
                end,
                true,
                cx,
                cy,
            );
        } else {
            lemma_scan_lights_only(
                s,
                transparent,
                o,
                lit,
                along,
                across - 1,
                start,
                end,
                false,
                cx,
                cy,
            );
        }
    }
}

/// The first `count` octants only add to the field of view.
pub proof fn lemma_octants_keep(s: Setup, transparent: Seq<bool>, count: int, fov: Seq<bool>)
    requires
        s.wf(),
        fov.len() == s.width * s.height,
    ensures
        covers(cast_octants(s, transparent, count, fov), fov),
    decreases count,
{
    if count > 0 {
        lemma_octants_keep(s, transparent, count - 1, fov);
        lemma_scan_keeps(
            s,
            transparent,
            nth_octant(count - 1),
            cast_octants(s, transparent, count - 1, fov),
            1,
            1,
            Slope { num: 1, den: 1 },
            Slope { num: 0, den: 1 },
            false,
        );
    }
}

/// What the first `count` octants add to the field of view are cells
/// within the radius that are transparent, or opaque with `light_walls` set.
proof fn lemma_octants_light_only(
    s: Setup,
    transparent: Seq<bool>,
    count: int,
    fov: Seq<bool>,
    cx: int,
    cy: int,
)
    requires
        s.wf(),
        fov.len() == s.width * s.height,
        0 <= cx < s.width,
        0 <= cy < s.height,
    ensures
        ({
            let c = cell_index(s.width as int, cx, cy);
            cast_octants(s, transparent, count, fov)[c] ==> fov[c] || (s.near(cx, cy) && (
            s.light_walls || transparent[c]))
        }),
    decreases count,
{
    if count > 0 {
        lemma_octants_light_only(s, transparent, count - 1, fov, cx, cy);
        lemma_octants_keep(s, transparent, count - 1, fov);
        lemma_scan_lights_only(
            s,
            transparent,
            nth_octant(count - 1),
            cast_octants(s, transparent, count - 1, fov),
            1,
            1,
            Slope { num: 1, den: 1 },
            Slope { num: 0, den: 1 },
            false,
            cx,
            cy,
        );
    }
}

/// Apart from the observer's own cell, recursive shadowcasting puts a cell
/// in the field of view only if it is within the radius and is transparent
/// or `light_walls` is set.
pub proof fn lemma_shadowcast_lights_only(s: Setup, transparent: Seq<bool>, cx: int, cy: int)
    requires
        s.wf(),
        transparent.len() == s.width * s.height,
        0 <= cx < s.width,
        0 <= cy < s.height,
        cx != s.x || cy != s.y,
    ensures
        ({
            let c = cell_index(s.width as int, cx, cy);
            shadowcast(s, transparent)[c] ==> s.near(cx, cy) && (s.light_walls || transparent[c])
        }),
{
    let empty = Seq::new(transparent.len(), |i: int| false);
    lemma_octants_light_only(s, transparent, 8, empty, cx, cy);
    lemma_octants_keep(s, transparent, 8, empty);
    crate::lemma_cell_index_in_range(s.width as int, s.height as int, cx, cy);
    crate::lemma_cell_index_in_range(s.width as int, s.height as int, s.x as int, s.y as int);
    if cell_index(s.width as int, cx, cy) == s.observer() {
        crate::lemma_cell_index_injective(s.width as int, cx, cy, s.x as int, s.y as int);
    }
}

/// What a scan knows of an opaque cell `(wall_across, wall_along)` once it
/// has passed it: the scan's slope interval `[end, start]` lies below the
/// cell's slopes or above them.
pub open spec fn passed(
    s: Setup,
    o: Octant,
    wall_across: int,
    wall_along: int,
    along: int,
    across: int,
    start: Slope,
    end: Slope,
) -> bool {
    (along > wall_along || (along == wall_along && across < wall_across && along < s.reach(o)))
        ==> (slope_le(start, lower_slope(wall_across, wall_along)) || slope_le(
        upper_slope(wall_across, wall_along),
        end,
    ))
}

/// An interval inside one that lies below or above a cell's slopes lies
/// below or above them too.
proof fn lemma_passed_narrower(
    lower: Slope,
    upper: Slope,
    start: Slope,
    end: Slope,
    start2: Slope,
    end2: Slope,
)
    requires
        0 < lower.den,
        0 < upper.den,
        0 < start.den,
        0 < end.den,
        0 < start2.den,
        0 < end2.den,
        slope_le(start2, start),
        slope_le(end, end2),
        slope_le(start, lower) || slope_le(upper, end),
    ensures
        slope_le(start2, lower) || slope_le(upper, end2),
{
    if slope_le(start, lower) {
        lemma_slope_chain(start2, start, lower);
    } else {
        lemma_slope_chain(upper, end, end2);
    }
}

/// A scan that has passed an opaque cell leaves dark every cell of a later
/// row whose slopes lie strictly between the slopes of the opaque cell.
pub proof fn lemma_scan_shadow(
    s: Setup,
    transparent: Seq<bool>,
    o: Octant,
    fov: Seq<bool>,
    along: int,
    across: int,
    start: Slope,
    end: Slope,
    blocked: bool,
    wall_across: int,
    wall_along: int,
    far_across: int,
    far_along: int,
)
    requires
        s.wf(),
        fov.len() == s.width * s.height,
        transparent.len() == s.width * s.height,
        across <= along,
        0 < start.den,
        0 < end.den,
        0 <= wall_across <= wall_along,
        1 <= wall_along < far_along,
        0 <= far_across <= far_along,
        s.on_map(o, wall_across, wall_along),
        s.on_map(o, far_across, far_along),
        !transparent[s.cell(o, wall_across, wall_along)],
        slope_lt(lower_slope(wall_across, wall_along), lower_slope(far_across, far_along)),
        slope_lt(upper_slope(far_across, far_along), upper_slope(wall_across, wall_along)),
        passed(s, o, wall_across, wall_along, along, across, start, end),
        !fov[s.cell(o, far_across, far_along)],
    ensures
        !scan(s, transparent, o, fov, along, across, start, end, blocked)[s.cell(
            o,
            far_across,
            far_along,
        )],
    decreases s.reach(o) - along, across + 1,
{
    let last = s.reach(o);
    let wlo = lower_slope(wall_across, wall_along);
    let wup = upper_slope(wall_across, wall_along);
    let flo = lower_slope(far_across, far_along);
    let fup = upper_slope(far_across, far_along);
    let lower = lower_slope(across, along);
    let upper = upper_slope(across, along);
    if !(1 <= along <= last) {
    } else if across < 0 || (s.on_map(o, across, along) && !slope_lt(start, lower) && slope_lt(
        upper,
        end,
    )) {
        if blocked || along >= last {
        } else {
            if along == wall_along && across >= wall_across {
                lemma_slopes_grow_across(wall_across, across, along);
                lemma_slope_chain(wup, upper, end);
            }
            lemma_scan_shadow(
                s,
                transparent,
                o,
                fov,
                along + 1,
                along + 1,
                start,
                end,
                false,
                wall_across,
                wall_along,
                far_across,
                far_along,
            );
        }
    } else if !s.on_map(o, across, along) || slope_lt(start, lower) {
        lemma_scan_shadow(
            s,
            transparent,
            o,
            fov,
            along,
            across - 1,
            start,
            end,
            blocked,
            wall_across,
            wall_along,
            far_across,
            far_along,
        );
    } else {
        let c = s.cell(o, across, along);
        if across == far_across && along == far_along {
            if slope_le(start, wlo) {
                lemma_slope_chain(start, wlo, flo);
            } else {
                lemma_slope_chain(fup, wup, end);
            }
            assert(false);
        }
        lemma_cells_differ(s, o, across, along, far_across, far_along);
        let lit = if s.in_radius(across, along) && (s.light_walls || transparent[c]) {
            fov.update(c, true)
        } else {
            fov
        };
        assert(!lit[s.cell(o, far_across, far_along)]);
        let held = along > wall_along || (along == wall_along && across < wall_across && along
            < last);
        if transparent[c] {
            lemma_scan_shadow(
                s,
                transparent,
                o,
                lit,
                along,
                across - 1,
                start,
                end,
                false,
                wall_across,
                wall_along,
                far_across,
                far_along,
            );
        } else if blocked || along < last {
            // the scan goes on below the cell, and above it in a scan of its own
            if held {
                lemma_passed_narrower(wlo, wup, start, end, lower, upper);
                lemma_passed_narrower(wlo, wup, start, end, lower, end);
                lemma_passed_narrower(wlo, wup, start, end, start, upper);
            } else if along == wall_along && across >= wall_across {
                lemma_slopes_grow_across(wall_across, across, along);
            }
            let above = if blocked {
                lit
            } else {
                cast(s, transparent, o, lit, along + 1, start, upper)
            };
            if !blocked {
                lemma_scan_keeps(s, transparent, o, lit, along + 1, along + 1, start, upper, false);
                lemma_scan_shadow(
                    s,
                    transparent,
                    o,
                    lit,
                    along + 1,
                    along + 1,
                    start,
                    upper,
                    false,
                    wall_across,
                    wall_along,
                    far_across,
                    far_along,
                );
            }
            lemma_scan_shadow(
                s,
                transparent,
                o,
                above,
                along,
                across - 1,
                lower,
                end,
                true,
                wall_across,
                wall_along,
                far_across,
                far_along,
            );
        } else {
            lemma_scan_shadow(
                s,
                transparent,
                o,
                lit,
                along,
                across - 1,
                start,
                end,
                false,
                wall_across,
                wall_along,
                far_across,
                far_along,
            );
        }
    }
}

/// Every cell of octant `o` that a scan meets before the cell
/// `(across, along)` is transparent.
pub open spec fn clear_before(
    s: Setup,
    transparent: Seq<bool>,
    o: Octant,
    across: int,
    along: int,
) -> bool {
    forall|a: int, j: int|
        0 <= a <= j && 1 <= j && s.on_map(o, a, j) && (j < along || (j == along && a > across))
            ==> transparent[#[trigger] s.cell(o, a, j)]
}

/// A scan with the full slope interval that meets nothing opaque on its way
/// to a cell puts the cell in the field of view, if the cell is within the
/// radius and is transparent or `light_walls` is set.
pub proof fn lemma_scan_reaches(
    s: Setup,
    transparent: Seq<bool>,
    o: Octant,
    fov: Seq<bool>,
    along: int,
    across: int,
    to_across: int,
    to_along: int,
)
    requires
        s.wf(),
        fov.len() == s.width * s.height,
        transparent.len() == s.width * s.height,
        1 <= along <= to_along <= s.reach(o),
        0 <= to_across <= to_along,
        across <= along,
        along == to_along ==> across >= to_across,
        s.on_map(o, to_across, to_along),
        clear_before(s, transparent, o, to_across, to_along),
        s.in_radius(to_across, to_along),
        s.light_walls || transparent[s.cell(o, to_across, to_along)],
    ensures
        scan(
            s,
            transparent,
            o,
            fov,
            along,
            across,
            Slope { num: 1, den: 1 },
            Slope { num: 0, den: 1 },
            false,
        )[s.cell(o, to_across, to_along)],
    decreases to_along - along, across + 1,
{
    let last = s.reach(o);
    let start = Slope { num: 1, den: 1 };
    let end = Slope { num: 0, den: 1 };
    let lower = lower_slope(across, along);
    let upper = upper_slope(across, along);
    if across < 0 {
        lemma_scan_reaches(s, transparent, o, fov, along + 1, along + 1, to_across, to_along);
    } else if !s.on_map(o, across, along) {
        lemma_scan_reaches(s, transparent, o, fov, along, across - 1, to_across, to_along);
    } else {
        assert(!slope_lt(start, lower));
        assert(!slope_lt(upper, end));
        lemma_cell_fits(s, o, across, along);
        let c = s.cell(o, across, along);
        let lit = if s.in_radius(across, along) && (s.light_walls || transparent[c]) {
            fov.update(c, true)
        } else {
            fov
        };
        if across == to_across && along == to_along {
            assert(lit[c]);
            if transparent[c] {
                lemma_scan_keeps(s, transparent, o, lit, along, across - 1, start, end, false);
            } else if along < last {
                lemma_scan_keeps(s, transparent, o, lit, along + 1, along + 1, start, upper, false);
                let above = cast(s, transparent, o, lit, along + 1, start, upper);
                assert(above[c]);
                lemma_scan_keeps(s, transparent, o, above, along, across - 1, lower, end, true);
            } else {
                lemma_scan_keeps(s, transparent, o, lit, along, across - 1, start, end, false);
            }
        } else {
            assert(transparent[c]);
            lemma_scan_reaches(s, transparent, o, lit, along, across - 1, to_across, to_along);
        }
    }
}

/// No octant puts a cell in the field of view that lies wholly in the
/// shadow of an opaque cell.
proof fn lemma_octants_shadow(
    s: Setup,
    transparent: Seq<bool>,
    count: int,
    fov: Seq<bool>,
    o: Octant,
    wall_across: int,
    wall_along: int,
    far_across: int,
    far_along: int,
)
    requires
        s.wf(),
        transparent.len() == s.width * s.height,
        fov.len() == s.width * s.height,
        0 <= wall_across <= wall_along,
        1 <= wall_along < far_along,
        0 <= far_across <= far_along,
        s.on_map(o, wall_across, wall_along),
        s.on_map(o, far_across, far_along),
        !transparent[s.cell(o, wall_across, wall_along)],
        slope_lt(lower_slope(wall_across, wall_along), lower_slope(far_across, far_along)),
        slope_lt(upper_slope(far_across, far_along), upper_slope(wall_across, wall_along)),
        !fov[s.cell(o, far_across, far_along)],
    ensures
        !cast_octants(s, transparent, count, fov)[s.cell(o, far_across, far_along)],
    decreases count,
{
    if count > 0 {
        lemma_octants_shadow(
            s,
            transparent,
            count - 1,
            fov,
            o,
            wall_across,
            wall_along,
            far_across,
            far_along,
        );
        lemma_octants_keep(s, transparent, count - 1, fov);
        let before = cast_octants(s, transparent, count - 1, fov);
        let other = nth_octant(count - 1);
        let fx = s.cell_x(o, far_across, far_along);
        let fy = s.cell_y(o, far_across, far_along);
        let wx = s.cell_x(o, wall_across, wall_along);
        let wy = s.cell_y(o, wall_across, wall_along);
        let one = Slope { num: 1, den: 1 };
        let zero = Slope { num: 0, den: 1 };
        lemma_cell_of(s, other, fx, fy);
        lemma_cell_of(s, other, wx, wy);
        if s.in_octant(other, fx, fy) {
            // the far cell lies in this octant too: it is the same octant,
            // or the two share the axis or the diagonal that the cell is on
            lemma_shadow_on_edge(wall_across, wall_along, far_across, far_along);
            assert(s.across_of(other, fx, fy) == far_across);
            assert(s.along_of(other, fx, fy) == far_along);
            assert(s.across_of(other, wx, wy) == wall_across);
            assert(s.along_of(other, wx, wy) == wall_along);
            lemma_scan_shadow(
                s,
                transparent,
                other,
                before,
                1,
                1,
                one,
                zero,
                false,
                wall_across,
                wall_along,
                far_across,
                far_along,
            );
        } else {
            lemma_scan_lights_only(s, transparent, other, before, 1, 1, one, zero, false, fx, fy);
        }
    }
}

/// Recursive shadowcasting leaves dark every cell that lies wholly in the
/// shadow of one opaque cell: a cell of the same octant, in a later row,
/// whose slopes lie strictly between the slopes of the opaque cell,
/// whatever else the map holds.
pub proof fn lemma_shadowcast_shadow(
    s: Setup,
    transparent: Seq<bool>,
    o: Octant,
    wall_across: int,
    wall_along: int,
    far_across: int,
    far_along: int,
)
    requires
        s.wf(),
        transparent.len() == s.width * s.height,
        0 <= wall_across <= wall_along,
        1 <= wall_along < far_along,
        0 <= far_across <= far_along,
        s.on_map(o, wall_across, wall_along),
        s.on_map(o, far_across, far_along),
        !transparent[s.cell(o, wall_across, wall_along)],
        slope_lt(lower_slope(wall_across, wall_along), lower_slope(far_across, far_along)),
        slope_lt(upper_slope(far_across, far_along), upper_slope(wall_across, wall_along)),
    ensures
        !shadowcast(s, transparent)[s.cell(o, far_across, far_along)],
{
    let empty = Seq::new(transparent.len(), |i: int| false);
    let fx = s.cell_x(o, far_across, far_along);
    let fy = s.cell_y(o, far_across, far_along);
    lemma_cell_fits(s, o, far_across, far_along);
    crate::lemma_cell_index_in_range(s.width as int, s.height as int, s.x as int, s.y as int);
    lemma_octants_shadow(
        s,
        transparent,
        8,
        empty,
        o,
        wall_across,
        wall_along,
        far_across,
        far_along,
    );
    lemma_octants_keep(s, transparent, 8, empty);
    if s.cell(o, far_across, far_along) == s.observer() {
        crate::lemma_cell_index_injective(s.width as int, fx, fy, s.x as int, s.y as int);
    }
}

/// Recursive shadowcasting does not see past an opaque cell along a row, a
/// column or a diagonal: when the cell `wall` steps from the observer in
/// the direction `(dx, dy)` is opaque, no cell farther in that direction is
/// in the field of view, whatever else the map holds.
pub proof fn lemma_shadowcast_occlusion(
    s: Setup,
    transparent: Seq<bool>,
    dx: int,
    dy: int,
    wall: int,
    far: int,
)
    requires
        s.wf(),
        transparent.len() == s.width * s.height,
        dx != 0 || dy != 0,
        1 <= wall < far,
        0 <= ray(s.x as int, dx, far) < s.width,
        0 <= ray(s.y as int, dy, far) < s.height,
        !transparent[cell_index(
            s.width as int,
            ray(s.x as int, dx, wall),
            ray(s.y as int, dy, wall),
        )],
    ensures
        !shadowcast(s, transparent)[cell_index(
            s.width as int,
            ray(s.x as int, dx, far),
            ray(s.y as int, dy, far),
        )],
{
    let fx = ray(s.x as int, dx, far);
    let fy = ray(s.y as int, dy, far);
    let wx = ray(s.x as int, dx, wall);
    let wy = ray(s.y as int, dy, wall);
    // an octant that holds the ray
    let o = Octant { swap: dy == 0, neg_x: dx < 0, neg_y: dy < 0 };
    let fa = s.across_of(o, fx, fy);
    let fj = s.along_of(o, fx, fy);
    let wa = s.across_of(o, wx, wy);
    let wj = s.along_of(o, wx, wy);
    lemma_cell_of(s, o, fx, fy);
    lemma_cell_of(s, o, wx, wy);
    lemma_ray_slopes(wa, wj, fa, fj);
    lemma_shadowcast_shadow(s, transparent, o, wa, wj, fa, fj);
}

/// Once its octant is scanned, a cell is in the field of view if the scan
/// meets nothing opaque on its way to the cell, the cell is within the
/// radius, and it is transparent or `light_walls` is set.
proof fn lemma_octants_reach(
    s: Setup,
    transparent: Seq<bool>,
    count: int,
    fov: Seq<bool>,
    o: Octant,
    across: int,
    along: int,
)
    requires
        s.wf(),
        transparent.len() == s.width * s.height,
        fov.len() == s.width * s.height,
        octant_number(o) < count,
        0 <= across <= along,
        1 <= along,
        s.on_map(o, across, along),
        clear_before(s, transparent, o, across, along),
        s.in_radius(across, along),
        s.light_walls || transparent[s.cell(o, across, along)],
    ensures
        cast_octants(s, transparent, count, fov)[s.cell(o, across, along)],
    decreases count,
{
    let before = cast_octants(s, transparent, count - 1, fov);
    let one = Slope { num: 1, den: 1 };
    let zero = Slope { num: 0, den: 1 };
    lemma_octants_keep(s, transparent, count - 1, fov);
    lemma_octant_number(o);
    lemma_cell_fits(s, o, across, along);
    if octant_number(o) < count - 1 {
        lemma_octants_reach(s, transparent, count - 1, fov, o, across, along);
        lemma_scan_keeps(s, transparent, nth_octant(count - 1), before, 1, 1, one, zero, false);
    } else {
        lemma_row_in_reach(s, o, across, along);
        lemma_scan_reaches(s, transparent, o, before, 1, 1, across, along);
    }
}

/// Recursive shadowcasting sees every cell that nothing stands in front
/// of: a cell of an octant is in the field of view if it is within the
/// radius, is transparent or `light_walls` is set, and every cell that the
/// octant's scan meets before it is transparent.
pub proof fn lemma_shadowcast_sees_clear(
    s: Setup,
    transparent: Seq<bool>,
    o: Octant,
    across: int,
    along: int,
)
    requires
        s.wf(),
        transparent.len() == s.width * s.height,
        0 <= across <= along,
        1 <= along,
        s.on_map(o, across, along),
        clear_before(s, transparent, o, across, along),
        s.in_radius(across, along),
        s.light_walls || transparent[s.cell(o, across, along)],
    ensures
        shadowcast(s, transparent)[s.cell(o, across, along)],
{
    let empty = Seq::new(transparent.len(), |i: int| false);
    lemma_octant_number(o);
    lemma_cell_fits(s, o, across, along);
    lemma_octants_keep(s, transparent, 8, empty);
    lemma_octants_reach(s, transparent, 8, empty, o, across, along);
    crate::lemma_cell_index_in_range(s.width as int, s.height as int, s.x as int, s.y as int);
}

/// On a map whose other cells are all transparent, recursive shadowcasting
/// puts a cell in the field of view exactly if it is the observer's, or is
/// within the radius and is transparent or `light_walls` is set.
pub proof fn lemma_shadowcast_sees_unobstructed(
    s: Setup,
    transparent: Seq<bool>,
    cx: int,
    cy: int,
)
    requires
        s.wf(),
        transparent.len() == s.width * s.height,
        0 <= cx < s.width,
        0 <= cy < s.height,
        forall|i: int|
            0 <= i < transparent.len() && i != cell_index(s.width as int, cx, cy)
                ==> transparent[i],
    ensures
        shadowcast(s, transparent)[cell_index(s.width as int, cx, cy)] == ((cx == s.x && cy
            == s.y) || (s.near(cx, cy) && (s.light_walls || transparent[cell_index(
            s.width as int,
            cx,
            cy,
        )]))),
{
    let c = cell_index(s.width as int, cx, cy);
    let empty = Seq::new(transparent.len(), |i: int| false);
    crate::lemma_cell_index_in_range(s.width as int, s.height as int, cx, cy);
    crate::lemma_cell_index_in_range(s.width as int, s.height as int, s.x as int, s.y as int);
    lemma_octants_keep(s, transparent, 8, empty);
    if cx == s.x && cy == s.y {
    } else {
        lemma_shadowcast_lights_only(s, transparent, cx, cy);
        if s.near(cx, cy) && (s.light_walls || transparent[c]) {
            let o = octant_of(s, cx, cy);
            let across = s.across_of(o, cx, cy);
            let along = s.along_of(o, cx, cy);
            lemma_octant_of(s, cx, cy);
            lemma_cell_of(s, o, cx, cy);
            lemma_cell_is(s, o, across, along, cx, cy);
            assert forall|a: int, j: int|
                0 <= a <= j && 1 <= j && s.on_map(o, a, j) && (j < along || (j == along && a
                    > across)) implies transparent[#[trigger] s.cell(o, a, j)] by {
                lemma_cells_differ(s, o, a, j, across, along);
            }
            lemma_shadowcast_sees_clear(s, transparent, o, across, along);
        }
    }
}

/// A single opaque cell between the observer and a farther cell on the
/// same row, column or diagonal: recursive shadowcasting leaves the farther
/// cell dark, and puts the opaque cell in the field of view exactly if
/// `light_walls` is set and the cell is within the radius.
pub proof fn lemma_shadowcast_lone_wall(
    s: Setup,
    transparent: Seq<bool>,
    dx: int,
    dy: int,
    wall: int,
    far: int,
)
    requires
        s.wf(),
        transparent.len() == s.width * s.height,
        dx != 0 || dy != 0,
        1 <= wall < far,
        0 <= ray(s.x as int, dx, far) < s.width,
        0 <= ray(s.y as int, dy, far) < s.height,
        forall|i: int|
            0 <= i < transparent.len() ==> (transparent[i] <==> i != cell_index(
                s.width as int,
                ray(s.x as int, dx, wall),
                ray(s.y as int, dy, wall),
            )),
    ensures
        !shadowcast(s, transparent)[cell_index(
            s.width as int,
            ray(s.x as int, dx, far),
            ray(s.y as int, dy, far),
        )],
        shadowcast(s, transparent)[cell_index(
            s.width as int,
            ray(s.x as int, dx, wall),
            ray(s.y as int, dy, wall),
        )] == (s.light_walls && s.near(ray(s.x as int, dx, wall), ray(s.y as int, dy, wall))),
{
    let wx = ray(s.x as int, dx, wall);
    let wy = ray(s.y as int, dy, wall);
    crate::lemma_cell_index_in_range(s.width as int, s.height as int, wx, wy);
    lemma_shadowcast_occlusion(s, transparent, dx, dy, wall, far);
    lemma_shadowcast_sees_unobstructed(s, transparent, wx, wy);
}

} // verus!
