//! What the restrictive algorithm does not see along a row or a column:
//! the cells behind an opaque cell.
use crate::cell_index;
use crate::fov_restrictive::{
    first_cell, probe, restrictive, sweep, sweep_cell, sweep_line, sweep_octants, walled_in, Probe,
    Sweep,
};
use crate::geometry::{
    covers, lemma_cell_fits, lemma_cells_differ, nth_octant, ray, Octant, Setup,
};
use crate::restrictive_proofs::{
    lemma_cell_lights_only, lemma_first_cell_unhindered, lemma_octants_light_only,
    lemma_probe_clear, lemma_sweep_lights_only,
};
use crate::slope::{line_slope, slope_le, slope_lt, slope_max, slope_min, Slope};
use vstd::prelude::*;

verus! {

/// Every obstacle begins above the axis.
pub open spec fn above_axis(starts: Seq<Slope>) -> bool {
    forall|k: int| 0 <= k < starts.len() ==> (#[trigger] starts[k]).num > 0 && starts[k].den > 0
}

/// The cells of the axis of octant `o` before line `line` are transparent.
pub open spec fn axis_clear(s: Setup, transparent: Seq<bool>, o: Octant, line: int) -> bool {
    forall|i: int| 1 <= i < line ==> transparent[#[trigger] s.cell(o, 0, i)]
}

/// The state of a sweep that has met nothing opaque on the axis: nothing
/// is blocked from the axis on, every obstacle begins above the axis, and
/// the cells of the axis before line `line` are in the field of view.
pub open spec fn axis_open(s: Setup, o: Octant, sw: Sweep, line: int) -> bool {
    &&& sw.min_angle == Slope { num: 0, den: 1 }
    &&& above_axis(sw.starts)
    &&& sw.fov.len() == s.width * s.height
    &&& forall|i: int| 1 <= i < line ==> #[trigger] lit_on_axis(s, o, sw.fov, i)
}

/// The cell of the axis of octant `o` in line `line` lies on the map and
/// is in the field of view `fov`.
pub open spec fn lit_on_axis(s: Setup, o: Octant, fov: Seq<bool>, line: int) -> bool {
    s.on_map(o, 0, line) && fov[s.cell(o, 0, line)]
}

/// The state of a sweep that has seen an opaque cell on the axis in line
/// `wall`: the slopes of that cell, and all below them, are blocked.
pub open spec fn axis_shut(sw: Sweep, wall: int) -> bool {
    &&& 0 < sw.min_angle.den
    &&& slope_le(line_slope(1, wall), sw.min_angle)
}

/// Holding a cell against the obstacles changes no number of obstacles.
proof fn lemma_probe_count(
    pr: Probe,
    idx: int,
    last: int,
    clear: bool,
    centre: Slope,
    lo: Slope,
    hi: Slope,
)
    requires
        last <= pr.starts.len(),
    ensures
        probe(pr, idx, last, clear, centre, lo, hi).starts.len() == pr.starts.len(),
    decreases last - idx,
{
    if idx < 0 || idx >= last || !pr.visible {
    } else {
        let st = pr.starts[idx];
        let en = pr.ends[idx];
        let wider = Probe {
            starts: pr.starts.update(idx, slope_min(st, lo)),
            ends: pr.ends.update(idx, slope_max(en, hi)),
            visible: true,
            extended: true,
        };
        lemma_probe_count(pr, idx + 1, last, clear, centre, lo, hi);
        lemma_probe_count(wider, idx + 1, last, clear, centre, lo, hi);
    }
}

/// A cell off the axis leaves the obstacles above the axis.
proof fn lemma_probe_above_axis(
    pr: Probe,
    idx: int,
    last: int,
    clear: bool,
    centre: Slope,
    lo: Slope,
    hi: Slope,
)
    requires
        above_axis(pr.starts),
        last <= pr.starts.len(),
        lo.num > 0,
        lo.den > 0,
    ensures
        above_axis(probe(pr, idx, last, clear, centre, lo, hi).starts),
        probe(pr, idx, last, clear, centre, lo, hi).starts.len() == pr.starts.len(),
    decreases last - idx,
{
    if idx < 0 || idx >= last || !pr.visible {
    } else {
        let st = pr.starts[idx];
        let en = pr.ends[idx];
        if slope_lt(hi, st) || slope_lt(en, lo) {
            lemma_probe_above_axis(pr, idx + 1, last, clear, centre, lo, hi);
        } else if clear {
            if slope_lt(st, centre) && slope_lt(centre, en) {
            } else {
                lemma_probe_above_axis(pr, idx + 1, last, clear, centre, lo, hi);
            }
        } else if slope_le(st, lo) && slope_le(hi, en) {
        } else {
            let wider = Probe {
                starts: pr.starts.update(idx, slope_min(st, lo)),
                ends: pr.ends.update(idx, slope_max(en, hi)),
                visible: true,
                extended: true,
            };
            assert(above_axis(wider.starts));
            lemma_probe_above_axis(wider, idx + 1, last, clear, centre, lo, hi);
        }
    }
}

/// Obstacles above the axis do not hide a cell on the axis.
proof fn lemma_probe_on_axis(
    pr: Probe,
    idx: int,
    last: int,
    clear: bool,
    centre: Slope,
    lo: Slope,
    hi: Slope,
)
    requires
        pr.visible,
        0 <= idx,
        last <= pr.starts.len(),
        forall|k: int| idx <= k < last ==> (#[trigger] pr.starts[k]).num > 0 && pr.starts[k].den > 0,
        lo.num < 0,
        lo.den > 0,
        centre.num == 0,
        centre.den > 0,
    ensures
        probe(pr, idx, last, clear, centre, lo, hi).visible,
    decreases last - idx,
{
    if idx >= last {
    } else {
        let st = pr.starts[idx];
        let en = pr.ends[idx];
        assert(st.num > 0 && st.den > 0);
        assert(!slope_lt(st, centre)) by (nonlinear_arith)
            requires
                st.num > 0,
                st.den > 0,
                centre.num == 0,
                centre.den > 0,
        ;
        assert(!slope_le(st, lo)) by (nonlinear_arith)
            requires
                st.num > 0,
                st.den > 0,
                lo.num < 0,
                lo.den > 0,
        ;
        if slope_lt(hi, st) || slope_lt(en, lo) || clear {
            lemma_probe_on_axis(pr, idx + 1, last, clear, centre, lo, hi);
        } else {
            let wider = Probe {
                starts: pr.starts.update(idx, slope_min(st, lo)),
                ends: pr.ends.update(idx, slope_max(en, hi)),
                visible: true,
                extended: true,
            };
            assert forall|k: int| idx + 1 <= k < last implies (#[trigger] wider.starts[k]).num > 0
                && wider.starts[k].den > 0 by {
                assert(wider.starts[k] == pr.starts[k]);
            }
            lemma_probe_on_axis(wider, idx + 1, last, clear, centre, lo, hi);
        }
    }
}

/// While the axis is open, a cell off the axis leaves it open.
proof fn lemma_cell_off_axis(
    s: Setup,
    transparent: Seq<bool>,
    o: Octant,
    sw: Sweep,
    line: int,
    across: int,
    last: int,
    seen: int,
)
    requires
        s.wf(),
        axis_open(s, o, sw, seen),
        1 <= across <= line,
        s.on_map(o, across, line),
        last <= sw.starts.len(),
    ensures
        axis_open(s, o, sweep_cell(s, transparent, o, sw, line, across, last), seen),
        sweep_cell(s, transparent, o, sw, line, across, last).starts.len() >= sw.starts.len(),
{
    let c = s.cell(o, across, line);
    let next = sweep_cell(s, transparent, o, sw, line, across, last);
    let lo = line_slope(2 * across - 1, line);
    let centre = line_slope(2 * across, line);
    let hi = line_slope(2 * across + 1, line);
    let open = Probe { starts: sw.starts, ends: sw.ends, visible: true, extended: false };
    lemma_cell_lights_only(s, transparent, o, sw, line, across, last);
    lemma_probe_above_axis(open, 0, last, transparent[c], centre, lo, hi);
    let angle = sw.min_angle;
    assert(!(lo.num * angle.den <= angle.num * lo.den)) by (nonlinear_arith)
        requires
            angle.num == 0,
            angle.den == 1,
            lo.num >= 1,
    ;
    assert(above_axis(next.starts));
    assert forall|i: int| 1 <= i < seen implies #[trigger] lit_on_axis(s, o, next.fov, i) by {
        assert(lit_on_axis(s, o, sw.fov, i));
        lemma_cell_fits(s, o, 0, i);
    }
}

/// While the axis is open, the sweep sees the cell of the axis in its
/// line. A transparent cell leaves the axis open; an opaque one shuts it.
proof fn lemma_cell_on_axis(
    s: Setup,
    transparent: Seq<bool>,
    o: Octant,
    sw: Sweep,
    line: int,
    last: int,
)
    requires
        s.wf(),
        transparent.len() == s.width * s.height,
        axis_open(s, o, sw, line),
        axis_clear(s, transparent, o, line),
        1 <= line <= s.reach(o),
        last <= sw.starts.len(),
        line == 1 ==> last == 0,
    ensures
        ({
            let next = sweep_cell(s, transparent, o, sw, line, 0, last);
            &&& next.fov.len() == sw.fov.len()
            &&& covers(next.fov, sw.fov)
            &&& next.starts.len() >= sw.starts.len()
            &&& if transparent[s.cell(o, 0, line)] {
                axis_open(s, o, next, line + 1)
            } else {
                axis_shut(next, line)
            }
        }),
{
    let c = s.cell(o, 0, line);
    let next = sweep_cell(s, transparent, o, sw, line, 0, last);
    let lo = line_slope(-1, line);
    let centre = line_slope(0, line);
    let hi = line_slope(1, line);
    let open = Probe { starts: sw.starts, ends: sw.ends, visible: true, extended: false };
    assert(s.on_map(o, 0, line));
    lemma_cell_lights_only(s, transparent, o, sw, line, 0, last);
    lemma_probe_on_axis(open, 0, last, transparent[c], centre, lo, hi);
    lemma_probe_clear(open, 0, last, centre, lo, hi);
    lemma_probe_count(open, 0, last, transparent[c], centre, lo, hi);
    if last > 0 {
        let behind = s.cell(o, 0, line - 1);
        assert(lit_on_axis(s, o, sw.fov, line - 1));
        assert(sw.fov[behind] && transparent[behind]);
        assert(!walled_in(s, transparent, o, sw.fov, line, 0));
    }
    let r = s.max_radius as int;
    assert(s.in_radius(0, line)) by (nonlinear_arith)
        requires
            s.in_radius(0, line) == (r == 0 || 0 * 0 + line * line <= r * r),
            r == 0 || 1 <= line <= r,
    ;
    let angle = sw.min_angle;
    assert(lo.num * angle.den <= angle.num * lo.den) by (nonlinear_arith)
        requires
            angle.num == 0,
            angle.den == 1,
            lo.num == -1,
    ;
    if transparent[c] {
        assert(next.fov[c]);
        assert forall|i: int| 1 <= i < line + 1 implies #[trigger] lit_on_axis(
            s,
            o,
            next.fov,
            i,
        ) by {
            if i < line {
                assert(lit_on_axis(s, o, sw.fov, i));
                lemma_cell_fits(s, o, 0, i);
            }
        }
    } else {
        assert(next.min_angle == hi);
        assert(1 * (2 * line) <= 1 * (2 * line));
    }
}

/// The rest of a line, while the axis is open.
proof fn lemma_line_off_axis(
    s: Setup,
    transparent: Seq<bool>,
    o: Octant,
    sw: Sweep,
    line: int,
    across: int,
    last: int,
    seen: int,
    far: int,
)
    requires
        s.wf(),
        axis_open(s, o, sw, seen),
        1 <= across,
        1 <= line < far,
        last <= sw.starts.len(),
        s.on_map(o, 0, far),
        !sw.fov[s.cell(o, 0, far)],
    ensures
        axis_open(s, o, sweep_line(s, transparent, o, sw, line, across, last), seen),
        !sweep_line(s, transparent, o, sw, line, across, last).fov[s.cell(o, 0, far)],
    decreases line - across + 1,
{
    if across > line || !s.on_map(o, across, line) {
    } else {
        let next = sweep_cell(s, transparent, o, sw, line, across, last);
        lemma_cell_off_axis(s, transparent, o, sw, line, across, last, seen);
        lemma_cell_lights_only(s, transparent, o, sw, line, across, last);
        lemma_cells_differ(s, o, across, line, 0, far);
        lemma_line_off_axis(s, transparent, o, next, line, across + 1, last, seen, far);
    }
}

/// The rest of a line, once the axis is shut: the sweep stays off the
/// axis and leaves the axis shut.
proof fn lemma_line_axis_shut(
    s: Setup,
    transparent: Seq<bool>,
    o: Octant,
    sw: Sweep,
    line: int,
    across: int,
    last: int,
    wall: int,
    far: int,
)
    requires
        s.wf(),
        sw.fov.len() == s.width * s.height,
        axis_shut(sw, wall),
        0 <= across,
        1 <= wall <= line,
        wall < far,
        (2 * across + 1) * wall >= line,
        s.on_map(o, 0, far),
        !sw.fov[s.cell(o, 0, far)],
    ensures
        axis_shut(sweep_line(s, transparent, o, sw, line, across, last), wall),
        sweep_line(s, transparent, o, sw, line, across, last).fov.len() == sw.fov.len(),
        !sweep_line(s, transparent, o, sw, line, across, last).fov[s.cell(o, 0, far)],
    decreases line - across + 1,
{
    if across > line || !s.on_map(o, across, line) {
    } else {
        let next = sweep_cell(s, transparent, o, sw, line, across, last);
        let hi = line_slope(2 * across + 1, line);
        lemma_cell_lights_only(s, transparent, o, sw, line, across, last);
        if across == 0 && line == far {
            assert(false) by (nonlinear_arith)
                requires
                    (2 * across + 1) * wall >= line,
                    across == 0,
                    wall < far,
                    line == far,
            ;
        }
        lemma_cells_differ(s, o, across, line, 0, far);
        assert(slope_le(line_slope(1, wall), hi)) by (nonlinear_arith)
            requires
                (2 * across + 1) * wall >= line,
                hi.num == 2 * across + 1,
                hi.den == 2 * line,
                line_slope(1, wall).num == 1,
                line_slope(1, wall).den == 2 * wall,
                slope_le(line_slope(1, wall), hi) == (line_slope(1, wall).num * hi.den <= hi.num
                    * line_slope(1, wall).den),
        ;
        assert(next.min_angle == sw.min_angle || next.min_angle == hi);
        assert((2 * (across + 1) + 1) * wall >= line) by (nonlinear_arith)
            requires
                (2 * across + 1) * wall >= line,
                wall >= 1,
        ;
        lemma_line_axis_shut(s, transparent, o, next, line, across + 1, last, wall, far);
    }
}

/// Once the axis is shut in line `wall`, every later line begins off the
/// axis, far enough for the axis to stay shut.
proof fn lemma_first_cell_axis_shut(min_angle: Slope, wall: int, line: int)
    requires
        0 < min_angle.den,
        slope_le(line_slope(1, wall), min_angle),
        1 <= wall <= line,
    ensures
        0 <= first_cell(min_angle, line),
        (2 * first_cell(min_angle, line) + 1) * wall >= line,
{
    let n = min_angle.num;
    let d = min_angle.den;
    let q = first_cell(min_angle, line);
    assert(d <= n * (2 * wall));
    assert(n >= 1) by (nonlinear_arith)
        requires
            d <= n * (2 * wall),
            0 < d,
            1 <= wall,
    ;
    let top = 2 * n * line + d;
    assert(top >= 0) by (nonlinear_arith)
        requires
            top == 2 * n * line + d,
            n >= 1,
            line >= 1,
            d > 0,
    ;
    vstd::arithmetic::div_mod::lemma_fundamental_div_mod(top, 2 * d);
    vstd::arithmetic::div_mod::lemma_mod_bound(top, 2 * d);
    assert(q == top / (2 * d));
    assert(top == (2 * d) * q + top % (2 * d));
    assert(q >= 0) by (nonlinear_arith)
        requires
            top == (2 * d) * q + top % (2 * d),
            0 <= top % (2 * d) < 2 * d,
            top >= 0,
            d > 0,
    ;
    assert((2 * q + 1) * wall >= line) by (nonlinear_arith)
        requires
            top == (2 * d) * q + top % (2 * d),
            0 <= top % (2 * d) < 2 * d,
            top == 2 * n * line + d,
            d <= n * (2 * wall),
            n >= 1,
            d > 0,
            wall >= 1,
            line >= 1,
            q >= 0,
    ;
}

/// Once the axis is shut, the sweep leaves the farther cells of the axis dark.
proof fn lemma_sweep_axis_shut(
    s: Setup,
    transparent: Seq<bool>,
    o: Octant,
    sw: Sweep,
    line: int,
    wall: int,
    far: int,
)
    requires
        s.wf(),
        sw.fov.len() == s.width * s.height,
        axis_shut(sw, wall),
        1 <= wall < line,
        wall < far,
        s.on_map(o, 0, far),
        !sw.fov[s.cell(o, 0, far)],
    ensures
        !sweep(s, transparent, o, sw, line).fov[s.cell(o, 0, far)],
    decreases s.reach(o) - line + 1,
{
    if 1 <= line <= s.reach(o) {
        let fresh = Sweep {
            fov: sw.fov,
            min_angle: sw.min_angle,
            starts: sw.starts,
            ends: sw.ends,
            done: true,
        };
        let first = first_cell(sw.min_angle, line);
        let last = sw.starts.len() as int;
        lemma_first_cell_axis_shut(sw.min_angle, wall, line);
        lemma_line_axis_shut(s, transparent, o, fresh, line, first, last, wall, far);
        let after = sweep_line(s, transparent, o, fresh, line, first, last);
        if after.done || line >= s.reach(o) {
        } else {
            lemma_sweep_axis_shut(s, transparent, o, after, line + 1, wall, far);
        }
    }
}

/// While the axis is open the sweep goes on along it; the first opaque
/// cell of the axis shuts it, and the farther cells of the axis stay dark.
proof fn lemma_sweep_axis_open(
    s: Setup,
    transparent: Seq<bool>,
    o: Octant,
    sw: Sweep,
    line: int,
    wall: int,
    far: int,
)
    requires
        s.wf(),
        transparent.len() == s.width * s.height,
        axis_open(s, o, sw, line),
        axis_clear(s, transparent, o, wall),
        !transparent[s.cell(o, 0, wall)],
        1 <= line <= wall < far,
        line == 1 ==> sw.starts.len() == 0,
        s.on_map(o, 0, far),
        !sw.fov[s.cell(o, 0, far)],
    ensures
        !sweep(s, transparent, o, sw, line).fov[s.cell(o, 0, far)],
    decreases s.reach(o) - line + 1,
{
    if 1 <= line <= s.reach(o) {
        let fresh = Sweep {
            fov: sw.fov,
            min_angle: sw.min_angle,
            starts: sw.starts,
            ends: sw.ends,
            done: true,
        };
        let last = sw.starts.len() as int;
        lemma_first_cell_unhindered(sw.min_angle, line);
        assert(s.on_map(o, 0, line));
        assert(axis_open(s, o, fresh, line));
        let next = sweep_cell(s, transparent, o, fresh, line, 0, last);
        lemma_cell_on_axis(s, transparent, o, fresh, line, last);
        lemma_cells_differ(s, o, 0, line, 0, far);
        lemma_cell_lights_only(s, transparent, o, fresh, line, 0, last);
        assert(!next.fov[s.cell(o, 0, far)]);
        let after = sweep_line(s, transparent, o, next, line, 1, last);
        assert(sweep_line(s, transparent, o, fresh, line, 0, last) == after);
        if line < wall {
            assert(transparent[s.cell(o, 0, line)]);
            lemma_line_off_axis(s, transparent, o, next, line, 1, last, line + 1, far);
            if after.done || line >= s.reach(o) {
            } else {
                lemma_sweep_axis_open(s, transparent, o, after, line + 1, wall, far);
            }
        } else {
            assert((2 * 1 + 1) * wall >= line) by (nonlinear_arith)
                requires
                    line == wall,
                    wall >= 1,
            ;
            lemma_line_axis_shut(s, transparent, o, next, line, 1, last, wall, far);
            if after.done || line >= s.reach(o) {
            } else {
                lemma_sweep_axis_shut(s, transparent, o, after, line + 1, wall, far);
            }
        }
    }
}

/// The first opaque cell of the axis, no farther than an opaque cell in
/// line `wall`.
proof fn lemma_first_on_axis(s: Setup, transparent: Seq<bool>, o: Octant, wall: int) -> (first:
    int)
    requires
        1 <= wall,
        !transparent[s.cell(o, 0, wall)],
    ensures
        1 <= first <= wall,
        !transparent[s.cell(o, 0, first)],
        axis_clear(s, transparent, o, first),
    decreases wall,
{
    if axis_clear(s, transparent, o, wall) {
        wall
    } else {
        let nearer = choose|i: int| 1 <= i < wall && !transparent[#[trigger] s.cell(o, 0, i)];
        lemma_first_on_axis(s, transparent, o, nearer)
    }
}

/// No octant puts a cell of an axis in the field of view that lies
/// behind an opaque cell of that axis.
proof fn lemma_octants_axis_dark(
    s: Setup,
    transparent: Seq<bool>,
    count: int,
    fov: Seq<bool>,
    o: Octant,
    wall: int,
    far: int,
)
    requires
        s.wf(),
        transparent.len() == s.width * s.height,
        fov.len() == s.width * s.height,
        1 <= wall < far,
        s.on_map(o, 0, far),
        axis_clear(s, transparent, o, wall),
        !transparent[s.cell(o, 0, wall)],
        !fov[s.cell(o, 0, far)],
    ensures
        !sweep_octants(s, transparent, count, fov)[s.cell(o, 0, far)],
    decreases count,
{
    if count > 0 {
        lemma_octants_axis_dark(s, transparent, count - 1, fov, o, wall, far);
        let before = sweep_octants(s, transparent, count - 1, fov);
        let other = nth_octant(count - 1);
        let fx = s.cell_x(o, 0, far);
        let fy = s.cell_y(o, 0, far);
        let begin = Sweep {
            fov: before,
            min_angle: Slope { num: 0, den: 1 },
            starts: Seq::empty(),
            ends: Seq::empty(),
            done: false,
        };
        lemma_octants_light_only(s, transparent, count - 1, fov, fx, fy);
        lemma_sweep_lights_only(s, transparent, other, begin, 1, fx, fy);
        if s.in_octant(other, fx, fy) {
            // the axis of the other octant is the same row or column of the map
            assert(s.cell(other, 0, far) == s.cell(o, 0, far));
            assert(s.cell(other, 0, wall) == s.cell(o, 0, wall));
            assert forall|i: int| 1 <= i < wall implies transparent[#[trigger] s.cell(
                other,
                0,
                i,
            )] by {
                assert(s.cell(other, 0, i) == s.cell(o, 0, i));
            }
            lemma_sweep_axis_open(s, transparent, other, begin, 1, wall, far);
        }
    }
}

/// The restrictive algorithm does not see past an opaque cell along a row
/// or a column: when the cell `wall` steps from the observer in the
/// direction `(dx, dy)`, one of which is 0, is opaque, no cell farther in
/// that direction is in the field of view, whatever else the map holds.
pub proof fn lemma_restrictive_axis_occlusion(
    s: Setup,
    transparent: Seq<bool>,
    dx: int,
    dy: int,
    wall: int,
    far: int,
)
    requires
        s.wf(),
        transparent.len() == s.width * s.height,
        (dx == 0) != (dy == 0),
        1 <= wall < far,
        0 <= ray(s.x as int, dx, far) < s.width,
        0 <= ray(s.y as int, dy, far) < s.height,
        !transparent[cell_index(
            s.width as int,
            ray(s.x as int, dx, wall),
            ray(s.y as int, dy, wall),
        )],
    ensures
        !restrictive(s, transparent)[cell_index(
            s.width as int,
            ray(s.x as int, dx, far),
            ray(s.y as int, dy, far),
        )],
{
    let first = Seq::new(transparent.len(), |i: int| false).update(s.observer(), true);
    let fx = ray(s.x as int, dx, far);
    let fy = ray(s.y as int, dy, far);
    // an octant whose axis is the ray
    let o = Octant { swap: dy == 0, neg_x: dx < 0, neg_y: dy < 0 };
    assert(s.cell(o, 0, far) == cell_index(s.width as int, fx, fy));
    assert(s.cell(o, 0, wall) == cell_index(
        s.width as int,
        ray(s.x as int, dx, wall),
        ray(s.y as int, dy, wall),
    ));
    crate::lemma_cell_index_in_range(s.width as int, s.height as int, fx, fy);
    crate::lemma_cell_index_in_range(s.width as int, s.height as int, s.x as int, s.y as int);
    if cell_index(s.width as int, fx, fy) == s.observer() {
        crate::lemma_cell_index_injective(s.width as int, fx, fy, s.x as int, s.y as int);
    }
    let nearest = lemma_first_on_axis(s, transparent, o, wall);
    lemma_octants_axis_dark(s, transparent, 8, first, o, nearest, far);
}

} // verus!
