//! What the restrictive algorithm sees and does not see.
use crate::cell_index;
use crate::fov_restrictive::{
    first_cell, probe, restrictive, sweep, sweep_cell, sweep_line, sweep_octants, Probe, Sweep,
};
use crate::geometry::{
    covers, lemma_cell_fits, lemma_cell_is, lemma_cell_of, lemma_cells_differ,
    lemma_octant_number, lemma_octant_of, lemma_row_in_reach, lemma_wide_radius, nth_octant,
    octant_number, octant_of, Octant, Setup,
};
use crate::slope::Slope;
use vstd::prelude::*;

verus! {

/// A line is swept alike with a radius of at least `width + height` and
/// with the radius 0.
proof fn lemma_line_wide_radius(
    s: Setup,
    radius: usize,
    transparent: Seq<bool>,
    o: Octant,
    sw: Sweep,
    line: int,
    across: int,
    last: int,
)
    requires
        s.wf(),
        radius >= s.width + s.height,
        0 <= line,
    ensures
        sweep_line(s.with_radius(radius), transparent, o, sw, line, across, last) == sweep_line(
            s.with_radius(0),
            transparent,
            o,
            sw,
            line,
            across,
            last,
        ),
    decreases line - across + 1,
{
    let wide = s.with_radius(radius);
    let free = s.with_radius(0);
    if across < 0 || across > line || !free.on_map(o, across, line) {
    } else {
        lemma_wide_radius(s, radius, o, across, line);
        assert(sweep_cell(wide, transparent, o, sw, line, across, last) == sweep_cell(
            free,
            transparent,
            o,
            sw,
            line,
            across,
            last,
        ));
        lemma_line_wide_radius(
            s,
            radius,
            transparent,
            o,
            sweep_cell(free, transparent, o, sw, line, across, last),
            line,
            across + 1,
            last,
        );
    }
}

/// An octant is swept alike with a radius of at least `width + height`
/// and with the radius 0.
proof fn lemma_sweep_wide_radius(
    s: Setup,
    radius: usize,
    transparent: Seq<bool>,
    o: Octant,
    sw: Sweep,
    line: int,
)
    requires
        s.wf(),
        radius >= s.width + s.height,
    ensures
        sweep(s.with_radius(radius), transparent, o, sw, line) == sweep(
            s.with_radius(0),
            transparent,
            o,
            sw,
            line,
        ),
    decreases s.with_radius(0).reach(o) - line + 1,
{
    let free = s.with_radius(0);
    lemma_wide_radius(s, radius, o, 0, 0);
    if 1 <= line <= free.reach(o) {
        let fresh = Sweep {
            fov: sw.fov,
            min_angle: sw.min_angle,
            starts: sw.starts,
            ends: sw.ends,
            done: true,
        };
        let first = first_cell(sw.min_angle, line);
        let last = sw.starts.len() as int;
        lemma_line_wide_radius(s, radius, transparent, o, fresh, line, first, last);
        let after = sweep_line(free, transparent, o, fresh, line, first, last);
        if after.done || line >= free.reach(o) {
        } else {
            lemma_sweep_wide_radius(s, radius, transparent, o, after, line + 1);
        }
    }
}

/// The octants are swept alike with a radius of at least
/// `width + height` and with the radius 0.
proof fn lemma_octants_wide_radius(
    s: Setup,
    radius: usize,
    transparent: Seq<bool>,
    count: int,
    fov: Seq<bool>,
)
    requires
        s.wf(),
        radius >= s.width + s.height,
    ensures
        sweep_octants(s.with_radius(radius), transparent, count, fov) == sweep_octants(
            s.with_radius(0),
            transparent,
            count,
            fov,
        ),
    decreases count,
{
    if count > 0 {
        lemma_octants_wide_radius(s, radius, transparent, count - 1, fov);
        lemma_sweep_wide_radius(
            s,
            radius,
            transparent,
            nth_octant(count - 1),
            Sweep {
                fov: sweep_octants(s.with_radius(0), transparent, count - 1, fov),
                min_angle: Slope { num: 0, den: 1 },
                starts: Seq::empty(),
                ends: Seq::empty(),
                done: false,
            },
            1,
        );
    }
}

/// The restrictive algorithm with a radius of at least `width + height`
/// sees what it sees with the unlimited radius 0.
pub proof fn lemma_restrictive_unlimited_radius(s: Setup, transparent: Seq<bool>, radius: usize)
    requires
        s.wf(),
        radius >= s.width + s.height,
    ensures
        restrictive(s.with_radius(radius), transparent) == restrictive(
            s.with_radius(0),
            transparent,
        ),
{
    assert(s.with_radius(radius).observer() == s.with_radius(0).observer());
    lemma_octants_wide_radius(
        s,
        radius,
        transparent,
        8,
        Seq::new(transparent.len(), |i: int| false).update(s.with_radius(0).observer(), true),
    );
}

/// The field of view of the restrictive algorithm depends on the map's
/// size and transparency, the observer, the radius and `light_walls`, and
/// on nothing else: not on the field of view that the map held before.
pub proof fn lemma_restrictive_repeatable(
    algorithm: crate::FovRestrictive,
    first: crate::MapData,
    second: crate::MapData,
    x: usize,
    y: usize,
    max_radius: usize,
    light_walls: bool,
)
    requires
        first.width == second.width,
        first.height == second.height,
        first.transparent@ == second.transparent@,
    ensures
        crate::FovAlgorithm::field_of_view(&algorithm, &first, x, y, max_radius, light_walls)
            == crate::FovAlgorithm::field_of_view(
            &algorithm,
            &second,
            x,
            y,
            max_radius,
            light_walls,
        ),
{
}

/// Looking at a cell only adds to the field of view, and what it adds is
/// that cell, if it is within the radius and is transparent or
/// `light_walls` is set.
pub proof fn lemma_cell_lights_only(
    s: Setup,
    transparent: Seq<bool>,
    o: Octant,
    sw: Sweep,
    line: int,
    across: int,
    last: int,
)
    requires
        s.wf(),
        sw.fov.len() == s.width * s.height,
        0 <= across,
        1 <= line,
        s.on_map(o, across, line),
    ensures
        ({
            let c = s.cell(o, across, line);
            let after = sweep_cell(s, transparent, o, sw, line, across, last);
            &&& 0 <= c < sw.fov.len()
            &&& after.fov == sw.fov || (after.fov == sw.fov.update(c, true) && s.in_radius(
                across,
                line,
            ) && (s.light_walls || transparent[c]))
            &&& covers(after.fov, sw.fov)
        }),
{
    lemma_cell_fits(s, o, across, line);
}

/// A line only adds to the field of view, and what it adds are cells of
/// that line, from the first cell it looks at on.
pub proof fn lemma_line_lights_only(
    s: Setup,
    transparent: Seq<bool>,
    o: Octant,
    sw: Sweep,
    line: int,
    across: int,
    last: int,
    cx: int,
    cy: int,
)
    requires
        s.wf(),
        sw.fov.len() == s.width * s.height,
        1 <= line,
        0 <= cx < s.width,
        0 <= cy < s.height,
    ensures
        ({
            let c = cell_index(s.width as int, cx, cy);
            let after = sweep_line(s, transparent, o, sw, line, across, last);
            &&& covers(after.fov, sw.fov)
            &&& after.fov[c] ==> sw.fov[c] || (s.along_of(o, cx, cy) == line && across
                <= s.across_of(o, cx, cy) <= line && s.near(cx, cy) && (s.light_walls
                || transparent[c]))
        }),
    decreases line - across + 1,
{
    if across < 0 || across > line || !s.on_map(o, across, line) {
    } else {
        lemma_cell_lights_only(s, transparent, o, sw, line, across, last);
        lemma_cell_of(s, o, cx, cy);
        if s.cell(o, across, line) == cell_index(s.width as int, cx, cy) {
            lemma_cell_is(s, o, across, line, cx, cy);
        }
        lemma_line_lights_only(
            s,
            transparent,
            o,
            sweep_cell(s, transparent, o, sw, line, across, last),
            line,
            across + 1,
            last,
            cx,
            cy,
        );
    }
}

/// A sweep only adds to the field of view, and what it adds are cells of
/// its octant within the radius that are transparent, or opaque with
/// `light_walls` set.
pub proof fn lemma_sweep_lights_only(
    s: Setup,
    transparent: Seq<bool>,
    o: Octant,
    sw: Sweep,
    line: int,
    cx: int,
    cy: int,
)
    requires
        s.wf(),
        sw.fov.len() == s.width * s.height,
        0 <= sw.min_angle.num,
        0 < sw.min_angle.den,
        0 <= cx < s.width,
        0 <= cy < s.height,
    ensures
        ({
            let c = cell_index(s.width as int, cx, cy);
            let after = sweep(s, transparent, o, sw, line);
            &&& covers(after.fov, sw.fov)
            &&& after.fov[c] ==> sw.fov[c] || (s.in_octant(o, cx, cy) && line <= s.along_of(
                o,
                cx,
                cy,
            ) && s.near(cx, cy) && (s.light_walls || transparent[c]))
        }),
    decreases s.reach(o) - line + 1,
{
    if 1 <= line <= s.reach(o) {
        let fresh = Sweep {
            fov: sw.fov,
            min_angle: sw.min_angle,
            starts: sw.starts,
            ends: sw.ends,
            done: true,
        };
        let first = first_cell(sw.min_angle, line);
        let last = sw.starts.len() as int;
        lemma_first_cell(sw.min_angle, line);
        lemma_line_lights_only(s, transparent, o, fresh, line, first, last, cx, cy);
        let after = sweep_line(s, transparent, o, fresh, line, first, last);
        if after.done || line >= s.reach(o) {
        } else {
            lemma_line_min_angle(s, transparent, o, fresh, line, first, last);
            lemma_sweep_lights_only(s, transparent, o, after, line + 1, cx, cy);
        }
    }
}

/// The first cell of a line is not left of the axis.
pub proof fn lemma_first_cell(min_angle: Slope, line: int)
    requires
        0 <= min_angle.num,
        0 < min_angle.den,
        0 <= line,
    ensures
        0 <= first_cell(min_angle, line),
{
    let n = min_angle.num;
    let d = min_angle.den;
    assert(0 <= 2 * n * line + d) by (nonlinear_arith)
        requires
            0 <= n,
            0 <= line,
            0 < d,
    ;
    assert(0 <= (2 * n * line + d) / (2 * d)) by (nonlinear_arith)
        requires
            0 <= 2 * n * line + d,
            0 < d,
    ;
}

/// The slope below which a sweep passes cells over never becomes negative.
pub proof fn lemma_line_min_angle(
    s: Setup,
    transparent: Seq<bool>,
    o: Octant,
    sw: Sweep,
    line: int,
    across: int,
    last: int,
)
    requires
        0 <= sw.min_angle.num,
        0 < sw.min_angle.den,
        1 <= line,
        0 <= across,
    ensures
        0 <= sweep_line(s, transparent, o, sw, line, across, last).min_angle.num,
        0 < sweep_line(s, transparent, o, sw, line, across, last).min_angle.den,
    decreases line - across + 1,
{
    if across < 0 || across > line || !s.on_map(o, across, line) {
    } else {
        lemma_line_min_angle(
            s,
            transparent,
            o,
            sweep_cell(s, transparent, o, sw, line, across, last),
            line,
            across + 1,
            last,
        );
    }
}

/// The first `count` octants only add to the field of view, and what they
/// add are cells within the radius that are transparent, or opaque with
/// `light_walls` set.
pub proof fn lemma_octants_light_only(
    s: Setup,
    transparent: Seq<bool>,
    count: int,
    fov: Seq<bool>,
    cx: int,
    cy: int,
)
    requires
        s.wf(),
        fov.len() == s.width * s.height,
        0 <= cx < s.width,
        0 <= cy < s.height,
    ensures
        ({
            let c = cell_index(s.width as int, cx, cy);
            &&& covers(sweep_octants(s, transparent, count, fov), fov)
            &&& sweep_octants(s, transparent, count, fov)[c] ==> fov[c] || (s.near(cx, cy) && (
            s.light_walls || transparent[c]))
        }),
    decreases count,
{
    if count > 0 {
        lemma_octants_light_only(s, transparent, count - 1, fov, cx, cy);
        lemma_sweep_lights_only(
            s,
            transparent,
            nth_octant(count - 1),
            Sweep {
                fov: sweep_octants(s, transparent, count - 1, fov),
                min_angle: Slope { num: 0, den: 1 },
                starts: Seq::empty(),
                ends: Seq::empty(),
                done: false,
            },
            1,
            cx,
            cy,
        );
    }
}

/// The restrictive algorithm puts the observer's own cell in the field of
/// view; any other cell only if it is within the radius and is transparent
/// or `light_walls` is set.
pub proof fn lemma_restrictive_lights_only(s: Setup, transparent: Seq<bool>, cx: int, cy: int)
    requires
        s.wf(),
        transparent.len() == s.width * s.height,
        0 <= cx < s.width,
        0 <= cy < s.height,
    ensures
        restrictive(s, transparent)[s.observer()],
        ({
            let c = cell_index(s.width as int, cx, cy);
            (cx != s.x || cy != s.y) && restrictive(s, transparent)[c] ==> s.near(cx, cy) && (
            s.light_walls || transparent[c])
        }),
{
    let first = Seq::new(transparent.len(), |i: int| false).update(s.observer(), true);
    crate::lemma_cell_index_in_range(s.width as int, s.height as int, cx, cy);
    crate::lemma_cell_index_in_range(s.width as int, s.height as int, s.x as int, s.y as int);
    lemma_octants_light_only(s, transparent, 8, first, cx, cy);
    if cell_index(s.width as int, cx, cy) == s.observer() {
        crate::lemma_cell_index_injective(s.width as int, cx, cy, s.x as int, s.y as int);
    }
}

/// Obstacles are left as they are by a transparent cell.
pub proof fn lemma_probe_clear(
    pr: Probe,
    idx: int,
    last: int,
    centre: Slope,
    lo: Slope,
    hi: Slope,
)
    ensures
        probe(pr, idx, last, true, centre, lo, hi).starts == pr.starts,
        probe(pr, idx, last, true, centre, lo, hi).ends == pr.ends,
    decreases last - idx,
{
    if idx < 0 || idx >= last || !pr.visible {
    } else {
        lemma_probe_clear(pr, idx + 1, last, centre, lo, hi);
    }
}

/// With nothing blocked, a line starts on the axis.
pub proof fn lemma_first_cell_unhindered(min_angle: Slope, line: int)
    requires
        min_angle == (Slope { num: 0, den: 1 }),
    ensures
        first_cell(min_angle, line) == 0,
{
    let n = min_angle.num;
    let d = min_angle.den;
    assert((2 * n * line + d) / (2 * d) == 0) by (nonlinear_arith)
        requires
            n == 0,
            d == 1,
    ;
}

/// The state of a sweep that has met nothing opaque.
pub open spec fn unhindered(sw: Sweep) -> bool {
    &&& sw.min_angle == Slope { num: 0, den: 1 }
    &&& sw.starts =~= Seq::<Slope>::empty()
    &&& sw.ends =~= Seq::<Slope>::empty()
}

/// Every cell of octant `o` that a sweep looks at before the cell
/// `(across, line)` is transparent: the cells of the lines before, and the
/// cells of the line between the axis and the cell.
pub open spec fn clear_lines_before(
    s: Setup,
    transparent: Seq<bool>,
    o: Octant,
    across: int,
    line: int,
) -> bool {
    forall|a: int, j: int|
        0 <= a <= j && 1 <= j && s.on_map(o, a, j) && (j < line || (j == line && a < across))
            ==> transparent[#[trigger] s.cell(o, a, j)]
}

/// An unhindered sweep of a line before the line of a cell stays
/// unhindered and is not done; in the line of the cell it puts the cell in
/// the field of view.
proof fn lemma_line_reaches(
    s: Setup,
    transparent: Seq<bool>,
    o: Octant,
    sw: Sweep,
    line: int,
    across: int,
    to_across: int,
    to_line: int,
)
    requires
        s.wf(),
        sw.fov.len() == s.width * s.height,
        transparent.len() == s.width * s.height,
        1 <= line <= to_line,
        0 <= across <= line,
        0 <= to_across <= to_line,
        s.on_map(o, to_across, to_line),
        s.on_map(o, across, line),
        line == to_line ==> across <= to_across,
        unhindered(sw),
        clear_lines_before(s, transparent, o, to_across, to_line),
        s.in_radius(to_across, to_line),
        s.light_walls || transparent[s.cell(o, to_across, to_line)],
    ensures
        ({
            let after = sweep_line(s, transparent, o, sw, line, across, 0);
            &&& after.fov.len() == sw.fov.len()
            &&& 0 <= after.min_angle.num
            &&& 0 < after.min_angle.den
            &&& if line == to_line {
                after.fov[s.cell(o, to_across, to_line)]
            } else {
                unhindered(after) && !after.done
            }
        }),
    decreases line - across + 1,
{
    let c = s.cell(o, across, line);
    let next = sweep_cell(s, transparent, o, sw, line, across, 0);
    lemma_cell_lights_only(s, transparent, o, sw, line, across, 0);
    lemma_line_min_angle(s, transparent, o, sw, line, across, 0);
    if line == to_line && across == to_across {
        assert(next.fov[c]);
        lemma_line_lights_only(
            s,
            transparent,
            o,
            next,
            line,
            across + 1,
            0,
            s.x as int,
            s.y as int,
        );
    } else {
        assert(transparent[c]);
        assert(unhindered(next) && !next.done);
        if across + 1 <= line && s.on_map(o, across + 1, line) {
            lemma_line_reaches(s, transparent, o, next, line, across + 1, to_across, to_line);
        } else {
            assert(sweep_line(s, transparent, o, next, line, across + 1, 0) == next);
        }
    }
}

/// An unhindered sweep puts a cell in the field of view if nothing else
/// on the map is opaque, the cell is within the radius, and it is
/// transparent or `light_walls` is set.
proof fn lemma_sweep_reaches(
    s: Setup,
    transparent: Seq<bool>,
    o: Octant,
    sw: Sweep,
    line: int,
    to_across: int,
    to_line: int,
)
    requires
        s.wf(),
        sw.fov.len() == s.width * s.height,
        transparent.len() == s.width * s.height,
        1 <= line <= to_line <= s.reach(o),
        0 <= to_across <= to_line,
        s.on_map(o, to_across, to_line),
        unhindered(sw),
        clear_lines_before(s, transparent, o, to_across, to_line),
        s.in_radius(to_across, to_line),
        s.light_walls || transparent[s.cell(o, to_across, to_line)],
    ensures
        sweep(s, transparent, o, sw, line).fov[s.cell(o, to_across, to_line)],
    decreases to_line - line,
{
    let fresh = Sweep {
        fov: sw.fov,
        min_angle: sw.min_angle,
        starts: sw.starts,
        ends: sw.ends,
        done: true,
    };
    lemma_first_cell_unhindered(sw.min_angle, line);
    assert(s.on_map(o, 0, line));
    lemma_line_reaches(s, transparent, o, fresh, line, 0, to_across, to_line);
    let after = sweep_line(s, transparent, o, fresh, line, 0, 0);
    assert(sw.starts.len() == 0);
    assert(sweep(s, transparent, o, sw, line) == (if after.done || line >= s.reach(o) {
        after
    } else {
        sweep(s, transparent, o, after, line + 1)
    }));
    if line == to_line {
        lemma_cell_fits(s, o, to_across, to_line);
        lemma_sweep_lights_only(s, transparent, o, after, line + 1, s.x as int, s.y as int);
        assert(sweep(s, transparent, o, after, line + 1).fov[s.cell(o, to_across, to_line)]);
    } else {
        lemma_sweep_reaches(s, transparent, o, after, line + 1, to_across, to_line);
    }
}

/// Once its octant is swept, a cell is in the field of view if the sweep
/// looks at nothing opaque before the cell, the cell is within the radius,
/// and it is transparent or `light_walls` is set.
proof fn lemma_octants_reach(
    s: Setup,
    transparent: Seq<bool>,
    count: int,
    fov: Seq<bool>,
    o: Octant,
    across: int,
    line: int,
)
    requires
        s.wf(),
        transparent.len() == s.width * s.height,
        fov.len() == s.width * s.height,
        octant_number(o) < count,
        0 <= across <= line,
        1 <= line,
        s.on_map(o, across, line),
        clear_lines_before(s, transparent, o, across, line),
        s.in_radius(across, line),
        s.light_walls || transparent[s.cell(o, across, line)],
    ensures
        sweep_octants(s, transparent, count, fov)[s.cell(o, across, line)],
    decreases count,
{
    let before = sweep_octants(s, transparent, count - 1, fov);
    let begin = Sweep {
        fov: before,
        min_angle: Slope { num: 0, den: 1 },
        starts: Seq::empty(),
        ends: Seq::empty(),
        done: false,
    };
    lemma_octants_light_only(s, transparent, count - 1, fov, s.x as int, s.y as int);
    lemma_octant_number(o);
    lemma_cell_fits(s, o, across, line);
    if octant_number(o) < count - 1 {
        lemma_octants_reach(s, transparent, count - 1, fov, o, across, line);
        lemma_sweep_lights_only(
            s,
            transparent,
            nth_octant(count - 1),
            begin,
            1,
            s.x as int,
            s.y as int,
        );
    } else {
        lemma_row_in_reach(s, o, across, line);
        lemma_sweep_reaches(s, transparent, o, begin, 1, across, line);
    }
}

/// The restrictive algorithm sees every cell that nothing stands in front
/// of: a cell of an octant is in the field of view if it is within the
/// radius, is transparent or `light_walls` is set, and every cell that the
/// octant's sweep looks at before it is transparent.
pub proof fn lemma_restrictive_sees_clear(
    s: Setup,
    transparent: Seq<bool>,
    o: Octant,
    across: int,
    line: int,
)
    requires
        s.wf(),
        transparent.len() == s.width * s.height,
        0 <= across <= line,
        1 <= line,
        s.on_map(o, across, line),
        clear_lines_before(s, transparent, o, across, line),
        s.in_radius(across, line),
        s.light_walls || transparent[s.cell(o, across, line)],
    ensures
        restrictive(s, transparent)[s.cell(o, across, line)],
{
    let first = Seq::new(transparent.len(), |i: int| false).update(s.observer(), true);
    lemma_octant_number(o);
    crate::lemma_cell_index_in_range(s.width as int, s.height as int, s.x as int, s.y as int);
    lemma_octants_reach(s, transparent, 8, first, o, across, line);
}

/// On a map whose other cells are all transparent, the restrictive
/// algorithm puts a cell in the field of view exactly if it is the
/// observer's, or is within the radius and is transparent or `light_walls`
/// is set.
pub proof fn lemma_restrictive_sees_unobstructed(
    s: Setup,
    transparent: Seq<bool>,
    cx: int,
    cy: int,
)
    requires
        s.wf(),
        transparent.len() == s.width * s.height,
        0 <= cx < s.width,
        0 <= cy < s.height,
        forall|i: int|
            0 <= i < transparent.len() && i != cell_index(s.width as int, cx, cy)
                ==> transparent[i],
    ensures
        restrictive(s, transparent)[cell_index(s.width as int, cx, cy)] == ((cx == s.x && cy
            == s.y) || (s.near(cx, cy) && (s.light_walls || transparent[cell_index(
            s.width as int,
            cx,
            cy,
        )]))),
{
    let c = cell_index(s.width as int, cx, cy);
    crate::lemma_cell_index_in_range(s.width as int, s.height as int, cx, cy);
    crate::lemma_cell_index_in_range(s.width as int, s.height as int, s.x as int, s.y as int);
    lemma_restrictive_lights_only(s, transparent, cx, cy);
    if cx == s.x && cy == s.y {
    } else if s.near(cx, cy) && (s.light_walls || transparent[c]) {
        let o = octant_of(s, cx, cy);
        let across = s.across_of(o, cx, cy);
        let line = s.along_of(o, cx, cy);
        lemma_octant_of(s, cx, cy);
        lemma_cell_of(s, o, cx, cy);
        lemma_cell_is(s, o, across, line, cx, cy);
        assert forall|a: int, j: int|
            0 <= a <= j && 1 <= j && s.on_map(o, a, j) && (j < line || (j == line && a
                < across)) implies transparent[#[trigger] s.cell(o, a, j)] by {
            lemma_cells_differ(s, o, a, j, across, line);
        }
        lemma_restrictive_sees_clear(s, transparent, o, across, line);
    }
}

} // verus!
