//! What the restrictive algorithm does not see along a diagonal: the cells
//! behind an opaque cell.
use crate::cell_index;
use crate::fov_restrictive::{
    first_cell, probe, restrictive, sweep, sweep_cell, sweep_line, sweep_octant, sweep_octants,
    walled_in, Probe, Sweep,
};
use crate::geometry::{
    lemma_cell_fits, lemma_cells_differ, nth_octant, octant_number, ray, Octant, Setup,
};
use crate::restrictive_proofs::{
    lemma_cell_lights_only, lemma_first_cell, lemma_sweep_lights_only,
};
use crate::slope::{
    lemma_slope_chain, line_slope, slope_le, slope_lt, slope_max, slope_min, Slope,
};
use vstd::prelude::*;

verus! {

/// The cell of line `line` on the diagonal of octant `o`.
pub open spec fn diag_cell(s: Setup, o: Octant, line: int) -> int {
    s.cell(o, line, line)
}

/// The cell straight behind the diagonal cell of line `line`. It lies
/// beyond the diagonal, in the octant next to `o`.
pub open spec fn up_cell(s: Setup, o: Octant, line: int) -> int {
    s.cell(o, line, line - 1)
}

/// The cell of line `line` next to the diagonal cell, towards the axis.
pub open spec fn sub_cell(s: Setup, o: Octant, line: int) -> int {
    s.cell(o, line - 1, line)
}

/// Out of the field of view, or opaque.
pub open spec fn dark(transparent: Seq<bool>, fov: Seq<bool>, c: int) -> bool {
    !fov[c] || !transparent[c]
}

/// The diagonal cells after line `wall` are out of the field of view.
pub open spec fn diag_dark(s: Setup, o: Octant, fov: Seq<bool>, wall: int) -> bool {
    forall|j: int| j > wall && s.on_map(o, j, j) ==> !fov[#[trigger] diag_cell(s, o, j)]
}

/// The cells next to the diagonal cells after line `wall` are out of the
/// field of view.
pub open spec fn sub_dark(s: Setup, o: Octant, fov: Seq<bool>, wall: int) -> bool {
    forall|j: int| j > wall && s.on_map(o, j, j) ==> !fov[#[trigger] sub_cell(s, o, j)]
}

/// The cells behind the diagonal cells after line `wall` are dark.
pub open spec fn up_dark(
    s: Setup,
    transparent: Seq<bool>,
    o: Octant,
    fov: Seq<bool>,
    wall: int,
) -> bool {
    forall|j: int|
        j > wall && s.on_map(o, j, j) ==> dark(transparent, fov, #[trigger] up_cell(s, o, j))
}

/// Two fields of view agree on the cells behind the diagonal cells from
/// line `wall` on.
pub open spec fn same_up(s: Setup, o: Octant, fov: Seq<bool>, base: Seq<bool>, wall: int) -> bool {
    forall|j: int|
        j >= wall && s.on_map(o, j, j) ==> fov[#[trigger] up_cell(s, o, j)] == base[up_cell(
            s,
            o,
            j,
        )]
}

/// The obstacles come in pairs of slopes with positive denominators.
pub open spec fn tidy_obstacles(starts: Seq<Slope>, ends: Seq<Slope>) -> bool {
    &&& starts.len() == ends.len()
    &&& forall|k: int| 0 <= k < starts.len() ==> (#[trigger] starts[k]).den > 0
    &&& forall|k: int| 0 <= k < ends.len() ==> (#[trigger] ends[k]).den > 0
}

/// A sweep whose slopes all have positive denominators.
pub open spec fn tidy(s: Setup, sw: Sweep) -> bool {
    &&& tidy_obstacles(sw.starts, sw.ends)
    &&& 0 < sw.min_angle.den
    &&& 0 <= sw.min_angle.num
    &&& sw.fov.len() == s.width * s.height
}

/// The obstacle `k` holds the whole slope range of the diagonal cell of
/// line `wall`.
pub open spec fn covers_wall(starts: Seq<Slope>, ends: Seq<Slope>, k: int, wall: int) -> bool {
    &&& 0 <= k < starts.len()
    &&& slope_le(starts[k], line_slope(2 * wall - 1, wall))
    &&& slope_le(line_slope(2 * wall + 1, wall), ends[k])
}

/// The slope range of the diagonal cell of line `wall`, and all below it,
/// is blocked.
pub open spec fn shut(sw: Sweep, wall: int) -> bool {
    &&& 0 < sw.min_angle.den
    &&& slope_le(line_slope(2 * wall + 1, wall), sw.min_angle)
}

/// Holding a cell against the obstacles leaves them tidy, and as many.
proof fn lemma_probe_tidy(
    pr: Probe,
    idx: int,
    last: int,
    clear: bool,
    centre: Slope,
    lo: Slope,
    hi: Slope,
)
    requires
        tidy_obstacles(pr.starts, pr.ends),
        last <= pr.starts.len(),
        lo.den > 0,
        hi.den > 0,
    ensures
        tidy_obstacles(
            probe(pr, idx, last, clear, centre, lo, hi).starts,
            probe(pr, idx, last, clear, centre, lo, hi).ends,
        ),
        probe(pr, idx, last, clear, centre, lo, hi).starts.len() == pr.starts.len(),
    decreases last - idx,
{
    if idx < 0 || idx >= last || !pr.visible {
    } else {
        let st = pr.starts[idx];
        let en = pr.ends[idx];
        let wider = Probe {
            starts: pr.starts.update(idx, slope_min(st, lo)),
            ends: pr.ends.update(idx, slope_max(en, hi)),
            visible: true,
            extended: true,
        };
        assert(st.den > 0 && en.den > 0);
        assert(tidy_obstacles(wider.starts, wider.ends));
        lemma_probe_tidy(pr, idx + 1, last, clear, centre, lo, hi);
        lemma_probe_tidy(wider, idx + 1, last, clear, centre, lo, hi);
    }
}

/// An obstacle that holds the slope range of the wall goes on holding it.
proof fn lemma_probe_keeps_cover(
    pr: Probe,
    idx: int,
    last: int,
    clear: bool,
    centre: Slope,
    lo: Slope,
    hi: Slope,
    k: int,
    wall: int,
)
    requires
        tidy_obstacles(pr.starts, pr.ends),
        last <= pr.starts.len(),
        lo.den > 0,
        hi.den > 0,
        1 <= wall,
        covers_wall(pr.starts, pr.ends, k, wall),
    ensures
        covers_wall(
            probe(pr, idx, last, clear, centre, lo, hi).starts,
            probe(pr, idx, last, clear, centre, lo, hi).ends,
            k,
            wall,
        ),
    decreases last - idx,
{
    if idx < 0 || idx >= last || !pr.visible {
    } else {
        let st = pr.starts[idx];
        let en = pr.ends[idx];
        let wlo = line_slope(2 * wall - 1, wall);
        let whi = line_slope(2 * wall + 1, wall);
        let wider = Probe {
            starts: pr.starts.update(idx, slope_min(st, lo)),
            ends: pr.ends.update(idx, slope_max(en, hi)),
            visible: true,
            extended: true,
        };
        assert(st.den > 0 && en.den > 0);
        assert(tidy_obstacles(wider.starts, wider.ends));
        if idx == k {
            if slope_lt(lo, st) {
                lemma_slope_chain(lo, st, wlo);
            }
            if slope_lt(en, hi) {
                lemma_slope_chain(whi, en, hi);
            }
        }
        assert(covers_wall(wider.starts, wider.ends, k, wall));
        lemma_probe_keeps_cover(pr, idx + 1, last, clear, centre, lo, hi, k, wall);
        lemma_probe_keeps_cover(wider, idx + 1, last, clear, centre, lo, hi, k, wall);
    }
}

/// An obstacle that holds the slope range of the diagonal cell of line
/// `wall` hides the diagonal cells of the lines after it.
proof fn lemma_probe_hides_diagonal(
    pr: Probe,
    idx: int,
    last: int,
    clear: bool,
    k: int,
    wall: int,
    line: int,
)
    requires
        tidy_obstacles(pr.starts, pr.ends),
        0 <= idx <= k < last <= pr.starts.len(),
        covers_wall(pr.starts, pr.ends, k, wall),
        1 <= wall < line,
    ensures
        !probe(
            pr,
            idx,
            last,
            clear,
            line_slope(2 * line, line),
            line_slope(2 * line - 1, line),
            line_slope(2 * line + 1, line),
        ).visible,
    decreases last - idx,
{
    let centre = line_slope(2 * line, line);
    let lo = line_slope(2 * line - 1, line);
    let hi = line_slope(2 * line + 1, line);
    let wlo = line_slope(2 * wall - 1, wall);
    let whi = line_slope(2 * wall + 1, wall);
    if !pr.visible {
    } else {
        let st = pr.starts[idx];
        let en = pr.ends[idx];
        assert(st.den > 0 && en.den > 0);
        if idx == k {
            // the cell's slopes lie strictly inside the wall's
            assert(slope_lt(wlo, lo) && slope_lt(wlo, centre) && slope_lt(wlo, hi)) by (nonlinear_arith)
                requires
                    1 <= wall < line,
                    wlo.num == 2 * wall - 1,
                    wlo.den == 2 * wall,
                    lo.num == 2 * line - 1,
                    lo.den == 2 * line,
                    centre.num == 2 * line,
                    centre.den == 2 * line,
                    hi.num == 2 * line + 1,
                    hi.den == 2 * line,
                    slope_lt(wlo, lo) == (wlo.num * lo.den < lo.num * wlo.den),
                    slope_lt(wlo, centre) == (wlo.num * centre.den < centre.num * wlo.den),
                    slope_lt(wlo, hi) == (wlo.num * hi.den < hi.num * wlo.den),
            ;
            assert(slope_lt(lo, whi) && slope_lt(centre, whi) && slope_lt(hi, whi)) by (nonlinear_arith)
                requires
                    1 <= wall < line,
                    whi.num == 2 * wall + 1,
                    whi.den == 2 * wall,
                    lo.num == 2 * line - 1,
                    lo.den == 2 * line,
                    centre.num == 2 * line,
                    centre.den == 2 * line,
                    hi.num == 2 * line + 1,
                    hi.den == 2 * line,
                    slope_lt(lo, whi) == (lo.num * whi.den < whi.num * lo.den),
                    slope_lt(centre, whi) == (centre.num * whi.den < whi.num * centre.den),
                    slope_lt(hi, whi) == (hi.num * whi.den < whi.num * hi.den),
            ;
            lemma_slope_chain(st, wlo, lo);
            lemma_slope_chain(st, wlo, centre);
            lemma_slope_chain(st, wlo, hi);
            lemma_slope_chain(lo, whi, en);
            lemma_slope_chain(centre, whi, en);
            lemma_slope_chain(hi, whi, en);
        } else {
            let wider = Probe {
                starts: pr.starts.update(idx, slope_min(st, lo)),
                ends: pr.ends.update(idx, slope_max(en, hi)),
                visible: true,
                extended: true,
            };
            assert(tidy_obstacles(wider.starts, wider.ends));
            assert(covers_wall(wider.starts, wider.ends, k, wall));
            lemma_probe_hides_diagonal(pr, idx + 1, last, clear, k, wall, line);
            lemma_probe_hides_diagonal(wider, idx + 1, last, clear, k, wall, line);
        }
    }
}

/// An opaque diagonal cell that the obstacles hide, or that widens one, has
/// its slope range held by an obstacle afterwards.
proof fn lemma_probe_wall(pr: Probe, idx: int, last: int, wall: int) -> (k: int)
    requires
        tidy_obstacles(pr.starts, pr.ends),
        pr.visible,
        0 <= idx,
        last <= pr.starts.len(),
        1 <= wall,
    ensures
        ({
            let r = probe(
                pr,
                idx,
                last,
                false,
                line_slope(2 * wall, wall),
                line_slope(2 * wall - 1, wall),
                line_slope(2 * wall + 1, wall),
            );
            !r.visible || (r.extended && !pr.extended) ==> idx <= k < last && covers_wall(
                r.starts,
                r.ends,
                k,
                wall,
            )
        }),
    decreases last - idx,
{
    let centre = line_slope(2 * wall, wall);
    let lo = line_slope(2 * wall - 1, wall);
    let hi = line_slope(2 * wall + 1, wall);
    if idx >= last {
        idx
    } else {
        let st = pr.starts[idx];
        let en = pr.ends[idx];
        assert(st.den > 0 && en.den > 0);
        if slope_lt(hi, st) || slope_lt(en, lo) {
            lemma_probe_wall(pr, idx + 1, last, wall)
        } else if slope_le(st, lo) && slope_le(hi, en) {
            idx
        } else {
            let wider = Probe {
                starts: pr.starts.update(idx, slope_min(st, lo)),
                ends: pr.ends.update(idx, slope_max(en, hi)),
                visible: true,
                extended: true,
            };
            assert(tidy_obstacles(wider.starts, wider.ends));
            assert(covers_wall(wider.starts, wider.ends, idx, wall));
            lemma_probe_keeps_cover(wider, idx + 1, last, false, centre, lo, hi, idx, wall);
            idx
        }
    }
}

/// Once the diagonal cell of line `wall` is blocked, the later lines have
/// no cell left to look at.
proof fn lemma_shut_skips(min_angle: Slope, wall: int, line: int)
    requires
        0 < min_angle.den,
        slope_le(line_slope(2 * wall + 1, wall), min_angle),
        1 <= wall < line,
    ensures
        first_cell(min_angle, line) > line,
{
    let n = min_angle.num;
    let d = min_angle.den;
    let top = 2 * n * line + d;
    assert((2 * wall + 1) * d <= n * (2 * wall));
    assert(top >= (2 * d) * (line + 1)) by (nonlinear_arith)
        requires
            (2 * wall + 1) * d <= n * (2 * wall),
            top == 2 * n * line + d,
            1 <= wall < line,
            0 < d,
    ;
    vstd::arithmetic::div_mod::lemma_fundamental_div_mod(top, 2 * d);
    vstd::arithmetic::div_mod::lemma_mod_bound(top, 2 * d);
    let q = top / (2 * d);
    assert(q > line) by (nonlinear_arith)
        requires
            top == (2 * d) * q + top % (2 * d),
            0 <= top % (2 * d) < 2 * d,
            top >= (2 * d) * (line + 1),
            0 < d,
    ;
}

/// Looking at a cell leaves a tidy sweep tidy, and takes no obstacle away.
proof fn lemma_cell_tidy(
    s: Setup,
    transparent: Seq<bool>,
    o: Octant,
    sw: Sweep,
    line: int,
    across: int,
    last: int,
)
    requires
        s.wf(),
        tidy(s, sw),
        0 <= across,
        1 <= line,
        s.on_map(o, across, line),
        last <= sw.starts.len(),
    ensures
        tidy(s, sweep_cell(s, transparent, o, sw, line, across, last)),
        sweep_cell(s, transparent, o, sw, line, across, last).starts.len() >= sw.starts.len(),
{
    let c = s.cell(o, across, line);
    let next = sweep_cell(s, transparent, o, sw, line, across, last);
    let lo = line_slope(2 * across - 1, line);
    let centre = line_slope(2 * across, line);
    let hi = line_slope(2 * across + 1, line);
    let open = Probe { starts: sw.starts, ends: sw.ends, visible: true, extended: false };
    lemma_cell_lights_only(s, transparent, o, sw, line, across, last);
    lemma_probe_tidy(open, 0, last, transparent[c], centre, lo, hi);
    let pr = probe(open, 0, last, transparent[c], centre, lo, hi);
    assert(tidy_obstacles(pr.starts.push(lo), pr.ends.push(hi)));
    assert(tidy_obstacles(sw.starts.push(lo), sw.ends.push(hi)));
}

/// Looking at a cell leaves an obstacle that holds the slope range of the
/// wall holding it.
proof fn lemma_cell_keeps_cover(
    s: Setup,
    transparent: Seq<bool>,
    o: Octant,
    sw: Sweep,
    line: int,
    across: int,
    last: int,
    k: int,
    wall: int,
)
    requires
        s.wf(),
        tidy(s, sw),
        0 <= across,
        1 <= line,
        1 <= wall,
        s.on_map(o, across, line),
        last <= sw.starts.len(),
        covers_wall(sw.starts, sw.ends, k, wall),
    ensures
        covers_wall(
            sweep_cell(s, transparent, o, sw, line, across, last).starts,
            sweep_cell(s, transparent, o, sw, line, across, last).ends,
            k,
            wall,
        ),
{
    let c = s.cell(o, across, line);
    let lo = line_slope(2 * across - 1, line);
    let centre = line_slope(2 * across, line);
    let hi = line_slope(2 * across + 1, line);
    let open = Probe { starts: sw.starts, ends: sw.ends, visible: true, extended: false };
    lemma_probe_tidy(open, 0, last, transparent[c], centre, lo, hi);
    lemma_probe_keeps_cover(open, 0, last, transparent[c], centre, lo, hi, k, wall);
    let pr = probe(open, 0, last, transparent[c], centre, lo, hi);
    assert(covers_wall(pr.starts.push(lo), pr.ends.push(hi), k, wall));
    assert(covers_wall(sw.starts.push(lo), sw.ends.push(hi), k, wall));
}

/// A diagonal cell after the wall stays out of the field of view: an
/// obstacle that holds the wall hides it, or the cells behind it are dark.
proof fn lemma_cell_diagonal(
    s: Setup,
    transparent: Seq<bool>,
    o: Octant,
    sw: Sweep,
    line: int,
    last: int,
    k: int,
    wall: int,
)
    requires
        s.wf(),
        tidy(s, sw),
        1 <= wall < line,
        s.on_map(o, line, line),
        !sw.fov[diag_cell(s, o, line)],
        0 < last <= sw.starts.len(),
        (covers_wall(sw.starts, sw.ends, k, wall) && k < last) || (dark(
            transparent,
            sw.fov,
            up_cell(s, o, line),
        ) && dark(transparent, sw.fov, diag_cell(s, o, line - 1))),
    ensures
        sweep_cell(s, transparent, o, sw, line, line, last).fov == sw.fov,
{
    let c = s.cell(o, line, line);
    let open = Probe { starts: sw.starts, ends: sw.ends, visible: true, extended: false };
    if covers_wall(sw.starts, sw.ends, k, wall) && k < last {
        lemma_probe_hides_diagonal(open, 0, last, transparent[c], k, wall, line);
    } else {
        assert(s.on_map(o, line - 1, line - 1));
        assert(walled_in(s, transparent, o, sw.fov, line, line));
    }
}

/// The cell next to a diagonal cell stays out of the field of view when
/// the two cells behind it are dark.
proof fn lemma_cell_sub(
    s: Setup,
    transparent: Seq<bool>,
    o: Octant,
    sw: Sweep,
    line: int,
    last: int,
)
    requires
        s.wf(),
        2 <= line,
        s.on_map(o, line, line),
        !sw.fov[sub_cell(s, o, line)],
        0 < last,
        dark(transparent, sw.fov, diag_cell(s, o, line - 1)),
        dark(transparent, sw.fov, sub_cell(s, o, line - 1)),
    ensures
        sweep_cell(s, transparent, o, sw, line, line - 1, last).fov == sw.fov,
{
    assert(s.on_map(o, line - 2, line - 1));
    assert(walled_in(s, transparent, o, sw.fov, line, line - 1));
}

/// What the sweep knows once it has looked at an opaque diagonal cell: the
/// cell's slopes are blocked, or an obstacle holds them, or the cell behind
/// the diagonal cell was dark. In the last two cases there are obstacles.
pub open spec fn wall_met(
    s: Setup,
    transparent: Seq<bool>,
    o: Octant,
    sw: Sweep,
    fov: Seq<bool>,
    k: int,
    wall: int,
) -> bool {
    shut(sw, wall) || (sw.starts.len() > 0 && (covers_wall(sw.starts, sw.ends, k, wall) || dark(
        transparent,
        fov,
        up_cell(s, o, wall),
    )))
}

/// Looking at an opaque diagonal cell.
proof fn lemma_cell_wall(
    s: Setup,
    transparent: Seq<bool>,
    o: Octant,
    sw: Sweep,
    wall: int,
    last: int,
) -> (k: int)
    requires
        s.wf(),
        tidy(s, sw),
        1 <= wall,
        s.on_map(o, wall, wall),
        !transparent[diag_cell(s, o, wall)],
        last <= sw.starts.len(),
    ensures
        wall_met(
            s,
            transparent,
            o,
            sweep_cell(s, transparent, o, sw, wall, wall, last),
            sw.fov,
            k,
            wall,
        ),
{
    let c = s.cell(o, wall, wall);
    let next = sweep_cell(s, transparent, o, sw, wall, wall, last);
    let lo = line_slope(2 * wall - 1, wall);
    let centre = line_slope(2 * wall, wall);
    let hi = line_slope(2 * wall + 1, wall);
    let open = Probe { starts: sw.starts, ends: sw.ends, visible: true, extended: false };
    lemma_probe_tidy(open, 0, last, false, centre, lo, hi);
    let probed = last > 0 && !sw.fov[c];
    if probed && walled_in(s, transparent, o, sw.fov, wall, wall) {
        0
    } else {
        let found = lemma_probe_wall(open, 0, last, wall);
        let pr = if probed {
            probe(open, 0, last, false, centre, lo, hi)
        } else {
            open
        };
        if !pr.visible {
            found
        } else if slope_le(lo, sw.min_angle) {
            assert(next.min_angle == hi);
            found
        } else if !pr.extended {
            assert(next.starts == pr.starts.push(lo));
            assert(next.ends == pr.ends.push(hi));
            pr.starts.len() as int
        } else {
            found
        }
    }
}

/// A step of the sweep that changes the field of view at one cell of the
/// octant at most leaves the other cells as they were.
proof fn lemma_kept(
    s: Setup,
    transparent: Seq<bool>,
    o: Octant,
    fov: Seq<bool>,
    next: Seq<bool>,
    base: Seq<bool>,
    wall: int,
    across: int,
    line: int,
)
    requires
        s.wf(),
        fov.len() == s.width * s.height,
        0 <= across <= line,
        1 <= line,
        1 <= wall,
        s.on_map(o, across, line),
        s.on_map(o, wall, wall),
        next == fov || next == fov.update(s.cell(o, across, line), true),
    ensures
        next.len() == fov.len(),
        (line <= wall || across < line) && diag_dark(s, o, fov, wall) ==> diag_dark(
            s,
            o,
            next,
            wall,
        ),
        (line <= wall || across != line - 1 || !s.on_map(o, line, line)) && sub_dark(
            s,
            o,
            fov,
            wall,
        ) ==> sub_dark(s, o, next, wall),
        same_up(s, o, fov, base, wall) ==> same_up(s, o, next, base, wall),
        line != wall || across != wall - 1 ==> dark(transparent, next, sub_cell(s, o, wall))
            == dark(transparent, fov, sub_cell(s, o, wall)),
{
    lemma_cell_fits(s, o, across, line);
    if (line <= wall || across < line) && diag_dark(s, o, fov, wall) {
        assert forall|j: int| j > wall && s.on_map(o, j, j) implies !next[#[trigger] diag_cell(
            s,
            o,
            j,
        )] by {
            lemma_cells_differ(s, o, across, line, j, j);
        }
    }
    if (line <= wall || across != line - 1 || !s.on_map(o, line, line)) && sub_dark(
        s,
        o,
        fov,
        wall,
    ) {
        assert forall|j: int| j > wall && s.on_map(o, j, j) implies !next[#[trigger] sub_cell(
            s,
            o,
            j,
        )] by {
            lemma_cells_differ(s, o, across, line, j - 1, j);
        }
    }
    if same_up(s, o, fov, base, wall) {
        assert forall|j: int| j >= wall && s.on_map(o, j, j) implies next[#[trigger] up_cell(
            s,
            o,
            j,
        )] == base[up_cell(s, o, j)] by {
            lemma_cells_differ(s, o, across, line, j, j - 1);
        }
    }
    if line != wall || across != wall - 1 {
        lemma_cells_differ(s, o, across, line, wall - 1, wall);
    }
}

/// A line after the wall, with obstacles: the diagonal cell of the line
/// stays dark, and so does the cell next to it where that is kept track of.
proof fn lemma_line_past_wall(
    s: Setup,
    transparent: Seq<bool>,
    o: Octant,
    sw: Sweep,
    line: int,
    across: int,
    last: int,
    base: Seq<bool>,
    wall: int,
    k: int,
    track: bool,
)
    requires
        s.wf(),
        transparent.len() == s.width * s.height,
        tidy(s, sw),
        1 <= wall < line,
        0 <= across,
        0 < last <= sw.starts.len(),
        s.on_map(o, wall, wall),
        !transparent[diag_cell(s, o, wall)],
        (covers_wall(sw.starts, sw.ends, k, wall) && k < last) || up_dark(
            s,
            transparent,
            o,
            base,
            wall,
        ),
        same_up(s, o, sw.fov, base, wall),
        diag_dark(s, o, sw.fov, wall),
        track ==> sub_dark(s, o, sw.fov, wall) && dark(transparent, sw.fov, sub_cell(s, o, wall)),
    ensures
        ({
            let after = sweep_line(s, transparent, o, sw, line, across, last);
            &&& tidy(s, after)
            &&& after.starts.len() >= sw.starts.len()
            &&& (covers_wall(after.starts, after.ends, k, wall) && k < last) || up_dark(
                s,
                transparent,
                o,
                base,
                wall,
            )
            &&& same_up(s, o, after.fov, base, wall)
            &&& diag_dark(s, o, after.fov, wall)
            &&& track ==> sub_dark(s, o, after.fov, wall) && dark(
                transparent,
                after.fov,
                sub_cell(s, o, wall),
            )
        }),
    decreases line - across + 1,
{
    if across > line || !s.on_map(o, across, line) {
    } else {
        let next = sweep_cell(s, transparent, o, sw, line, across, last);
        lemma_cell_tidy(s, transparent, o, sw, line, across, last);
        lemma_cell_lights_only(s, transparent, o, sw, line, across, last);
        if covers_wall(sw.starts, sw.ends, k, wall) {
            lemma_cell_keeps_cover(s, transparent, o, sw, line, across, last, k, wall);
        }
        // the cells behind the diagonal cell of this line
        let before = diag_cell(s, o, line - 1);
        if across >= line - 1 && s.on_map(o, line, line) {
            assert(s.on_map(o, line - 1, line - 1));
            if line - 1 > wall {
                assert(!sw.fov[diag_cell(s, o, line - 1)]);
            }
            assert(dark(transparent, sw.fov, before));
        }
        if across == line {
            assert(!sw.fov[diag_cell(s, o, line)]);
            if !(covers_wall(sw.starts, sw.ends, k, wall) && k < last) {
                assert(dark(transparent, base, up_cell(s, o, line)));
                assert(sw.fov[up_cell(s, o, line)] == base[up_cell(s, o, line)]);
            }
            lemma_cell_diagonal(s, transparent, o, sw, line, last, k, wall);
        } else if track && across == line - 1 && s.on_map(o, line, line) {
            assert(!sw.fov[sub_cell(s, o, line)]);
            if line - 1 > wall {
                assert(!sw.fov[sub_cell(s, o, line - 1)]);
            }
            lemma_cell_sub(s, transparent, o, sw, line, last);
        }
        lemma_kept(s, transparent, o, sw.fov, next.fov, base, wall, across, line);
        if next.fov == sw.fov {
            assert(diag_dark(s, o, next.fov, wall));
            assert(same_up(s, o, next.fov, base, wall));
        }
        lemma_line_past_wall(
            s,
            transparent,
            o,
            next,
            line,
            across + 1,
            last,
            base,
            wall,
            k,
            track,
        );
    }
}

/// The lines after the wall: the diagonal cells stay dark, and so do the
/// cells next to them where that is kept track of.
proof fn lemma_sweep_past_wall(
    s: Setup,
    transparent: Seq<bool>,
    o: Octant,
    sw: Sweep,
    line: int,
    base: Seq<bool>,
    wall: int,
    k: int,
    track: bool,
)
    requires
        s.wf(),
        transparent.len() == s.width * s.height,
        tidy(s, sw),
        1 <= wall < line,
        s.on_map(o, wall, wall),
        !transparent[diag_cell(s, o, wall)],
        shut(sw, wall) || (sw.starts.len() > 0 && (covers_wall(sw.starts, sw.ends, k, wall)
            || up_dark(s, transparent, o, base, wall))),
        same_up(s, o, sw.fov, base, wall),
        diag_dark(s, o, sw.fov, wall),
        track ==> sub_dark(s, o, sw.fov, wall) && dark(transparent, sw.fov, sub_cell(s, o, wall)),
    ensures
        diag_dark(s, o, sweep(s, transparent, o, sw, line).fov, wall),
        track ==> sub_dark(s, o, sweep(s, transparent, o, sw, line).fov, wall),
    decreases s.reach(o) - line + 1,
{
    if 1 <= line <= s.reach(o) {
        let fresh = Sweep {
            fov: sw.fov,
            min_angle: sw.min_angle,
            starts: sw.starts,
            ends: sw.ends,
            done: true,
        };
        let first = first_cell(sw.min_angle, line);
        let last = sw.starts.len() as int;
        let after = sweep_line(s, transparent, o, fresh, line, first, last);
        if shut(sw, wall) {
            lemma_shut_skips(sw.min_angle, wall, line);
            assert(after == fresh);
        } else {
            lemma_first_cell(sw.min_angle, line);
            lemma_line_past_wall(
                s,
                transparent,
                o,
                fresh,
                line,
                first,
                last,
                base,
                wall,
                k,
                track,
            );
            if after.done || line >= s.reach(o) {
            } else {
                lemma_sweep_past_wall(s, transparent, o, after, line + 1, base, wall, k, track);
            }
        }
    }
}

/// A line up to the wall: the cells after the wall stay as they are, and
/// in the line of the wall the sweep meets the wall.
proof fn lemma_line_to_wall(
    s: Setup,
    transparent: Seq<bool>,
    o: Octant,
    sw: Sweep,
    line: int,
    across: int,
    last: int,
    base: Seq<bool>,
    wall: int,
    track: bool,
) -> (k: int)
    requires
        s.wf(),
        transparent.len() == s.width * s.height,
        tidy(s, sw),
        1 <= line <= wall,
        0 <= across,
        last <= sw.starts.len(),
        s.on_map(o, wall, wall),
        !transparent[diag_cell(s, o, wall)],
        same_up(s, o, sw.fov, base, wall),
        diag_dark(s, o, sw.fov, wall),
        track ==> sub_dark(s, o, sw.fov, wall),
    ensures
        ({
            let after = sweep_line(s, transparent, o, sw, line, across, last);
            &&& tidy(s, after)
            &&& after.starts.len() >= sw.starts.len()
            &&& same_up(s, o, after.fov, base, wall)
            &&& diag_dark(s, o, after.fov, wall)
            &&& track ==> sub_dark(s, o, after.fov, wall)
            &&& line == wall && across <= wall ==> wall_met(
                s,
                transparent,
                o,
                after,
                base,
                k,
                wall,
            )
        }),
    decreases line - across + 1,
{
    if across > line || !s.on_map(o, across, line) {
        0
    } else {
        let next = sweep_cell(s, transparent, o, sw, line, across, last);
        lemma_cell_tidy(s, transparent, o, sw, line, across, last);
        lemma_cell_lights_only(s, transparent, o, sw, line, across, last);
        lemma_kept(s, transparent, o, sw.fov, next.fov, base, wall, across, line);
        if line == wall && across == wall {
            let met = lemma_cell_wall(s, transparent, o, sw, wall, last);
            assert(sw.fov[up_cell(s, o, wall)] == base[up_cell(s, o, wall)]);
            assert(sweep_line(s, transparent, o, next, line, across + 1, last) == next);
            met
        } else {
            lemma_line_to_wall(
                s,
                transparent,
                o,
                next,
                line,
                across + 1,
                last,
                base,
                wall,
                track,
            )
        }
    }
}

/// A sweep of an octant with an opaque cell on its diagonal, in line
/// `wall`: the diagonal cells after it stay dark. Where the cell next to
/// the opaque cell ends up dark too, so do the cells next to the diagonal
/// cells after it.
proof fn lemma_sweep_to_wall(
    s: Setup,
    transparent: Seq<bool>,
    o: Octant,
    sw: Sweep,
    line: int,
    base: Seq<bool>,
    wall: int,
    track: bool,
)
    requires
        s.wf(),
        transparent.len() == s.width * s.height,
        tidy(s, sw),
        1 <= line <= wall,
        s.on_map(o, wall, wall),
        !transparent[diag_cell(s, o, wall)],
        same_up(s, o, sw.fov, base, wall),
        diag_dark(s, o, sw.fov, wall),
        track ==> sub_dark(s, o, sw.fov, wall),
        dark(transparent, base, up_cell(s, o, wall)) ==> up_dark(s, transparent, o, base, wall),
    ensures
        diag_dark(s, o, sweep(s, transparent, o, sw, line).fov, wall),
        track && dark(transparent, sweep(s, transparent, o, sw, line).fov, sub_cell(s, o, wall))
            ==> sub_dark(s, o, sweep(s, transparent, o, sw, line).fov, wall),
    decreases s.reach(o) - line + 1,
{
    if 1 <= line <= s.reach(o) {
        let fresh = Sweep {
            fov: sw.fov,
            min_angle: sw.min_angle,
            starts: sw.starts,
            ends: sw.ends,
            done: true,
        };
        let first = first_cell(sw.min_angle, line);
        let last = sw.starts.len() as int;
        let after = sweep_line(s, transparent, o, fresh, line, first, last);
        lemma_first_cell(sw.min_angle, line);
        let k = lemma_line_to_wall(
            s,
            transparent,
            o,
            fresh,
            line,
            first,
            last,
            base,
            wall,
            track,
        );
        if after.done || line >= s.reach(o) {
        } else if line < wall {
            lemma_sweep_to_wall(s, transparent, o, after, line + 1, base, wall, track);
        } else {
            // the line of the wall was swept and was not left done: it
            // began at or before the wall
            if first > wall {
                assert(after == fresh);
            }
            let followed = track && dark(transparent, after.fov, sub_cell(s, o, wall));
            lemma_sweep_past_wall(s, transparent, o, after, line + 1, base, wall, k, followed);
            if track && !followed {
                let c = sub_cell(s, o, wall);
                lemma_cell_fits(s, o, wall - 1, wall);
                lemma_sweep_lights_only(
                    s,
                    transparent,
                    o,
                    after,
                    line + 1,
                    s.x as int,
                    s.y as int,
                );
                assert(sweep(s, transparent, o, after, line + 1).fov[c]);
            }
        }
    }
}

/// The octant of the quadrant `(dx, dy)` that is swept first.
pub open spec fn first_of(dx: int, dy: int) -> Octant {
    Octant { swap: false, neg_x: dx < 0, neg_y: dy < 0 }
}

/// The octant of the quadrant `(dx, dy)` that is swept second. It shares
/// the quadrant's diagonal with the first.
pub open spec fn second_of(dx: int, dy: int) -> Octant {
    Octant { swap: true, neg_x: dx < 0, neg_y: dy < 0 }
}

/// What holds of the cells along a diagonal behind an opaque cell while the
/// octants are swept one after the other. The diagonal cells are dark
/// throughout. Until the first octant of the quadrant is swept, so are the
/// cells on both sides of them; once it is swept, the cells on its side of
/// the diagonal are dark if the one next to the opaque cell is.
pub open spec fn behind_wall(
    s: Setup,
    transparent: Seq<bool>,
    count: int,
    fov: Seq<bool>,
    dx: int,
    dy: int,
    wall: int,
) -> bool {
    let a = first_of(dx, dy);
    &&& fov.len() == s.width * s.height
    &&& diag_dark(s, a, fov, wall)
    &&& count <= octant_number(a) ==> up_dark(s, transparent, a, fov, wall) && sub_dark(
        s,
        a,
        fov,
        wall,
    )
    &&& count == octant_number(a) + 1 && dark(transparent, fov, sub_cell(s, a, wall))
        ==> sub_dark(s, a, fov, wall)
}

/// The sweep of an octant leaves a cell outside the octant as it was.
proof fn lemma_sweep_leaves(
    s: Setup,
    transparent: Seq<bool>,
    o: Octant,
    fov: Seq<bool>,
    a: Octant,
    across: int,
    line: int,
)
    requires
        s.wf(),
        fov.len() == s.width * s.height,
        s.on_map(a, across, line),
        !s.in_octant(o, s.cell_x(a, across, line), s.cell_y(a, across, line)),
    ensures
        sweep_octant(s, transparent, o, fov)[s.cell(a, across, line)]
            == fov[s.cell(a, across, line)],
        sweep_octant(s, transparent, o, fov).len() == fov.len(),
{
    let begin = Sweep {
        fov,
        min_angle: Slope { num: 0, den: 1 },
        starts: Seq::empty(),
        ends: Seq::empty(),
        done: false,
    };
    let cx = s.cell_x(a, across, line);
    let cy = s.cell_y(a, across, line);
    crate::lemma_cell_index_in_range(s.width as int, s.height as int, cx, cy);
    lemma_sweep_lights_only(s, transparent, o, begin, 1, cx, cy);
}

/// No octant puts a cell of a diagonal in the field of view that lies
/// behind an opaque cell of that diagonal.
proof fn lemma_octants_diagonal(
    s: Setup,
    transparent: Seq<bool>,
    count: int,
    fov: Seq<bool>,
    dx: int,
    dy: int,
    wall: int,
)
    requires
        s.wf(),
        transparent.len() == s.width * s.height,
        0 <= count <= 8,
        dx != 0,
        dy != 0,
        1 <= wall,
        s.on_map(first_of(dx, dy), wall, wall),
        !transparent[diag_cell(s, first_of(dx, dy), wall)],
        behind_wall(s, transparent, 0, fov, dx, dy, wall),
    ensures
        behind_wall(
            s,
            transparent,
            count,
            sweep_octants(s, transparent, count, fov),
            dx,
            dy,
            wall,
        ),
    decreases count,
{
    if count > 0 {
        lemma_octants_diagonal(s, transparent, count - 1, fov, dx, dy, wall);
        let a = first_of(dx, dy);
        let b = second_of(dx, dy);
        let before = sweep_octants(s, transparent, count - 1, fov);
        let o = nth_octant(count - 1);
        let after = sweep_octants(s, transparent, count, fov);
        let begin = Sweep {
            fov: before,
            min_angle: Slope { num: 0, den: 1 },
            starts: Seq::empty(),
            ends: Seq::empty(),
            done: false,
        };
        assert(after == sweep(s, transparent, o, begin, 1).fov);
        assert(tidy(s, begin));
        lemma_sweep_lights_only(s, transparent, o, begin, 1, s.x as int, s.y as int);
        assert(octant_number(o) == count - 1);
        if o == a {
            lemma_sweep_to_wall(s, transparent, a, begin, 1, before, wall, true);
        } else if o == b {
            // the cells behind the diagonal cells of the second octant are
            // the cells next to the diagonal cells of the first one
            assert(s.on_map(b, wall, wall));
            assert(diag_cell(s, b, wall) == diag_cell(s, a, wall));
            assert(up_cell(s, b, wall) == sub_cell(s, a, wall));
            assert forall|j: int| j > wall && s.on_map(b, j, j) implies !before[#[trigger] diag_cell(
                s,
                b,
                j,
            )] by {
                assert(s.on_map(a, j, j));
                assert(diag_cell(s, b, j) == diag_cell(s, a, j));
            }
            if dark(transparent, before, up_cell(s, b, wall)) {
                assert forall|j: int| j > wall && s.on_map(b, j, j) implies dark(
                    transparent,
                    before,
                    #[trigger] up_cell(s, b, j),
                ) by {
                    assert(s.on_map(a, j, j));
                    assert(up_cell(s, b, j) == sub_cell(s, a, j));
                }
            }
            lemma_sweep_to_wall(s, transparent, b, begin, 1, before, wall, false);
            assert forall|j: int| j > wall && s.on_map(a, j, j) implies !after[#[trigger] diag_cell(
                s,
                a,
                j,
            )] by {
                assert(s.on_map(b, j, j));
                assert(diag_cell(s, b, j) == diag_cell(s, a, j));
            }
        } else {
            // an octant that holds none of the cells along the diagonal
            assert forall|j: int| j > wall && s.on_map(a, j, j) implies !after[#[trigger] diag_cell(
                s,
                a,
                j,
            )] by {
                lemma_sweep_leaves(s, transparent, o, before, a, j, j);
            }
            if count <= octant_number(a) {
                assert forall|j: int| j > wall && s.on_map(a, j, j) implies dark(
                    transparent,
                    after,
                    #[trigger] up_cell(s, a, j),
                ) by {
                    lemma_sweep_leaves(s, transparent, o, before, a, j, j - 1);
                    assert(dark(transparent, before, up_cell(s, a, j)));
                }
                assert forall|j: int| j > wall && s.on_map(a, j, j) implies !after[#[trigger] sub_cell(
                    s,
                    a,
                    j,
                )] by {
                    lemma_sweep_leaves(s, transparent, o, before, a, j - 1, j);
                    assert(!before[sub_cell(s, a, j)]);
                }
            }
        }
    }
}

/// The restrictive algorithm does not see past an opaque cell along a
/// diagonal: when the cell `wall` steps from the observer in the diagonal
/// direction `(dx, dy)` is opaque, no cell farther in that direction is in
/// the field of view, whatever else the map holds.
pub proof fn lemma_restrictive_diagonal_occlusion(
    s: Setup,
    transparent: Seq<bool>,
    dx: int,
    dy: int,
    wall: int,
    far: int,
)
    requires
        s.wf(),
        transparent.len() == s.width * s.height,
        dx != 0,
        dy != 0,
        1 <= wall < far,
        0 <= ray(s.x as int, dx, far) < s.width,
        0 <= ray(s.y as int, dy, far) < s.height,
        !transparent[cell_index(
            s.width as int,
            ray(s.x as int, dx, wall),
            ray(s.y as int, dy, wall),
        )],
    ensures
        !restrictive(s, transparent)[cell_index(
            s.width as int,
            ray(s.x as int, dx, far),
            ray(s.y as int, dy, far),
        )],
{
    let a = first_of(dx, dy);
    let first = Seq::new(transparent.len(), |i: int| false).update(s.observer(), true);
    crate::lemma_cell_index_in_range(s.width as int, s.height as int, s.x as int, s.y as int);
    assert(s.on_map(a, 0, 0) && s.cell(a, 0, 0) == s.observer());
    assert(s.on_map(a, far, far));
    assert(s.on_map(a, wall, wall));
    assert(diag_cell(s, a, far) == cell_index(
        s.width as int,
        ray(s.x as int, dx, far),
        ray(s.y as int, dy, far),
    ));
    assert(diag_cell(s, a, wall) == cell_index(
        s.width as int,
        ray(s.x as int, dx, wall),
        ray(s.y as int, dy, wall),
    ));
    assert forall|j: int| j > wall && s.on_map(a, j, j) implies !first[#[trigger] diag_cell(
        s,
        a,
        j,
    )] by {
        lemma_cells_differ(s, a, 0, 0, j, j);
    }
    assert forall|j: int| j > wall && s.on_map(a, j, j) implies dark(
        transparent,
        first,
        #[trigger] up_cell(s, a, j),
    ) by {
        lemma_cells_differ(s, a, 0, 0, j, j - 1);
    }
    assert forall|j: int| j > wall && s.on_map(a, j, j) implies !first[#[trigger] sub_cell(
        s,
        a,
        j,
    )] by {
        lemma_cells_differ(s, a, 0, 0, j - 1, j);
    }
    lemma_octants_diagonal(s, transparent, 8, first, dx, dy, wall);
    let seen = sweep_octants(s, transparent, 8, first);
    assert(!seen[diag_cell(s, a, far)]);
}

} // verus!
