use crate::geometry::{
    lemma_cell_fits, lemma_fits_product, nth_octant, setup_of, Octant, Setup,
};
use crate::restrictive_proofs::lemma_restrictive_lights_only;
use crate::slope::{line_slope, slope_le, slope_lt, slope_max, slope_min, Ratio, Slope};
use crate::{FovAlgorithm, MapData};
use vstd::prelude::*;

verus! {

/// Restrictive precise angle shadowcasting (MRPAS).
///
/// Each octant is swept line by line, away from the observer. In line `n`
/// every cell takes up a slope range of `1 / n`. The sweep keeps the slope
/// below which everything is blocked, and the slope ranges of the obstacles
/// met so far. A cell is visible unless it is already dark behind its
/// neighbours or the obstacles of the lines before hide it. A visible cell
/// is put in the field of view when it is within the radius (by Euclidean
/// distance) and is transparent or `light_walls` is set; a visible opaque
/// cell becomes an obstacle for the lines after it.
pub struct FovRestrictive {}

/// What a sweep keeps besides the field of view, in machine form.
struct Scratch {
    min_angle: Ratio,
    start_angle: Vec<Ratio>,
    end_angle: Vec<Ratio>,
    done: bool,
}

/// What the sweep of one octant carries from cell to cell.
pub struct Sweep {
    /// the field of view so far
    pub fov: Seq<bool>,
    /// cells whose slope range lies below this slope are passed over
    pub min_angle: Slope,
    /// the lower ends of the obstacles' slope ranges
    pub starts: Seq<Slope>,
    /// the upper ends of the obstacles' slope ranges
    pub ends: Seq<Slope>,
    /// no cell of the line was visible, or the line's last cell closed it
    pub done: bool,
}

/// What the obstacles say of one cell.
pub struct Probe {
    pub starts: Seq<Slope>,
    pub ends: Seq<Slope>,
    /// no obstacle hides the cell
    pub visible: bool,
    /// the cell is opaque and widened an obstacle
    pub extended: bool,
}

/// Holds a cell with the slope range `[lo, hi]` and the centre `centre`
/// against the obstacles `idx..last`. A transparent cell is hidden by an
/// obstacle that holds its centre strictly inside; an opaque cell is hidden
/// by an obstacle that holds its whole range, and widens every other
/// obstacle that its range meets.
pub open spec fn probe(
    pr: Probe,
    idx: int,
    last: int,
    clear: bool,
    centre: Slope,
    lo: Slope,
    hi: Slope,
) -> Probe
    decreases last - idx,
{
    if idx < 0 || idx >= last || !pr.visible {
        pr
    } else {
        let st = pr.starts[idx];
        let en = pr.ends[idx];
        if slope_lt(hi, st) || slope_lt(en, lo) {
            probe(pr, idx + 1, last, clear, centre, lo, hi)
        } else if clear {
            if slope_lt(st, centre) && slope_lt(centre, en) {
                Probe { starts: pr.starts, ends: pr.ends, visible: false, extended: pr.extended }
            } else {
                probe(pr, idx + 1, last, clear, centre, lo, hi)
            }
        } else if slope_le(st, lo) && slope_le(hi, en) {
            Probe { starts: pr.starts, ends: pr.ends, visible: false, extended: pr.extended }
        } else {
            probe(
                Probe {
                    starts: pr.starts.update(idx, slope_min(st, lo)),
                    ends: pr.ends.update(idx, slope_max(en, hi)),
                    visible: true,
                    extended: true,
                },
                idx + 1,
                last,
                clear,
                centre,
                lo,
                hi,
            )
        }
    }
}

/// Whether the two neighbours of the cell `(across, line)` on the
/// observer's side, the one straight behind it and the one diagonally
/// behind it towards the axis, are both dark: out of the field of view or
/// opaque. A diagonal neighbour off the map is not dark.
pub open spec fn walled_in(
    s: Setup,
    transparent: Seq<bool>,
    o: Octant,
    fov: Seq<bool>,
    line: int,
    across: int,
) -> bool {
    let behind = s.cell(o, across, line - 1);
    let diagonal = s.cell(o, across - 1, line - 1);
    &&& !fov[behind] || !transparent[behind]
    &&& s.on_map(o, across - 1, line - 1)
    &&& !fov[diagonal] || !transparent[diagonal]
}

/// The sweep after the cell `(across, line)`. `last` is the number of
/// obstacles that the lines before have left.
pub open spec fn sweep_cell(
    s: Setup,
    transparent: Seq<bool>,
    o: Octant,
    sw: Sweep,
    line: int,
    across: int,
    last: int,
) -> Sweep {
    let c = s.cell(o, across, line);
    let clear = transparent[c];
    let lo = line_slope(2 * across - 1, line);
    let centre = line_slope(2 * across, line);
    let hi = line_slope(2 * across + 1, line);
    let open = Probe { starts: sw.starts, ends: sw.ends, visible: true, extended: false };
    let pr = if last > 0 && !sw.fov[c] {
        if walled_in(s, transparent, o, sw.fov, line, across) {
            Probe { starts: sw.starts, ends: sw.ends, visible: false, extended: false }
        } else {
            probe(open, 0, last, clear, centre, lo, hi)
        }
    } else {
        open
    };
    if !pr.visible {
        Sweep {
            fov: sw.fov,
            min_angle: sw.min_angle,
            starts: pr.starts,
            ends: pr.ends,
            done: sw.done,
        }
    } else {
        let fov = if s.in_radius(across, line) && (s.light_walls || clear) {
            sw.fov.update(c, true)
        } else {
            sw.fov
        };
        if clear {
            Sweep { fov, min_angle: sw.min_angle, starts: pr.starts, ends: pr.ends, done: false }
        } else if slope_le(lo, sw.min_angle) {
            Sweep { fov, min_angle: hi, starts: pr.starts, ends: pr.ends, done: across == line }
        } else if !pr.extended {
            Sweep {
                fov,
                min_angle: sw.min_angle,
                starts: pr.starts.push(lo),
                ends: pr.ends.push(hi),
                done: false,
            }
        } else {
            Sweep { fov, min_angle: sw.min_angle, starts: pr.starts, ends: pr.ends, done: false }
        }
    }
}

/// The sweep after the cells `across..=line` of a line, as far as they lie
/// on the map.
pub open spec fn sweep_line(
    s: Setup,
    transparent: Seq<bool>,
    o: Octant,
    sw: Sweep,
    line: int,
    across: int,
    last: int,
) -> Sweep
    decreases line - across + 1,
{
    if across < 0 || across > line || !s.on_map(o, across, line) {
        sw
    } else {
        sweep_line(
            s,
            transparent,
            o,
            sweep_cell(s, transparent, o, sw, line, across, last),
            line,
            across + 1,
            last,
        )
    }
}

/// The first cell of a line that is not wholly below `min_angle`: the
/// largest `p` with `p <= min_angle * line + 1/2`.
pub open spec fn first_cell(min_angle: Slope, line: int) -> int {
    (2 * min_angle.num * line + min_angle.den) / (2 * min_angle.den)
}

/// The sweep after the lines `line..=reach` of the octant. It ends early
/// after a line that is done.
pub open spec fn sweep(s: Setup, transparent: Seq<bool>, o: Octant, sw: Sweep, line: int) -> Sweep
    decreases s.reach(o) - line + 1,
{
    if !(1 <= line <= s.reach(o)) {
        sw
    } else {
        let fresh = Sweep {
            fov: sw.fov,
            min_angle: sw.min_angle,
            starts: sw.starts,
            ends: sw.ends,
            done: true,
        };
        let after = sweep_line(
            s,
            transparent,
            o,
            fresh,
            line,
            first_cell(sw.min_angle, line),
            sw.starts.len() as int,
        );
        if after.done || line >= s.reach(o) {
            after
        } else {
            sweep(s, transparent, o, after, line + 1)
        }
    }
}

/// The field of view after the sweep of the whole octant `o`.
pub open spec fn sweep_octant(s: Setup, transparent: Seq<bool>, o: Octant, fov: Seq<bool>) -> Seq<
    bool,
> {
    sweep(
        s,
        transparent,
        o,
        Sweep {
            fov,
            min_angle: Slope { num: 0, den: 1 },
            starts: Seq::empty(),
            ends: Seq::empty(),
            done: false,
        },
        1,
    ).fov
}

/// The field of view after the first `count` octants were swept.
pub open spec fn sweep_octants(s: Setup, transparent: Seq<bool>, count: int, fov: Seq<bool>) -> Seq<
    bool,
>
    decreases count,
{
    if count <= 0 {
        fov
    } else {
        sweep_octant(
            s,
            transparent,
            nth_octant(count - 1),
            sweep_octants(s, transparent, count - 1, fov),
        )
    }
}

/// The field of view that the restrictive algorithm computes: the observer's
/// own cell, and what the sweeps of the eight octants add to it.
pub open spec fn restrictive(s: Setup, transparent: Seq<bool>) -> Seq<bool> {
    sweep_octants(
        s,
        transparent,
        8,
        Seq::new(transparent.len(), |i: int| false).update(s.observer(), true),
    )
}

/// The slopes that a vector of machine rationals stands for.
spec fn slopes(v: Seq<Ratio>) -> Seq<Slope> {
    Seq::new(v.len(), |k: int| v[k]@)
}

impl FovRestrictive {
    pub fn new() -> (fov: Self)
        ensures
            fov == (FovRestrictive {}),
    {
        Self {}
    }
}

impl Scratch {
    fn new() -> (scratch: Self)
        ensures
            scratch.min_angle@ == (Slope { num: 0, den: 1 }),
            scratch.start_angle@ == Seq::<Ratio>::empty(),
            scratch.end_angle@ == Seq::<Ratio>::empty(),
            !scratch.done,
    {
        // the state in which the sweep of an octant begins: nothing is
        // blocked and there are no obstacles
        Self {
            min_angle: Ratio { num: 0, den: 1 },
            start_angle: Vec::new(),
            end_angle: Vec::new(),
            done: false,
        }
    }

    /// The sweep that the scratch state and a field of view stand for.
    spec fn state(&self, fov: Seq<bool>) -> Sweep {
        Sweep {
            fov,
            min_angle: self.min_angle@,
            starts: slopes(self.start_angle@),
            ends: slopes(self.end_angle@),
            done: self.done,
        }
    }

    /// Every slope of the scratch state fits the map.
    spec fn sound(&self, s: Setup, o: Octant) -> bool {
        &&& s.fits(o, self.min_angle@)
        &&& 0 <= self.min_angle.num
        &&& self.start_angle@.len() == self.end_angle@.len()
        &&& forall|k: int|
            0 <= k < self.start_angle@.len() ==> s.fits(o, (#[trigger] self.start_angle@[k])@)
        &&& forall|k: int|
            0 <= k < self.end_angle@.len() ==> s.fits(o, (#[trigger] self.end_angle@[k])@)
    }

    /// Holds a cell against the first `last` obstacles. Returns whether
    /// the cell is visible and whether it widened an obstacle.
    fn probe_obstacles(
        &mut self,
        s: Setup,
        last: usize,
        clear: bool,
        centre: Ratio,
        lo: Ratio,
        hi: Ratio,
        Ghost(o): Ghost<Octant>,
    ) -> (found: (bool, bool))
        requires
            s.wf(),
            old(self).sound(s, o),
            last <= old(self).start_angle@.len(),
            s.fits(o, centre@),
            s.fits(o, lo@),
            s.fits(o, hi@),
        ensures
            final(self).sound(s, o),
            final(self).min_angle == old(self).min_angle,
            final(self).done == old(self).done,
            final(self).start_angle@.len() == old(self).start_angle@.len(),
            ({
                let pr = probe(
                    Probe {
                        starts: slopes(old(self).start_angle@),
                        ends: slopes(old(self).end_angle@),
                        visible: true,
                        extended: false,
                    },
                    0,
                    last as int,
                    clear,
                    centre@,
                    lo@,
                    hi@,
                );
                &&& slopes(final(self).start_angle@) == pr.starts
                &&& slopes(final(self).end_angle@) == pr.ends
                &&& found.0 == pr.visible
                &&& found.1 == pr.extended
            }),
    {
        let ghost goal = probe(
            Probe {
                starts: slopes(self.start_angle@),
                ends: slopes(self.end_angle@),
                visible: true,
                extended: false,
            },
            0,
            last as int,
            clear,
            centre@,
            lo@,
            hi@,
        );
        let mut idx: usize = 0;
        let mut visible: bool = true;
        let mut extended: bool = false;
        while visible && idx < last
            invariant
                s.wf(),
                self.sound(s, o),
                self.min_angle == old(self).min_angle,
                self.done == old(self).done,
                self.start_angle@.len() == old(self).start_angle@.len(),
                idx <= last <= self.start_angle@.len(),
                s.fits(o, centre@),
                s.fits(o, lo@),
                s.fits(o, hi@),
                probe(
                    Probe {
                        starts: slopes(self.start_angle@),
                        ends: slopes(self.end_angle@),
                        visible,
                        extended,
                    },
                    idx as int,
                    last as int,
                    clear,
                    centre@,
                    lo@,
                    hi@,
                ) == goal,
            decreases last - idx,
        {
            let st: Ratio = self.start_angle[idx];
            let en: Ratio = self.end_angle[idx];
            let ghost before_starts = slopes(self.start_angle@);
            let ghost before_ends = slopes(self.end_angle@);
            assert(before_starts[idx as int] == st@);
            assert(before_ends[idx as int] == en@);
            if s.less(hi, st, Ghost(o)) || s.less(en, lo, Ghost(o)) {
            } else if clear {
                if s.less(st, centre, Ghost(o)) && s.less(centre, en, Ghost(o)) {
                    visible = false;
                }
            } else if s.at_most(st, lo, Ghost(o)) && s.at_most(hi, en, Ghost(o)) {
                visible = false;
            } else {
                let low: Ratio = if s.less(lo, st, Ghost(o)) { lo } else { st };
                let high: Ratio = if s.less(en, hi, Ghost(o)) { hi } else { en };
                self.start_angle[idx] = low;
                self.end_angle[idx] = high;
                extended = true;
                assert(slopes(self.start_angle@) =~= before_starts.update(idx as int, low@));
                assert(slopes(self.end_angle@) =~= before_ends.update(idx as int, high@));
            }
            idx += 1;
        }
        (visible, extended)
    }

    /// The machine form of `walled_in`.
    fn is_walled_in(
        s: Setup,
        o: Octant,
        transparent: &Vec<bool>,
        fov: &Vec<bool>,
        line: usize,
        across: usize,
    ) -> (dark: bool)
        requires
            s.wf(),
            transparent@.len() == s.width * s.height,
            fov@.len() == s.width * s.height,
            1 <= line,
            s.on_map(o, across as int, line as int),
        ensures
            dark == walled_in(s, transparent@, o, fov@, line as int, across as int),
    {
        proof {
            lemma_cell_fits(s, o, across as int, line as int);
        }
        let behind_dark: bool = match s.locate(o, across, line - 1) {
            Some(b) => !fov[b] || !transparent[b],
            // the cell behind a cell of the map is on the map
            None => true,
        };
        if !behind_dark {
            return false;
        }
        let diagonal: Option<usize> = if across >= 1 {
            s.locate(o, across - 1, line - 1)
        } else {
            s.locate(o.mirrored(), 1, line - 1)
        };
        match diagonal {
            Some(d) => !fov[d] || !transparent[d],
            None => false,
        }
    }

    /// Looks at the cell `(across, line)`, which lies at index `c`.
    fn visit(
        &mut self,
        s: Setup,
        o: Octant,
        transparent: &Vec<bool>,
        fov: &mut Vec<bool>,
        line: usize,
        across: usize,
        c: usize,
        last: usize,
    )
        requires
            s.wf(),
            old(self).sound(s, o),
            transparent@.len() == s.width * s.height,
            old(fov)@.len() == s.width * s.height,
            1 <= line <= s.reach(o),
            across <= line,
            s.on_map(o, across as int, line as int),
            c == s.cell(o, across as int, line as int),
            last <= old(self).start_angle@.len(),
        ensures
            final(self).sound(s, o),
            final(fov)@.len() == old(fov)@.len(),
            final(self).start_angle@.len() >= old(self).start_angle@.len(),
            final(self).state(final(fov)@) == sweep_cell(
                s,
                transparent@,
                o,
                old(self).state(old(fov)@),
                line as int,
                across as int,
                last as int,
            ),
    {
        proof {
            lemma_cell_fits(s, o, across as int, line as int);
        }
        let ghost goal = sweep_cell(
            s,
            transparent@,
            o,
            self.state(fov@),
            line as int,
            across as int,
            last as int,
        );
        let clear: bool = transparent[c];
        let lo: Ratio = Ratio::of_line(across, -1, line);
        let centre: Ratio = Ratio::of_line(across, 0, line);
        let hi: Ratio = Ratio::of_line(across, 1, line);
        let mut visible: bool = true;
        let mut extended: bool = false;
        if last > 0 && !fov[c] {
            if Self::is_walled_in(s, o, transparent, fov, line, across) {
                visible = false;
            } else {
                let found = self.probe_obstacles(s, last, clear, centre, lo, hi, Ghost(o));
                visible = found.0;
                extended = found.1;
            }
        }
        if visible {
            if s.within_radius(across, line) && (s.light_walls || clear) {
                fov[c] = true;
            }
            self.done = false;
            if !clear {
                if s.at_most(lo, self.min_angle, Ghost(o)) {
                    self.min_angle = hi;
                    if across == line {
                        self.done = true;
                    }
                } else if !extended {
                    let ghost before_starts = slopes(self.start_angle@);
                    let ghost before_ends = slopes(self.end_angle@);
                    self.start_angle.push(lo);
                    self.end_angle.push(hi);
                    assert(slopes(self.start_angle@) =~= before_starts.push(lo@));
                    assert(slopes(self.end_angle@) =~= before_ends.push(hi@));
                }
            }
        }
        assert(self.state(fov@).starts =~= goal.starts);
        assert(self.state(fov@).ends =~= goal.ends);
    }

    /// Sweeps the octant `o` into `fov`.
    fn compute_octant(
        &mut self,
        s: Setup,
        o: Octant,
        transparent: &Vec<bool>,
        fov: &mut Vec<bool>,
    )
        requires
            s.wf(),
            transparent@.len() == s.width * s.height,
            old(fov)@.len() == s.width * s.height,
        ensures
            final(fov)@.len() == old(fov)@.len(),
            final(fov)@ == sweep_octant(s, transparent@, o, old(fov)@),
    {
        self.start_angle.clear();
        self.end_angle.clear();
        self.min_angle = Ratio { num: 0, den: 1 };
        self.done = false;
        assert(slopes(self.start_angle@) =~= Seq::<Slope>::empty());
        assert(slopes(self.end_angle@) =~= Seq::<Slope>::empty());
        let reach: usize = s.last_row(o);
        let ghost goal = sweep(s, transparent@, o, self.state(fov@), 1);
        if reach < 1 {
            return ;
        }
        let mut line: usize = 1;
        loop
            invariant_except_break
                sweep(s, transparent@, o, self.state(fov@), line as int) == goal,
            invariant
                s.wf(),
                self.sound(s, o),
                reach == s.reach(o),
                transparent@.len() == s.width * s.height,
                fov@.len() == s.width * s.height,
                1 <= line <= reach,
            ensures
                fov@.len() == s.width * s.height,
                self.state(fov@) == goal,
            decreases reach - line,
        {
            let last: usize = self.start_angle.len();
            proof {
                lemma_fits_product(
                    s,
                    o,
                    self.min_angle@,
                    Slope { num: 0, den: line as int },
                );
            }
            let first: i128 = (2 * (self.min_angle.num * (line as i128)) + self.min_angle.den) / (2
                * self.min_angle.den);
            assert(first == first_cell(self.min_angle@, line as int)) by {
                assert(2 * (self.min_angle.num * line) == 2 * self.min_angle.num * line)
                    by (nonlinear_arith);
            }
            self.done = true;
            let ghost after = sweep_line(
                s,
                transparent@,
                o,
                self.state(fov@),
                line as int,
                first as int,
                last as int,
            );
            if first <= line as i128 {
                let mut across: usize = first as usize;
                loop
                    invariant
                        s.wf(),
                        self.sound(s, o),
                        reach == s.reach(o),
                        transparent@.len() == s.width * s.height,
                        fov@.len() == s.width * s.height,
                        1 <= line <= reach,
                        across <= line + 1,
                        last <= self.start_angle@.len(),
                        sweep_line(
                            s,
                            transparent@,
                            o,
                            self.state(fov@),
                            line as int,
                            across as int,
                            last as int,
                        ) == after,
                    ensures
                        self.sound(s, o),
                        fov@.len() == s.width * s.height,
                        self.state(fov@) == after,
                    decreases line + 1 - across,
                {
                    if across > line {
                        break ;
                    }
                    match s.locate(o, across, line) {
                        None => {
                            break ;
                        },
                        Some(c) => {
                            self.visit(s, o, transparent, fov, line, across, c, last);
                            across += 1;
                        },
                    }
                }
            }
            if self.done || line >= reach {
                break ;
            }
            line += 1;
        }
    }
}

impl FovAlgorithm for FovRestrictive {
    /// The observer must stand on the map.
    open spec fn accepts(&self, map: &MapData, x: usize, y: usize) -> bool {
        x < map.width && y < map.height
    }

    /// What `restrictive` gives for the map's size and transparency. The
    /// field of view that the map held before plays no part.
    open spec fn field_of_view(
        &self,
        map: &MapData,
        x: usize,
        y: usize,
        max_radius: usize,
        light_walls: bool,
    ) -> Seq<bool> {
        restrictive(setup_of(map, x, y, max_radius, light_walls), map.transparent@)
    }

    /// Replaces the map's field of view by what the observer at `(x, y)`
    /// sees. The observer's own cell is always in it; any other cell only
    /// if it is within the radius and is transparent or `light_walls` is set.
    fn compute_fov(
        &mut self,
        map: &mut MapData,
        x: usize,
        y: usize,
        max_radius: usize,
        light_walls: bool,
    )
        ensures
            final(map).fov@[old(map).index_of(x as int, y as int)],
            forall|cx: int, cy: int|
                #![trigger old(map).index_of(cx, cy)]
                old(map).in_bounds(cx, cy) && (cx != x || cy != y) && final(map).fov@[old(
                    map,
                ).index_of(cx, cy)] ==> setup_of(old(map), x, y, max_radius, light_walls).near(
                    cx,
                    cy,
                ) && (light_walls || old(map).transparent@[old(map).index_of(cx, cy)]),
    {
        proof {
            map.lemma_index_fits(x as int, y as int);
        }
        map.clear_fov();
        map.fov[x + y * map.width] = true;
        let s = Setup { width: map.width, height: map.height, x, y, max_radius, light_walls };
        let ghost first = map.fov@;
        let mut scratch = Scratch::new();
        let mut k: usize = 0;
        while k < 8
            invariant
                k <= 8,
                s.wf(),
                s == setup_of(old(map), x, y, max_radius, light_walls),
                map.wf(),
                map.width == old(map).width,
                map.height == old(map).height,
                map.transparent@ == old(map).transparent@,
                first == Seq::new(map.transparent@.len(), |i: int| false).update(
                    s.observer(),
                    true,
                ),
                map.fov@ == sweep_octants(s, map.transparent@, k as int, first),
            decreases 8 - k,
        {
            let o = Octant::nth(k);
            scratch.compute_octant(s, o, &map.transparent, &mut map.fov);
            k += 1;
        }
        proof {
            lemma_restrictive_lights_only(s, map.transparent@, x as int, y as int);
            assert forall|cx: int, cy: int|
                #![trigger old(map).index_of(cx, cy)]
                old(map).in_bounds(cx, cy) && (cx != x || cy != y) && map.fov@[old(map).index_of(
                    cx,
                    cy,
                )] implies s.near(cx, cy) && (light_walls || old(map).transparent@[old(
                map,
            ).index_of(cx, cy)]) by {
                lemma_restrictive_lights_only(s, map.transparent@, cx, cy);
            }
        }
    }
}

} // verus!
