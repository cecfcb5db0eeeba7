//! The map as the algorithms see it: eight octants around the observer,
//! each a triangle of rows that lead away from the observer.
use crate::slope::{
    line_slope, lower_slope, slope_le, slope_lt, upper_slope, Ratio, Slope,
};
use crate::{cell_index, lemma_cell_index_in_range, lemma_cell_index_injective, MapData};
use vstd::prelude::*;

verus! {

/// One of the eight sectors around the observer. Inside an octant a cell is
/// named by its row `along` the octant's axis (1, 2, ...) and its column
/// `across`, counted from the axis (0) to the diagonal (`along`).
#[derive(Clone, Copy)]
pub struct Octant {
    /// the axis runs along x rather than along y
    pub swap: bool,
    /// the octant lies on the side of decreasing x
    pub neg_x: bool,
    /// the octant lies on the side of decreasing y
    pub neg_y: bool,
}

/// The octants in the order in which the algorithms visit them.
pub open spec fn nth_octant(k: int) -> Octant {
    Octant { swap: k % 2 == 1, neg_x: k >= 4, neg_y: (k / 2) % 2 == 1 }
}

/// The octant on the other side of `o`'s axis.
pub open spec fn across_axis(o: Octant) -> Octant {
    if o.swap {
        Octant { swap: o.swap, neg_x: o.neg_x, neg_y: !o.neg_y }
    } else {
        Octant { swap: o.swap, neg_x: !o.neg_x, neg_y: o.neg_y }
    }
}

impl Octant {
    /// The machine form of `nth_octant`.
    pub(crate) fn nth(k: usize) -> (o: Octant)
        requires
            k < 8,
        ensures
            o == nth_octant(k as int),
    {
        Octant { swap: k % 2 == 1, neg_x: k >= 4, neg_y: (k / 2) % 2 == 1 }
    }

    /// The machine form of `across_axis`.
    pub(crate) fn mirrored(self) -> (m: Octant)
        ensures
            m == across_axis(self),
    {
        if self.swap {
            Octant { swap: self.swap, neg_x: self.neg_x, neg_y: !self.neg_y }
        } else {
            Octant { swap: self.swap, neg_x: !self.neg_x, neg_y: self.neg_y }
        }
    }
}

/// The coordinate reached from `from` after `steps` steps in the direction
/// `dir`: towards larger values when `dir` is positive, towards smaller
/// ones when it is negative, and not at all when it is 0.
pub open spec fn ray(from: int, dir: int, steps: int) -> int {
    if dir > 0 {
        from + steps
    } else if dir < 0 {
        from - steps
    } else {
        from
    }
}

/// `more` holds every flag that `fewer` holds.
pub open spec fn covers(more: Seq<bool>, fewer: Seq<bool>) -> bool {
    &&& more.len() == fewer.len()
    &&& forall|i: int| 0 <= i < fewer.len() && fewer[i] ==> #[trigger] more[i]
}

/// The inputs of one field-of-view computation, apart from the
/// transparency flags.
#[derive(Clone, Copy)]
pub struct Setup {
    /// width of the map in cells
    pub width: usize,
    /// height of the map in cells
    pub height: usize,
    /// the observer's column
    pub x: usize,
    /// the observer's row
    pub y: usize,
    /// max distance in cells where the observer can see. 0 = infinite
    pub max_radius: usize,
    /// whether opaque cells that the observer sees are in the field of view
    pub light_walls: bool,
}

/// The setup of a computation on `map`.
pub open spec fn setup_of(
    map: &MapData,
    x: usize,
    y: usize,
    max_radius: usize,
    light_walls: bool,
) -> Setup {
    Setup { width: map.width, height: map.height, x, y, max_radius, light_walls }
}

impl Setup {
    /// The observer stands on the map and the map's cells can be indexed.
    pub open spec fn wf(self) -> bool {
        &&& self.x < self.width
        &&& self.y < self.height
        &&& self.width * self.height <= usize::MAX
    }

    /// The same setup with another radius.
    pub open spec fn with_radius(self, max_radius: usize) -> Setup {
        Setup {
            width: self.width,
            height: self.height,
            x: self.x,
            y: self.y,
            max_radius,
            light_walls: self.light_walls,
        }
    }

    /// The index of the observer's cell.
    pub open spec fn observer(self) -> int {
        cell_index(self.width as int, self.x as int, self.y as int)
    }

    /// Whether the map cell `(cx, cy)` is within the radius of the
    /// observer: the squared Euclidean distance is compared with the squared
    /// radius, and with the radius 0 every cell is near.
    pub open spec fn near(self, cx: int, cy: int) -> bool {
        self.max_radius == 0 || (cx - self.x) * (cx - self.x) + (cy - self.y) * (cy - self.y)
            <= self.max_radius * self.max_radius
    }

    /// `near`, for a cell `across` columns and `along` rows away from the
    /// observer.
    pub open spec fn in_radius(self, across: int, along: int) -> bool {
        self.max_radius == 0 || across * across + along * along <= self.max_radius
            * self.max_radius
    }

    /// The map column of the octant's cell `(across, along)`.
    pub open spec fn cell_x(self, o: Octant, across: int, along: int) -> int {
        let d = if o.swap { along } else { across };
        if o.neg_x { self.x - d } else { self.x + d }
    }

    /// The map row of the octant's cell `(across, along)`.
    pub open spec fn cell_y(self, o: Octant, across: int, along: int) -> int {
        let d = if o.swap { across } else { along };
        if o.neg_y { self.y - d } else { self.y + d }
    }

    /// Whether the octant's cell `(across, along)` lies on the map.
    pub open spec fn on_map(self, o: Octant, across: int, along: int) -> bool {
        &&& 0 <= self.cell_x(o, across, along) < self.width
        &&& 0 <= self.cell_y(o, across, along) < self.height
    }

    /// The index of the octant's cell `(across, along)` in the map's vectors.
    pub open spec fn cell(self, o: Octant, across: int, along: int) -> int {
        cell_index(self.width as int, self.cell_x(o, across, along), self.cell_y(o, across, along))
    }

    /// The row of octant `o` in which the map cell `(cx, cy)` lies.
    pub open spec fn along_of(self, o: Octant, cx: int, cy: int) -> int {
        if o.swap {
            if o.neg_x { self.x - cx } else { cx - self.x }
        } else {
            if o.neg_y { self.y - cy } else { cy - self.y }
        }
    }

    /// The column of octant `o` in which the map cell `(cx, cy)` lies.
    pub open spec fn across_of(self, o: Octant, cx: int, cy: int) -> int {
        if o.swap {
            if o.neg_y { self.y - cy } else { cy - self.y }
        } else {
            if o.neg_x { self.x - cx } else { cx - self.x }
        }
    }

    /// Whether the map cell `(cx, cy)` is one of the cells of octant `o`:
    /// in a row in front of the observer, between the axis and the diagonal.
    pub open spec fn in_octant(self, o: Octant, cx: int, cy: int) -> bool {
        &&& 1 <= self.along_of(o, cx, cy)
        &&& 0 <= self.across_of(o, cx, cy) <= self.along_of(o, cx, cy)
    }

    /// The number of map rows in front of the observer along the octant's axis.
    pub open spec fn depth(self, o: Octant) -> int {
        if o.swap {
            if o.neg_x { self.x as int } else { self.width - 1 - self.x }
        } else {
            if o.neg_y { self.y as int } else { self.height - 1 - self.y }
        }
    }

    /// The last row that an octant's scan visits: the map's edge or the
    /// radius, whichever comes first.
    pub open spec fn reach(self, o: Octant) -> int {
        if self.max_radius == 0 || self.max_radius > self.depth(o) {
            self.depth(o)
        } else {
            self.max_radius as int
        }
    }

    /// The map's extent in the direction across the octant's axis.
    pub open spec fn span_across(self, o: Octant) -> int {
        if o.swap { self.height as int } else { self.width as int }
    }

    /// The map's extent in the direction of the octant's axis.
    pub open spec fn span_along(self, o: Octant) -> int {
        if o.swap { self.width as int } else { self.height as int }
    }

    /// A slope whose numerator and denominator come from a cell of the map
    /// in octant `o`: products of two such slopes' parts fit machine integers.
    pub open spec fn fits(self, o: Octant, r: Slope) -> bool {
        &&& -1 <= r.num <= 2 * self.span_across(o) + 1
        &&& 1 <= r.den <= 2 * self.span_along(o) + 1
    }

    /// Moves `d` cells from `from` towards 0 or towards `limit`; `None`
    /// when that leaves `0..limit`.
    fn step(from: usize, d: usize, down: bool, limit: usize) -> (to: Option<usize>)
        requires
            from < limit,
        ensures
            match to {
                Some(v) => v == (if down { from - d } else { from + d }) && 0 <= v < limit,
                None => !(0 <= (if down { from - d } else { from + d }) < limit),
            },
    {
        if down {
            if d > from {
                None
            } else {
                Some(from - d)
            }
        } else {
            if d >= limit - from {
                None
            } else {
                Some(from + d)
            }
        }
    }

    /// The index of the octant's cell `(across, along)`, or `None` when the
    /// cell is off the map.
    pub(crate) fn locate(&self, o: Octant, across: usize, along: usize) -> (at: Option<usize>)
        requires
            self.wf(),
        ensures
            match at {
                Some(c) => self.on_map(o, across as int, along as int) && c == self.cell(
                    o,
                    across as int,
                    along as int,
                ) && c < self.width * self.height,
                None => !self.on_map(o, across as int, along as int),
            },
    {
        let dx: usize = if o.swap { along } else { across };
        let dy: usize = if o.swap { across } else { along };
        match Self::step(self.x, dx, o.neg_x, self.width) {
            None => None,
            Some(cx) => match Self::step(self.y, dy, o.neg_y, self.height) {
                None => None,
                Some(cy) => {
                    proof {
                        lemma_cell_index_in_range(
                            self.width as int,
                            self.height as int,
                            cx as int,
                            cy as int,
                        );
                    }
                    Some(cx + cy * self.width)
                },
            },
        }
    }

    /// The machine form of `reach`.
    pub(crate) fn last_row(&self, o: Octant) -> (rows: usize)
        requires
            self.wf(),
        ensures
            rows == self.reach(o),
    {
        let depth: usize = if o.swap {
            if o.neg_x {
                self.x
            } else {
                self.width - 1 - self.x
            }
        } else {
            if o.neg_y {
                self.y
            } else {
                self.height - 1 - self.y
            }
        };
        if self.max_radius == 0 || self.max_radius > depth {
            depth
        } else {
            self.max_radius
        }
    }

    /// The machine form of `in_radius`, for a cell of a row that the scan
    /// visits.
    pub(crate) fn within_radius(&self, across: usize, along: usize) -> (inside: bool)
        requires
            self.max_radius == 0 || along <= self.max_radius,
        ensures
            inside == self.in_radius(across as int, along as int),
    {
        if self.max_radius == 0 {
            true
        } else {
            let r: u128 = self.max_radius as u128;
            let a: u128 = across as u128;
            let j: u128 = along as u128;
            assert(r * r <= 0xffff_ffff_ffff_ffff * 0xffff_ffff_ffff_ffff) by (nonlinear_arith)
                requires
                    0 <= r <= 0xffff_ffff_ffff_ffff,
            ;
            assert(a * a <= 0xffff_ffff_ffff_ffff * 0xffff_ffff_ffff_ffff) by (nonlinear_arith)
                requires
                    0 <= a <= 0xffff_ffff_ffff_ffff,
            ;
            assert(j * j <= r * r) by (nonlinear_arith)
                requires
                    0 <= j <= r,
            ;
            a * a <= r * r - j * j
        }
    }

    /// `p < q`, computed by cross-multiplication.
    pub(crate) fn less(&self, p: Ratio, q: Ratio, Ghost(o): Ghost<Octant>) -> (less: bool)
        requires
            self.wf(),
            self.fits(o, p@),
            self.fits(o, q@),
        ensures
            less == slope_lt(p@, q@),
    {
        proof {
            lemma_fits_product(*self, o, p@, q@);
            lemma_fits_product(*self, o, q@, p@);
        }
        p.num * q.den < q.num * p.den
    }

    /// `p <= q`, computed by cross-multiplication.
    pub(crate) fn at_most(&self, p: Ratio, q: Ratio, Ghost(o): Ghost<Octant>) -> (at_most: bool)
        requires
            self.wf(),
            self.fits(o, p@),
            self.fits(o, q@),
        ensures
            at_most == slope_le(p@, q@),
    {
        proof {
            lemma_fits_product(*self, o, p@, q@);
            lemma_fits_product(*self, o, q@, p@);
        }
        p.num * q.den <= q.num * p.den
    }
}

/// The product of a numerator and a denominator of two slopes that fit the
/// map stays far inside the range of `i128`.
pub proof fn lemma_fits_product(s: Setup, o: Octant, p: Slope, q: Slope)
    requires
        s.wf(),
        s.fits(o, p),
        s.fits(o, q),
    ensures
        -0x8_0000_0000_0000_0000 <= p.num * q.den <= 0x8_0000_0000_0000_0000,
{
    let a = s.span_across(o);
    let j = s.span_along(o);
    assert(a * j == s.width * s.height) by (nonlinear_arith)
        requires
            (a == s.width && j == s.height) || (a == s.height && j == s.width),
    ;
    assert(a <= a * j && j <= a * j) by (nonlinear_arith)
        requires
            1 <= a,
            1 <= j,
    ;
    assert((2 * a + 1) * (2 * j + 1) == 4 * (a * j) + 2 * a + 2 * j + 1) by (nonlinear_arith);
    assert(p.num * q.den <= (2 * a + 1) * (2 * j + 1)) by (nonlinear_arith)
        requires
            p.num <= 2 * a + 1,
            1 <= q.den <= 2 * j + 1,
            0 <= 2 * a + 1,
    ;
    assert(p.num * q.den >= -(2 * j + 1)) by (nonlinear_arith)
        requires
            -1 <= p.num,
            1 <= q.den <= 2 * j + 1,
    ;
}

/// A cell on the map lies inside the map's spans, so its slopes fit, and
/// so does the cell behind it.
pub proof fn lemma_cell_fits(s: Setup, o: Octant, across: int, along: int)
    requires
        s.wf(),
        0 <= across,
        1 <= along,
        s.on_map(o, across, along),
    ensures
        across < s.span_across(o),
        along < s.span_along(o),
        along <= s.depth(o),
        s.on_map(o, across, along - 1),
        s.fits(o, upper_slope(across, along)),
        s.fits(o, lower_slope(across, along)),
        s.fits(o, line_slope(2 * across - 1, along)),
        s.fits(o, line_slope(2 * across, along)),
        s.fits(o, line_slope(2 * across + 1, along)),
        0 <= s.cell(o, across, along) < s.width * s.height,
{
    lemma_cell_index_in_range(
        s.width as int,
        s.height as int,
        s.cell_x(o, across, along),
        s.cell_y(o, across, along),
    );
}

/// Two different cells of an octant have different indices.
pub proof fn lemma_cells_differ(s: Setup, o: Octant, a1: int, j1: int, a2: int, j2: int)
    requires
        s.wf(),
        s.on_map(o, a1, j1),
        s.on_map(o, a2, j2),
        a1 != a2 || j1 != j2,
    ensures
        s.cell(o, a1, j1) != s.cell(o, a2, j2),
        0 <= s.cell(o, a1, j1) < s.width * s.height,
        0 <= s.cell(o, a2, j2) < s.width * s.height,
{
    lemma_cell_index_in_range(
        s.width as int,
        s.height as int,
        s.cell_x(o, a1, j1),
        s.cell_y(o, a1, j1),
    );
    lemma_cell_index_in_range(
        s.width as int,
        s.height as int,
        s.cell_x(o, a2, j2),
        s.cell_y(o, a2, j2),
    );
    if s.cell(o, a1, j1) == s.cell(o, a2, j2) {
        lemma_cell_index_injective(
            s.width as int,
            s.cell_x(o, a1, j1),
            s.cell_y(o, a1, j1),
            s.cell_x(o, a2, j2),
            s.cell_y(o, a2, j2),
        );
    }
}

/// The octant's cell that has the index of the map cell `(cx, cy)` is that
/// cell: its row and column are those of `(cx, cy)`, and so is its distance
/// from the observer.
pub proof fn lemma_cell_is(s: Setup, o: Octant, across: int, along: int, cx: int, cy: int)
    requires
        s.wf(),
        s.on_map(o, across, along),
        0 <= cx < s.width,
        0 <= cy < s.height,
        s.cell(o, across, along) == cell_index(s.width as int, cx, cy),
    ensures
        s.cell_x(o, across, along) == cx,
        s.cell_y(o, across, along) == cy,
        across == s.across_of(o, cx, cy),
        along == s.along_of(o, cx, cy),
        s.in_radius(across, along) == s.near(cx, cy),
{
    lemma_cell_index_injective(
        s.width as int,
        s.cell_x(o, across, along),
        s.cell_y(o, across, along),
        cx,
        cy,
    );
    let dx = cx - s.x;
    let dy = cy - s.y;
    assert(dx * dx + dy * dy == across * across + along * along) by (nonlinear_arith)
        requires
            (dx == across || dx == -across) && (dy == along || dy == -along) || (dx == along || dx
                == -along) && (dy == across || dy == -across),
    ;
}

/// The map cell `(cx, cy)` is the octant's cell in its row and column.
pub proof fn lemma_cell_of(s: Setup, o: Octant, cx: int, cy: int)
    requires
        s.wf(),
        0 <= cx < s.width,
        0 <= cy < s.height,
    ensures
        s.on_map(o, s.across_of(o, cx, cy), s.along_of(o, cx, cy)),
        s.cell(o, s.across_of(o, cx, cy), s.along_of(o, cx, cy)) == cell_index(
            s.width as int,
            cx,
            cy,
        ),
        0 <= cell_index(s.width as int, cx, cy) < s.width * s.height,
{
    lemma_cell_index_in_range(s.width as int, s.height as int, cx, cy);
}

/// The place of an octant in the order in which the algorithms visit the
/// octants.
pub open spec fn octant_number(o: Octant) -> int {
    (if o.neg_x { 4int } else { 0int }) + (if o.neg_y { 2int } else { 0int }) + (if o.swap {
        1int
    } else {
        0int
    })
}

/// Every octant is one of the eight that the algorithms visit.
pub proof fn lemma_octant_number(o: Octant)
    ensures
        0 <= octant_number(o) < 8,
        nth_octant(octant_number(o)) == o,
{
}

/// An octant that holds the map cell `(cx, cy)`, unless the cell is the
/// observer's.
pub open spec fn octant_of(s: Setup, cx: int, cy: int) -> Octant {
    let dx = if cx < s.x { s.x - cx } else { cx - s.x };
    let dy = if cy < s.y { s.y - cy } else { cy - s.y };
    Octant { swap: dx > dy, neg_x: cx < s.x, neg_y: cy < s.y }
}

/// Every cell but the observer's lies in an octant.
pub proof fn lemma_octant_of(s: Setup, cx: int, cy: int)
    requires
        cx != s.x || cy != s.y,
    ensures
        s.in_octant(octant_of(s, cx, cy), cx, cy),
{
}

/// A cell within the radius lies in a row that the scan of its octant visits.
pub proof fn lemma_row_in_reach(s: Setup, o: Octant, across: int, along: int)
    requires
        s.wf(),
        0 <= across,
        1 <= along,
        s.on_map(o, across, along),
        s.in_radius(across, along),
    ensures
        along <= s.reach(o),
{
    if s.max_radius != 0 {
        let r = s.max_radius as int;
        assert(along <= r) by (nonlinear_arith)
            requires
                across * across + along * along <= r * r,
                0 <= r,
                0 <= along,
        ;
    }
}

/// A radius of at least `width + height` reaches every row and every cell
/// of the map, as the unlimited radius 0 does.
pub proof fn lemma_wide_radius(s: Setup, radius: usize, o: Octant, across: int, along: int)
    requires
        s.wf(),
        radius >= s.width + s.height,
    ensures
        s.with_radius(radius).reach(o) == s.with_radius(0).reach(o),
        s.with_radius(radius).reach(o) < radius,
        0 <= across && 0 <= along && s.on_map(o, across, along) ==> s.with_radius(
            radius,
        ).in_radius(across, along),
{
    if 0 <= across && 0 <= along && s.on_map(o, across, along) {
        assert(across + along <= radius);
        assert(across * across + along * along <= radius * radius) by (nonlinear_arith)
            requires
                0 <= across,
                0 <= along,
                across + along <= radius,
        ;
    }
}

} // verus!
