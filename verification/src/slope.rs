//! Slopes as exact rational numbers, compared by cross-multiplication.
use vstd::prelude::*;

verus! {

/// The rational number `num / den`. The slopes that the algorithms handle
/// have a positive denominator.
pub struct Slope {
    pub num: int,
    pub den: int,
}

/// `a < b` for slopes with positive denominators.
pub open spec fn slope_lt(a: Slope, b: Slope) -> bool {
    a.num * b.den < b.num * a.den
}

/// `a <= b` for slopes with positive denominators.
pub open spec fn slope_le(a: Slope, b: Slope) -> bool {
    a.num * b.den <= b.num * a.den
}

/// The smaller of two slopes; `a` when they are equal.
pub open spec fn slope_min(a: Slope, b: Slope) -> Slope {
    if slope_lt(b, a) {
        b
    } else {
        a
    }
}

/// The larger of two slopes; `a` when they are equal.
pub open spec fn slope_max(a: Slope, b: Slope) -> Slope {
    if slope_lt(a, b) {
        b
    } else {
        a
    }
}

/// The largest slope of a line from the observer's centre through the cell
/// `across` columns off the axis in row `along`.
pub open spec fn upper_slope(across: int, along: int) -> Slope {
    Slope { num: 2 * across + 1, den: 2 * along - 1 }
}

/// The smallest slope of a line from the observer's centre through the cell
/// `across` columns off the axis in row `along`.
pub open spec fn lower_slope(across: int, along: int) -> Slope {
    Slope { num: 2 * across - 1, den: 2 * along + 1 }
}

/// The slope `twice / (2 * line)`. With `twice` equal to `2 * across - 1`,
/// `2 * across` and `2 * across + 1` these are the lower edge, the centre
/// and the upper edge of the cell `across` of a line in which every cell
/// takes up a slope range of `1 / line`.
pub open spec fn line_slope(twice: int, line: int) -> Slope {
    Slope { num: twice, den: 2 * line }
}

/// `<=` on slopes with positive denominators is transitive, and strict
/// when one of the two steps is.
pub proof fn lemma_slope_chain(a: Slope, b: Slope, c: Slope)
    requires
        0 < a.den,
        0 < b.den,
        0 < c.den,
        slope_le(a, b),
        slope_le(b, c),
    ensures
        slope_le(a, c),
        slope_lt(a, b) || slope_lt(b, c) ==> slope_lt(a, c),
{
    assert(a.num * b.den * c.den <= b.num * a.den * c.den) by (nonlinear_arith)
        requires
            a.num * b.den <= b.num * a.den,
            0 < c.den,
    ;
    assert(b.num * c.den * a.den <= c.num * b.den * a.den) by (nonlinear_arith)
        requires
            b.num * c.den <= c.num * b.den,
            0 < a.den,
    ;
    assert(b.num * a.den * c.den == b.num * c.den * a.den) by (nonlinear_arith);
    assert(a.num * b.den * c.den == (a.num * c.den) * b.den) by (nonlinear_arith);
    assert(c.num * b.den * a.den == (c.num * a.den) * b.den) by (nonlinear_arith);
    assert(a.num * c.den <= c.num * a.den) by (nonlinear_arith)
        requires
            (a.num * c.den) * b.den <= (c.num * a.den) * b.den,
            0 < b.den,
    ;
    if slope_lt(a, b) {
        assert(a.num * b.den * c.den < b.num * a.den * c.den) by (nonlinear_arith)
            requires
                a.num * b.den < b.num * a.den,
                0 < c.den,
        ;
        assert(a.num * c.den < c.num * a.den) by (nonlinear_arith)
            requires
                (a.num * c.den) * b.den < (c.num * a.den) * b.den,
                0 < b.den,
        ;
    }
    if slope_lt(b, c) {
        assert(b.num * c.den * a.den < c.num * b.den * a.den) by (nonlinear_arith)
            requires
                b.num * c.den < c.num * b.den,
                0 < a.den,
        ;
        assert(a.num * c.den < c.num * a.den) by (nonlinear_arith)
            requires
                (a.num * c.den) * b.den < (c.num * a.den) * b.den,
                0 < b.den,
        ;
    }
}

/// In one row the slopes of a cell grow with its distance from the axis.
pub proof fn lemma_slopes_grow_across(near: int, far: int, along: int)
    requires
        near <= far,
        1 <= along,
    ensures
        slope_le(upper_slope(near, along), upper_slope(far, along)),
        slope_le(lower_slope(near, along), lower_slope(far, along)),
{
    assert((2 * near + 1) * (2 * along - 1) <= (2 * far + 1) * (2 * along - 1))
        by (nonlinear_arith)
        requires
            near <= far,
            1 <= along,
    ;
    assert((2 * near - 1) * (2 * along + 1) <= (2 * far - 1) * (2 * along + 1))
        by (nonlinear_arith)
        requires
            near <= far,
            1 <= along,
    ;
}

/// On the axis and on the diagonal of an octant, the slopes of a cell lie
/// strictly between the slopes of every nearer cell.
pub proof fn lemma_ray_slopes(near_across: int, near_along: int, far_across: int, far_along: int)
    requires
        1 <= near_along < far_along,
        (near_across == 0 && far_across == 0) || (near_across == near_along && far_across
            == far_along),
    ensures
        slope_lt(lower_slope(near_across, near_along), lower_slope(far_across, far_along)),
        slope_lt(upper_slope(far_across, far_along), upper_slope(near_across, near_along)),
{
    let n = near_along;
    let f = far_along;
    let a = near_across;
    let b = far_across;
    assert((2 * a - 1) * (2 * f + 1) < (2 * b - 1) * (2 * n + 1)) by (nonlinear_arith)
        requires
            1 <= n < f,
            (a == 0 && b == 0) || (a == n && b == f),
    ;
    assert((2 * b + 1) * (2 * n - 1) < (2 * a + 1) * (2 * f - 1)) by (nonlinear_arith)
        requires
            1 <= n < f,
            (a == 0 && b == 0) || (a == n && b == f),
    ;
}

/// A cell on the axis or on the diagonal of an octant whose slopes lie
/// strictly between those of a nearer cell: the nearer cell is on the axis
/// or on the diagonal too.
pub proof fn lemma_shadow_on_edge(near_across: int, near_along: int, far_across: int, far_along: int)
    requires
        0 <= near_across <= near_along,
        1 <= near_along < far_along,
        0 <= far_across <= far_along,
        slope_lt(lower_slope(near_across, near_along), lower_slope(far_across, far_along)),
        slope_lt(upper_slope(far_across, far_along), upper_slope(near_across, near_along)),
    ensures
        far_across == 0 ==> near_across == 0,
        far_across == far_along ==> near_across == near_along,
{
    let n = near_along;
    let f = far_along;
    let a = near_across;
    let b = far_across;
    if b == 0 && a >= 1 {
        assert((2 * a - 1) * (2 * f + 1) >= 0 > (2 * b - 1) * (2 * n + 1)) by (nonlinear_arith)
            requires
                a >= 1,
                b == 0,
                1 <= n < f,
        ;
    }
    if b == f && a <= n - 1 {
        assert((2 * b + 1) * (2 * n - 1) >= (2 * a + 1) * (2 * f - 1)) by (nonlinear_arith)
            requires
                0 <= a <= n - 1,
                b == f,
                1 <= n < f,
        ;
    }
}

/// A machine rational whose view is a `Slope`.
#[derive(Clone, Copy)]
pub struct Ratio {
    pub num: i128,
    pub den: i128,
}

impl View for Ratio {
    type V = Slope;

    open spec fn view(&self) -> Slope {
        Slope { num: self.num as int, den: self.den as int }
    }
}

impl Ratio {
    /// The machine form of `upper_slope`.
    pub(crate) fn upper(across: usize, along: usize) -> (r: Ratio)
        requires
            1 <= along,
        ensures
            r@ == upper_slope(across as int, along as int),
    {
        Ratio { num: 2 * (across as i128) + 1, den: 2 * (along as i128) - 1 }
    }

    /// The machine form of `lower_slope`.
    pub(crate) fn lower(across: usize, along: usize) -> (r: Ratio)
        ensures
            r@ == lower_slope(across as int, along as int),
    {
        Ratio { num: 2 * (across as i128) - 1, den: 2 * (along as i128) + 1 }
    }

    /// The machine form of `line_slope`, with `twice == 2 * across + shift`.
    pub(crate) fn of_line(across: usize, shift: i8, line: usize) -> (r: Ratio)
        requires
            -1 <= shift <= 1,
        ensures
            r@ == line_slope(2 * across + shift, line as int),
    {
        Ratio { num: 2 * (across as i128) + (shift as i128), den: 2 * (line as i128) }
    }
}

} // verus!
