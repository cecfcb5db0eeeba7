//! Field-of-view computation on rectangular cell maps.
//!
//! A [`MapData`] stores, for every cell, whether sight passes through it and
//! whether it is currently in the field of view. A [`FovAlgorithm`] fills the
//! field of view for one observer position. There are three of them:
//! [`FovRecursiveShadowCasting`], [`FovRestrictive`] and the pass-through
//! [`FovDummy`].
//!
//! What the algorithms have in common:
//!
//! * A computation replaces the field of view: what the map held before
//!   plays no part, and the transparency is left alone.
//! * The two shadowcasting algorithms want the observer on the map, and
//!   always put the observer's own cell in the field of view.
//! * `max_radius` is compared by Euclidean distance: a cell `dx` columns and
//!   `dy` rows from the observer is within the radius when `dx * dx + dy * dy
//!   <= max_radius * max_radius`. The radius 0 means no limit.
//! * Apart from the observer's own cell, the two shadowcasting algorithms
//!   put an opaque cell in the field of view only when `light_walls` is set,
//!   and never a cell that lies behind an opaque cell along a row, a column
//!   or a diagonal through the observer.
//! * Slopes are exact rational numbers, so the result is the same on every
//!   machine.
//!
//! The contracts state each field of view as a function of the map's size
//! and transparency, the observer, the radius and `light_walls`; the proof
//! modules state what follows from those functions.
use vstd::prelude::*;

mod fov_dummy;
mod fov_recursive_shadowcasting;
mod fov_restrictive;
pub mod geometry;
pub mod restrictive_axis;
pub mod restrictive_diagonal;
pub mod restrictive_occlusion;
pub mod restrictive_proofs;
pub mod shadowcasting_proofs;
pub mod slope;

pub use fov_dummy::FovDummy;
pub use fov_recursive_shadowcasting::{cast, cast_octants, scan, shadowcast, FovRecursiveShadowCasting};
pub use fov_restrictive::{
    first_cell, probe, restrictive, sweep, sweep_cell, sweep_line, sweep_octant, sweep_octants,
    walled_in, FovRestrictive, Probe, Sweep,
};

verus! {

/// Transparency and field-of-view flags of a `width` x `height` map.
///
/// Both vectors are stored row by row: the cell `(x, y)` lives at index
/// `x + y * width`.
pub struct MapData {
    /// width of the map in cells
    pub width: usize,
    /// height of the map in cells
    pub height: usize,
    /// width x height vector of transparency information
    pub transparent: Vec<bool>,
    /// width x height vector of field of view information
    pub fov: Vec<bool>,
}

/// The index of cell `(x, y)` in a row-major map of the given width.
pub open spec fn cell_index(width: int, x: int, y: int) -> int {
    x + y * width
}

/// Every cell of a `width` x `height` map has its index inside the map's storage.
pub proof fn lemma_cell_index_in_range(width: int, height: int, x: int, y: int)
    requires
        0 <= x < width,
        0 <= y < height,
    ensures
        0 <= cell_index(width, x, y) < width * height,
        y * width <= cell_index(width, x, y) < (y + 1) * width,
{
    assert(0 <= y * width) by (nonlinear_arith)
        requires
            0 <= y,
            0 <= width,
    ;
    assert((y + 1) * width <= height * width) by (nonlinear_arith)
        requires
            y + 1 <= height,
            0 <= width,
    ;
    assert((y + 1) * width == y * width + width) by (nonlinear_arith);
    assert(height * width == width * height) by (nonlinear_arith);
}

/// Two distinct cells of a map never share an index.
pub proof fn lemma_cell_index_injective(width: int, x1: int, y1: int, x2: int, y2: int)
    requires
        0 <= x1 < width,
        0 <= x2 < width,
        cell_index(width, x1, y1) == cell_index(width, x2, y2),
    ensures
        x1 == x2,
        y1 == y2,
{
    if y1 < y2 {
        assert((y1 + 1) * width <= y2 * width) by (nonlinear_arith)
            requires
                y1 + 1 <= y2,
                0 <= width,
        ;
        assert((y1 + 1) * width == y1 * width + width) by (nonlinear_arith);
    } else if y2 < y1 {
        assert((y2 + 1) * width <= y1 * width) by (nonlinear_arith)
            requires
                y2 + 1 <= y1,
                0 <= width,
        ;
        assert((y2 + 1) * width == y2 * width + width) by (nonlinear_arith);
    }
}

impl MapData {
    /// The storage invariant: both vectors hold exactly one flag per cell.
    pub open spec fn wf(&self) -> bool {
        &&& self.transparent@.len() == self.width * self.height
        &&& self.fov@.len() == self.width * self.height
    }

    /// Whether `(x, y)` names a cell of the map.
    pub open spec fn in_bounds(&self, x: int, y: int) -> bool {
        0 <= x < self.width && 0 <= y < self.height
    }

    /// The index of cell `(x, y)` in `transparent` and `fov`.
    pub open spec fn index_of(&self, x: int, y: int) -> int {
        cell_index(self.width as int, x, y)
    }

    /// On a well-formed map the index of every cell fits the vectors and
    /// the machine's index type.
    pub proof fn lemma_index_fits(&self, x: int, y: int)
        requires
            self.wf(),
            self.in_bounds(x, y),
        ensures
            0 <= self.index_of(x, y) < self.width * self.height <= usize::MAX,
            0 <= y * self.width <= self.index_of(x, y),
    {
        assert(self.fov@.len() == self.fov.len());
        lemma_cell_index_in_range(self.width as int, self.height as int, x, y);
    }

    /// create a new empty map : no walls and empty field of view
    ///
    /// A map with no cells (zero width or height) is allowed; it has no
    /// valid coordinates. The cell count must fit the machine's index type.
    pub fn new(width: usize, height: usize) -> (map: Self)
        requires
            width * height <= usize::MAX,
        ensures
            map.wf(),
            map.width == width,
            map.height == height,
            map.transparent@ == Seq::new((width * height) as nat, |i: int| true),
            map.fov@ == Seq::new((width * height) as nat, |i: int| false),
    {
        let cells: usize = width * height;
        let transparent = vec![true; cells];
        let fov = vec![false; cells];
        assert(transparent@ =~= Seq::new(cells as nat, |i: int| true));
        assert(fov@ =~= Seq::new(cells as nat, |i: int| false));
        Self { width, height, transparent, fov }
    }

    /// reset the fov information to false
    pub fn clear_fov(&mut self)
        requires
            old(self).wf(),
        ensures
            final(self).wf(),
            final(self).width == old(self).width,
            final(self).height == old(self).height,
            final(self).transparent@ == old(self).transparent@,
            final(self).fov@ == Seq::new(old(self).fov@.len(), |i: int| false),
    {
        let cells: usize = self.fov.len();
        let mut off: usize = 0;
        while off < cells
            invariant
                off <= cells,
                cells == self.fov@.len(),
                self.fov@.len() == old(self).fov@.len(),
                self.width == old(self).width,
                self.height == old(self).height,
                self.transparent@ == old(self).transparent@,
                forall|i: int| 0 <= i < off ==> self.fov@[i] == false,
            decreases cells - off,
        {
            self.fov[off] = false;
            off += 1;
        }
        assert(self.fov@ =~= Seq::new(old(self).fov@.len(), |i: int| false));
    }

    /// Whether cell `(x, y)` is in the field of view. The cell must be on the map.
    pub fn is_in_fov(&self, x: usize, y: usize) -> (in_fov: bool)
        requires
            self.wf(),
            self.in_bounds(x as int, y as int),
        ensures
            in_fov == self.fov@[self.index_of(x as int, y as int)],
    {
        proof {
            self.lemma_index_fits(x as int, y as int);
        }
        self.fov[x + y * self.width]
    }

    /// Whether sight passes through cell `(x, y)`. The cell must be on the map.
    pub fn is_transparent(&self, x: usize, y: usize) -> (is_transparent: bool)
        requires
            self.wf(),
            self.in_bounds(x as int, y as int),
        ensures
            is_transparent == self.transparent@[self.index_of(x as int, y as int)],
    {
        proof {
            self.lemma_index_fits(x as int, y as int);
        }
        self.transparent[x + y * self.width]
    }

    /// Puts cell `(x, y)` in or out of the field of view; no other cell changes.
    /// The cell must be on the map.
    pub fn set_fov(&mut self, x: usize, y: usize, in_fov: bool)
        requires
            old(self).wf(),
            old(self).in_bounds(x as int, y as int),
        ensures
            final(self).wf(),
            final(self).width == old(self).width,
            final(self).height == old(self).height,
            final(self).transparent@ == old(self).transparent@,
            final(self).fov@ == old(self).fov@.update(old(self).index_of(x as int, y as int), in_fov),
    {
        proof {
            self.lemma_index_fits(x as int, y as int);
        }
        let off: usize = x + y * self.width;
        self.fov[off] = in_fov;
    }

    /// Makes cell `(x, y)` transparent or opaque; no other cell changes.
    /// The cell must be on the map.
    pub fn set_transparent(&mut self, x: usize, y: usize, is_transparent: bool)
        requires
            old(self).wf(),
            old(self).in_bounds(x as int, y as int),
        ensures
            final(self).wf(),
            final(self).width == old(self).width,
            final(self).height == old(self).height,
            final(self).fov@ == old(self).fov@,
            final(self).transparent@ == old(self).transparent@.update(
                old(self).index_of(x as int, y as int),
                is_transparent,
            ),
    {
        proof {
            self.lemma_index_fits(x as int, y as int);
        }
        let off: usize = x + y * self.width;
        self.transparent[off] = is_transparent;
    }
}

/// Some algorithm to compute a field of view
/// x,y : observer position on the map
/// max_radius : max distance in cells where the observer can see. 0 = infinite
/// light_walls : are walls limiting the field of view inside the field of view ?
pub trait FovAlgorithm {
    /// Whether the algorithm can run for an observer at `(x, y)` on `map`.
    spec fn accepts(&self, map: &MapData, x: usize, y: usize) -> bool;

    /// The field of view the algorithm assigns to the map: one flag per
    /// cell, in the order of `MapData::fov`.
    spec fn field_of_view(
        &self,
        map: &MapData,
        x: usize,
        y: usize,
        max_radius: usize,
        light_walls: bool,
    ) -> Seq<bool>;

    /// Replaces the map's field of view by the one seen from `(x, y)`.
    /// Only `fov` changes.
    fn compute_fov(
        &mut self,
        map: &mut MapData,
        x: usize,
        y: usize,
        max_radius: usize,
        light_walls: bool,
    )
        requires
            old(map).wf(),
            old(self).accepts(old(map), x, y),
        ensures
            final(map).wf(),
            final(map).width == old(map).width,
            final(map).height == old(map).height,
            final(map).transparent@ == old(map).transparent@,
            final(map).fov@ == old(self).field_of_view(old(map), x, y, max_radius, light_walls),
    ;
}

} // verus!
