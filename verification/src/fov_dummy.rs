use crate::{FovAlgorithm, MapData};
use vstd::prelude::*;

verus! {

/// The pass-through algorithm: every transparent cell is in the field of
/// view and no opaque cell is, wherever the observer stands.
pub struct FovDummy {}

impl Default for FovDummy {
    fn default() -> (fov: Self)
        ensures
            fov == (FovDummy {}),
    {
        Self {}
    }
}

impl FovDummy {
    pub fn new() -> (fov: Self)
        ensures
            fov == (FovDummy {}),
    {
        Self {}
    }
}

impl FovAlgorithm for FovDummy {
    /// Any observer position is accepted, on or off the map.
    open spec fn accepts(&self, map: &MapData, x: usize, y: usize) -> bool {
        true
    }

    /// The field of view is the transparency vector itself.
    open spec fn field_of_view(
        &self,
        map: &MapData,
        x: usize,
        y: usize,
        max_radius: usize,
        light_walls: bool,
    ) -> Seq<bool> {
        map.transparent@
    }

    /// Copies the transparency into the field of view. The observer, the
    /// radius and `light_walls` play no part.
    fn compute_fov(
        &mut self,
        map: &mut MapData,
        _x: usize,
        _y: usize,
        _max_radius: usize,
        _light_walls: bool,
    )
        ensures
            final(map).fov@ == old(map).transparent@,
    {
        let cells: usize = map.fov.len();
        let mut off: usize = 0;
        while off < cells
            invariant
                off <= cells,
                cells == map.fov@.len(),
                map.wf(),
                map.width == old(map).width,
                map.height == old(map).height,
                map.transparent@ == old(map).transparent@,
                forall|i: int| 0 <= i < off ==> map.fov@[i] == map.transparent@[i],
            decreases cells - off,
        {
            let flag: bool = map.transparent[off];
            map.fov[off] = flag;
            off += 1;
        }
        assert(map.fov@ =~= map.transparent@);
    }
}

} // verus!
