use doryen_fov::{FovAlgorithm, FovDummy, MapData};

#[test]
fn new_map_is_transparent_and_dark() {
    let map = MapData::new(4, 3);
    assert_eq!(map.width, 4);
    assert_eq!(map.height, 3);
    assert_eq!(map.transparent, vec![true; 12]);
    assert_eq!(map.fov, vec![false; 12]);
    for y in 0..3 {
        for x in 0..4 {
            assert!(map.is_transparent(x, y));
            assert!(!map.is_in_fov(x, y));
        }
    }
}

#[test]
fn map_without_cells_is_allowed() {
    let mut map = MapData::new(0, 5);
    assert_eq!(map.width, 0);
    assert_eq!(map.height, 5);
    assert!(map.transparent.is_empty());
    assert!(map.fov.is_empty());
    map.clear_fov();
    assert!(map.fov.is_empty());
    let mut flat = MapData::new(7, 0);
    FovDummy::new().compute_fov(&mut flat, 3, 3, 2, true);
    assert!(flat.fov.is_empty());
}

#[test]
fn cells_are_stored_row_by_row() {
    let mut map = MapData::new(4, 3);
    map.set_transparent(2, 1, false);
    map.set_fov(3, 2, true);
    assert_eq!(map.transparent[2 + 4], false);
    assert_eq!(map.fov[3 + 2 * 4], true);
    assert_eq!(map.transparent.iter().filter(|t| !**t).count(), 1);
    assert_eq!(map.fov.iter().filter(|f| **f).count(), 1);
}

#[test]
fn set_transparent_changes_one_cell() {
    let mut map = MapData::new(5, 4);
    map.set_fov(1, 1, true);
    let fov_before = map.fov.clone();
    map.set_transparent(4, 3, false);
    for y in 0..4 {
        for x in 0..5 {
            assert_eq!(map.is_transparent(x, y), !(x == 4 && y == 3));
        }
    }
    assert_eq!(map.fov, fov_before);
    map.set_transparent(4, 3, true);
    assert_eq!(map.transparent, vec![true; 20]);
}

#[test]
fn set_fov_changes_one_cell() {
    let mut map = MapData::new(5, 4);
    map.set_transparent(2, 2, false);
    let transparent_before = map.transparent.clone();
    map.set_fov(0, 3, true);
    for y in 0..4 {
        for x in 0..5 {
            assert_eq!(map.is_in_fov(x, y), x == 0 && y == 3);
        }
    }
    assert_eq!(map.transparent, transparent_before);
    map.set_fov(0, 3, false);
    assert_eq!(map.fov, vec![false; 20]);
}

#[test]
fn clear_fov_resets_every_cell_and_keeps_the_walls() {
    let mut map = MapData::new(3, 3);
    map.set_transparent(1, 1, false);
    for y in 0..3 {
        for x in 0..3 {
            map.set_fov(x, y, true);
        }
    }
    let transparent_before = map.transparent.clone();
    map.clear_fov();
    assert_eq!(map.fov, vec![false; 9]);
    assert_eq!(map.transparent, transparent_before);
    assert_eq!(map.width, 3);
    assert_eq!(map.height, 3);
}

#[test]
fn dummy_copies_transparency_whatever_the_observer() {
    let mut map = MapData::new(6, 2);
    map.set_transparent(0, 0, false);
    map.set_transparent(5, 1, false);
    map.set_fov(0, 0, true);
    let mut fov = FovDummy::default();
    for (x, y, radius, light_walls) in
        [(0, 0, 0, false), (5, 1, 3, true), (100, 100, usize::MAX, false)]
    {
        fov.compute_fov(&mut map, x, y, radius, light_walls);
        assert_eq!(map.fov, map.transparent);
        assert_eq!(map.is_in_fov(0, 0), false);
        assert_eq!(map.is_in_fov(1, 0), true);
    }
}
