use doryen_fov::{FovAlgorithm, FovDummy, FovRecursiveShadowCasting, FovRestrictive, MapData};

#[test]
fn fov_dummy() {
    let mut fov = FovDummy::new();
    let mut map = MapData::new(10, 10);
    map.set_transparent(5, 5, false);
    fov.compute_fov(&mut map, 0, 0, 0, false);
    for y in 0..10 {
        for x in 0..10 {
            assert_eq!(map.transparent[x + y * 10], map.fov[x + y * 10]);
        }
    }
}

#[test]
fn fov_shadowcasting() {
    let mut fov = FovRecursiveShadowCasting::new();
    let mut map = MapData::new(10, 10);
    map.set_transparent(5, 5, false);
    fov.compute_fov(&mut map, 5, 6, 0, false);
    assert_eq!(map.is_in_fov(5, 6), true);
    assert_eq!(map.is_in_fov(5, 7), true);
    assert_eq!(map.is_in_fov(5, 5), false);
    assert_eq!(map.is_in_fov(5, 4), false);
}

#[test]
fn fov_mrpas() {
    let mut fov = FovRestrictive::new();
    let mut map = MapData::new(10, 10);
    map.set_transparent(5, 5, false);
    fov.compute_fov(&mut map, 5, 6, 0, false);
    assert_eq!(map.is_in_fov(5, 6), true);
    assert_eq!(map.is_in_fov(5, 7), true);
    assert_eq!(map.is_in_fov(5, 5), false);
    assert_eq!(map.is_in_fov(5, 4), false);
}
