use doryen_fov::{FovAlgorithm, FovDummy, FovRecursiveShadowCasting, FovRestrictive, MapData};

/// Builds a map from a picture: `#` is opaque, `@` is the observer.
fn map_from(rows: &[&str]) -> (MapData, usize, usize) {
    let height = rows.len();
    let width = rows[0].len();
    let mut map = MapData::new(width, height);
    let mut observer = (0, 0);
    for (y, row) in rows.iter().enumerate() {
        assert_eq!(row.len(), width);
        for (x, ch) in row.chars().enumerate() {
            if ch == '#' {
                map.set_transparent(x, y, false);
            }
            if ch == '@' {
                observer = (x, y);
            }
        }
    }
    (map, observer.0, observer.1)
}

/// Draws the field of view: `.` a visible floor, `#` a visible wall, ` ` a dark cell.
fn picture(map: &MapData) -> Vec<String> {
    let mut rows = Vec::new();
    for y in 0..map.height {
        let mut row = String::new();
        for x in 0..map.width {
            row.push(if !map.is_in_fov(x, y) {
                ' '
            } else if map.is_transparent(x, y) {
                '.'
            } else {
                '#'
            });
        }
        rows.push(row);
    }
    rows
}

fn seen(
    fov: &mut dyn FovAlgorithm,
    rows: &[&str],
    max_radius: usize,
    light_walls: bool,
) -> Vec<String> {
    let (mut map, x, y) = map_from(rows);
    fov.compute_fov(&mut map, x, y, max_radius, light_walls);
    picture(&map)
}

fn both() -> Vec<Box<dyn FovAlgorithm>> {
    vec![Box::new(FovRecursiveShadowCasting::new()), Box::new(FovRestrictive::new())]
}

const ROOM: [&str; 9] = [
    "...........",
    "..#....#...",
    "..#........",
    "....##.....",
    ".....@..#..",
    "...........",
    "..##...#...",
    ".......#...",
    "...........",
];

const NOOK: [&str; 5] = [".....", "#....", "...#.", ".@..#", "....."];

#[test]
fn room_with_lit_walls() {
    let expected = vec![
        "        ...",
        "       #...",
        "..    .....",
        "....##.....",
        "........#  ",
        "...........",
        "..##...#...",
        "   ....# ..",
        "  ......   ",
    ];
    for fov in both().iter_mut() {
        assert_eq!(seen(fov.as_mut(), &ROOM, 0, true), expected);
    }
}

#[test]
fn room_with_dark_walls() {
    let expected = vec![
        "        ...",
        "        ...",
        "..    .....",
        "....  .....",
        "........   ",
        "...........",
        "..  ... ...",
        "   ....  ..",
        "  ......   ",
    ];
    for fov in both().iter_mut() {
        assert_eq!(seen(fov.as_mut(), &ROOM, 0, false), expected);
    }
}

#[test]
fn room_within_radius_three() {
    let expected = vec![
        "           ",
        "           ",
        "      ..   ",
        "   .##..   ",
        "  ......#  ",
        "   .....   ",
        "   #...#   ",
        "     .     ",
        "           ",
    ];
    for fov in both().iter_mut() {
        assert_eq!(seen(fov.as_mut(), &ROOM, 3, true), expected);
    }
}

#[test]
fn shadowcasting_in_a_nook() {
    let mut fov = FovRecursiveShadowCasting::new();
    assert_eq!(
        seen(&mut fov, &NOOK, 0, true),
        vec![".....", "#....", "...#.", "....#", "....."]
    );
    assert_eq!(
        seen(&mut fov, &NOOK, 0, false),
        vec![".....", " ....", "... .", ".... ", "....."]
    );
    assert_eq!(
        seen(&mut fov, &NOOK, 4, true),
        vec![".... ", "#....", "...#.", "....#", "....."]
    );
}

#[test]
fn restrictive_in_a_nook() {
    let mut fov = FovRestrictive::new();
    assert_eq!(
        seen(&mut fov, &NOOK, 0, true),
        vec![" ....", "#... ", "...# ", "....#", "....."]
    );
    assert_eq!(
        seen(&mut fov, &NOOK, 0, false),
        vec![" ....", " ... ", "...  ", ".... ", "....."]
    );
    assert_eq!(
        seen(&mut fov, &NOOK, 4, true),
        vec![" ... ", "#... ", "...# ", "....#", "....."]
    );
}

#[test]
fn radius_is_euclidean() {
    let open = [".......", ".......", ".......", "...@...", ".......", ".......", "......."];
    let two = vec!["       ", "   .   ", "  ...  ", " ..... ", "  ...  ", "   .   ", "       "];
    let three = vec!["   .   ", " ..... ", " ..... ", ".......", " ..... ", " ..... ", "   .   "];
    for fov in both().iter_mut() {
        assert_eq!(seen(fov.as_mut(), &open, 2, false), two);
        assert_eq!(seen(fov.as_mut(), &open, 3, false), three);
        assert_eq!(
            seen(fov.as_mut(), &open, 1, false),
            vec!["       ", "       ", "   .   ", "  ...  ", "   .   ", "       ", "       "]
        );
    }
}

#[test]
fn open_map_is_seen_whole() {
    for fov in both().iter_mut() {
        for (x, y) in [(0, 0), (6, 0), (3, 2), (6, 4), (0, 4)] {
            let mut map = MapData::new(7, 5);
            fov.compute_fov(&mut map, x, y, 0, false);
            assert_eq!(map.fov, vec![true; 35]);
        }
    }
}

#[test]
fn observer_sees_its_own_cell() {
    for fov in both().iter_mut() {
        for light_walls in [false, true] {
            for max_radius in [0, 1, 2, 50] {
                // the observer stands inside a wall, with walls all round
                let mut map = MapData::new(3, 3);
                for y in 0..3 {
                    for x in 0..3 {
                        map.set_transparent(x, y, false);
                    }
                }
                fov.compute_fov(&mut map, 1, 1, max_radius, light_walls);
                assert!(map.is_in_fov(1, 1));
                assert_eq!(map.is_in_fov(0, 0), light_walls && max_radius != 1);
                assert_eq!(map.is_in_fov(1, 0), light_walls);
            }
        }
    }
}

#[test]
fn single_cell_map() {
    for fov in both().iter_mut() {
        let mut map = MapData::new(1, 1);
        fov.compute_fov(&mut map, 0, 0, 0, false);
        assert_eq!(map.fov, vec![true]);
    }
}

#[test]
fn corridor_is_seen_up_to_the_wall() {
    for fov in both().iter_mut() {
        assert_eq!(seen(fov.as_mut(), &["..#.@...#."], 0, true), vec!["  #.....# "]);
        assert_eq!(seen(fov.as_mut(), &["..#.@...#."], 0, false), vec!["   .....  "]);
        assert_eq!(seen(fov.as_mut(), &["..#.@...#."], 2, true), vec!["  #....   "]);
        assert_eq!(
            seen(fov.as_mut(), &[".", "#", ".", "@", ".", "."], 0, true),
            vec![" ", "#", ".", ".", ".", "."]
        );
    }
}

#[test]
fn opaque_cell_hides_what_lies_behind_it() {
    let directions: [(i32, i32); 8] =
        [(1, 0), (-1, 0), (0, 1), (0, -1), (1, 1), (1, -1), (-1, 1), (-1, -1)];
    for fov in both().iter_mut() {
        for light_walls in [false, true] {
            for (dx, dy) in directions {
                for wall in 1..5 {
                    let mut map = MapData::new(11, 11);
                    let wx = (5 + wall * dx) as usize;
                    let wy = (5 + wall * dy) as usize;
                    map.set_transparent(wx, wy, false);
                    fov.compute_fov(&mut map, 5, 5, 0, light_walls);
                    assert_eq!(map.is_in_fov(wx, wy), light_walls);
                    for near in 1..wall {
                        assert!(map.is_in_fov((5 + near * dx) as usize, (5 + near * dy) as usize));
                    }
                    for far in wall + 1..6 {
                        assert!(!map.is_in_fov((5 + far * dx) as usize, (5 + far * dy) as usize));
                    }
                }
            }
        }
    }
}

#[test]
fn wall_beyond_the_radius_stays_dark() {
    for fov in both().iter_mut() {
        let mut map = MapData::new(9, 9);
        map.set_transparent(7, 4, false);
        fov.compute_fov(&mut map, 4, 4, 2, true);
        assert!(!map.is_in_fov(7, 4));
        assert!(map.is_in_fov(6, 4));
        fov.compute_fov(&mut map, 4, 4, 3, true);
        assert!(map.is_in_fov(7, 4));
        assert!(!map.is_in_fov(8, 4));
    }
}

#[test]
fn radius_zero_is_unlimited() {
    for fov in both().iter_mut() {
        for light_walls in [false, true] {
            let unlimited = seen(fov.as_mut(), &ROOM, 0, light_walls);
            assert_eq!(seen(fov.as_mut(), &ROOM, 11 + 9, light_walls), unlimited);
            assert_eq!(seen(fov.as_mut(), &ROOM, 1000, light_walls), unlimited);
            assert_eq!(seen(fov.as_mut(), &ROOM, usize::MAX, light_walls), unlimited);
            assert_ne!(seen(fov.as_mut(), &ROOM, 4, light_walls), unlimited);
        }
    }
}

#[test]
fn observer_in_a_corner_with_a_wide_radius() {
    let corner = ["@....", ".#...", ".....", "....."];
    let expected = vec![".....", ".#...", "..  .", "..   "];
    for fov in both().iter_mut() {
        assert_eq!(seen(fov.as_mut(), &corner, 50, true), expected);
        assert_eq!(seen(fov.as_mut(), &corner, 9, true), expected);
        assert_eq!(seen(fov.as_mut(), &corner, usize::MAX, true), expected);
    }
    for (x, y) in [(0, 0), (4, 0), (0, 3), (4, 3)] {
        for fov in both().iter_mut() {
            let mut map = MapData::new(5, 4);
            fov.compute_fov(&mut map, x, y, 100, false);
            assert_eq!(map.fov, vec![true; 20]);
            assert_eq!(map.fov.len(), 20);
            assert_eq!(map.transparent.len(), 20);
        }
    }
}

#[test]
fn repeated_calls_give_the_same_field_of_view() {
    for fov in both().iter_mut() {
        let (mut map, x, y) = map_from(&ROOM);
        fov.compute_fov(&mut map, x, y, 5, true);
        let first = map.fov.clone();
        fov.compute_fov(&mut map, x, y, 5, true);
        assert_eq!(map.fov, first);
        // another observer in between, and no clearing
        fov.compute_fov(&mut map, 0, 0, 0, false);
        assert_ne!(map.fov, first);
        fov.compute_fov(&mut map, x, y, 5, true);
        assert_eq!(map.fov, first);
        // a field of view left by someone else
        for cell in map.fov.iter_mut() {
            *cell = true;
        }
        fov.compute_fov(&mut map, x, y, 5, true);
        assert_eq!(map.fov, first);
    }
}

#[test]
fn compute_leaves_the_transparency_alone() {
    for fov in both().iter_mut() {
        let (mut map, x, y) = map_from(&ROOM);
        let transparent = map.transparent.clone();
        fov.compute_fov(&mut map, x, y, 0, true);
        assert_eq!(map.transparent, transparent);
        assert_eq!(map.width, 11);
        assert_eq!(map.height, 9);
        assert_eq!(map.fov.len(), 99);
    }
}

#[test]
fn algorithms_can_be_swapped_on_one_map() {
    let (mut map, x, y) = map_from(&NOOK);
    FovRecursiveShadowCasting::new().compute_fov(&mut map, x, y, 0, true);
    assert_eq!(picture(&map), vec![".....", "#....", "...#.", "....#", "....."]);
    FovRestrictive::new().compute_fov(&mut map, x, y, 0, true);
    assert_eq!(picture(&map), vec![" ....", "#... ", "...# ", "....#", "....."]);
    FovDummy::new().compute_fov(&mut map, x, y, 0, true);
    assert_eq!(map.fov, map.transparent);
    FovRecursiveShadowCasting::new().compute_fov(&mut map, x, y, 0, false);
    assert_eq!(picture(&map), vec![".....", " ....", "... .", ".... ", "....."]);
}

/// The textbook form of recursive shadowcasting, with floating-point slopes.
fn textbook_scan(
    map: &mut MapData,
    cx: i64,
    cy: i64,
    row: i64,
    start: f64,
    end: f64,
    radius: i64,
    mult: [i64; 4],
    light_walls: bool,
) {
    if start < end {
        return;
    }
    let mut start = start;
    let mut new_start = 0.0;
    for j in row..=radius {
        let mut dx = -j - 1;
        let dy = -j;
        let mut blocked = false;
        while dx <= 0 {
            dx += 1;
            let x = cx + dx * mult[0] + dy * mult[1];
            let y = cy + dx * mult[2] + dy * mult[3];
            if x < 0 || x >= map.width as i64 || y < 0 || y >= map.height as i64 {
                continue;
            }
            let off = x as usize + y as usize * map.width;
            let l_slope = (2 * dx - 1) as f64 / (2 * dy + 1) as f64;
            let r_slope = (2 * dx + 1) as f64 / (2 * dy - 1) as f64;
            if start < r_slope {
                continue;
            } else if end > l_slope {
                break;
            }
            if dx * dx + dy * dy <= radius * radius && (light_walls || map.transparent[off]) {
                map.fov[off] = true;
            }
            if blocked {
                if !map.transparent[off] {
                    new_start = r_slope;
                    continue;
                } else {
                    blocked = false;
                    start = new_start;
                }
            } else if !map.transparent[off] && j < radius {
                blocked = true;
                textbook_scan(map, cx, cy, j + 1, start, l_slope, radius, mult, light_walls);
                new_start = r_slope;
            }
        }
        if blocked {
            break;
        }
    }
}

fn textbook_shadowcasting(map: &mut MapData, x: usize, y: usize, max_radius: usize, light_walls: bool) {
    const MULT: [[i64; 4]; 8] = [
        [1, 0, 0, 1],
        [0, 1, 1, 0],
        [0, -1, 1, 0],
        [-1, 0, 0, 1],
        [-1, 0, 0, -1],
        [0, -1, -1, 0],
        [0, 1, -1, 0],
        [1, 0, 0, -1],
    ];
    map.clear_fov();
    let radius = if max_radius == 0 { map.width + map.height } else { max_radius };
    for mult in MULT {
        textbook_scan(map, x as i64, y as i64, 1, 1.0, 0.0, radius as i64, mult, light_walls);
    }
    map.set_fov(x, y, true);
}

#[test]
fn shadowcasting_agrees_with_the_textbook_form() {
    let mut seed: u64 = 0x2545_f491_4f6c_dd1d;
    let mut next = move |bound: usize| {
        seed = seed.wrapping_mul(6364136223846793005).wrapping_add(1442695040888963407);
        ((seed >> 33) as usize) % bound
    };
    let mut fov = FovRecursiveShadowCasting::new();
    for _ in 0..400 {
        let width = 1 + next(12);
        let height = 1 + next(12);
        let walls = next(5);
        let mut map = MapData::new(width, height);
        for y in 0..height {
            for x in 0..width {
                if next(10) < walls {
                    map.set_transparent(x, y, false);
                }
            }
        }
        let x = next(width);
        let y = next(height);
        let max_radius = [0, 0, 1, 2, 3, 5, 8, 30][next(8)];
        let light_walls = next(2) == 1;
        let mut expected = MapData::new(width, height);
        expected.transparent = map.transparent.clone();
        textbook_shadowcasting(&mut expected, x, y, max_radius, light_walls);
        fov.compute_fov(&mut map, x, y, max_radius, light_walls);
        assert_eq!(map.fov, expected.fov);
    }
}

#[test]
fn no_cell_behind_a_wall_on_a_ray_is_seen() {
    let directions: [(i64, i64); 8] =
        [(1, 0), (-1, 0), (0, 1), (0, -1), (1, 1), (1, -1), (-1, 1), (-1, -1)];
    let mut seed: u64 = 0x9e37_79b9_7f4a_7c15;
    let mut next = move |bound: usize| {
        seed = seed.wrapping_mul(6364136223846793005).wrapping_add(1442695040888963407);
        ((seed >> 33) as usize) % bound
    };
    for _ in 0..300 {
        let width = 2 + next(8);
        let height = 2 + next(8);
        let walls = 1 + next(5);
        let mut map = MapData::new(width, height);
        for y in 0..height {
            for x in 0..width {
                if next(10) < walls {
                    map.set_transparent(x, y, false);
                }
            }
        }
        let x = next(width);
        let y = next(height);
        let light_walls = next(2) == 1;
        let max_radius = [0, 0, 3, 6][next(4)];
        for fov in both().iter_mut() {
            fov.compute_fov(&mut map, x, y, max_radius, light_walls);
            for (dx, dy) in directions {
                let mut behind = false;
                let mut cx = x as i64 + dx;
                let mut cy = y as i64 + dy;
                while cx >= 0 && cy >= 0 && cx < width as i64 && cy < height as i64 {
                    if behind {
                        assert!(!map.is_in_fov(cx as usize, cy as usize));
                    }
                    if !map.is_transparent(cx as usize, cy as usize) {
                        behind = true;
                    }
                    cx += dx;
                    cy += dy;
                }
            }
        }
    }
}

#[test]
fn cells_with_a_clear_approach_are_seen() {
    let hall = ["#.....#", "...#...", ".#.....", ".......", ".......", ".......", "#..@..#"];
    let mut shadowcasting = FovRecursiveShadowCasting::new();
    let mut restrictive = FovRestrictive::new();
    assert_eq!(
        seen(&mut shadowcasting, &hall, 0, true),
        vec![" .. ..#", "...#...", ".#.....", ".......", ".......", ".......", "#.....#"]
    );
    assert_eq!(
        seen(&mut restrictive, &hall, 0, true),
        vec![" .. ..#", "  .#...", ".#.....", ".......", ".......", ".......", "#.....#"]
    );
    assert_eq!(
        seen(&mut shadowcasting, &hall, 0, false),
        vec![" .. .. ", "... ...", ". .....", ".......", ".......", ".......", " ..... "]
    );
    assert_eq!(
        seen(&mut restrictive, &hall, 0, false),
        vec![" .. .. ", "  . ...", ". .....", ".......", ".......", ".......", " ..... "]
    );
    for fov in both().iter_mut() {
        let (mut map, x, y) = map_from(&hall);
        fov.compute_fov(&mut map, x, y, 0, true);
        // nothing stands between the observer and the wall straight ahead
        for along in 1..6 {
            assert!(map.is_in_fov(3, 6 - along));
        }
        // and nothing is seen behind it
        assert!(!map.is_in_fov(3, 0));
    }
}
