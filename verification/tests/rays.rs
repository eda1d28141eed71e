use multiplayer_fps_v3::display::textures::{Color, TextureMap};
use multiplayer_fps_v3::entities::{Entity, EntityType, ObserverState};
use multiplayer_fps_v3::fixed::{HALF, ONE, PI, TWO_PI};
use multiplayer_fps_v3::rays::{
    cast, cast_rays, ray_angle, ray_angles, sample, HitRecord, Side, MAX_DISTANCE,
};
use multiplayer_fps_v3::world::{TileType, WorldMap};

fn registry() -> TextureMap<u32> {
    let mut textures: TextureMap<u32> = TextureMap::new();
    textures.add_color(1, Color { r: 200, g: 0, b: 0, a: 255 }).unwrap();
    textures.add_color(2, Color { r: 0, g: 200, b: 0, a: 255 }).unwrap();
    textures.add_texture(3, 17).unwrap();
    textures
}

/// A room of `width` by `height` cells with a wall one cell thick all round.
fn room(width: u32, height: u32, code: u8) -> WorldMap {
    let mut kinds = Vec::new();
    for y in 0..height {
        for x in 0..width {
            if x == 0 || y == 0 || x == width - 1 || y == height - 1 {
                kinds.push(TileType::Wall(code));
            } else {
                kinds.push(TileType::Void);
            }
        }
    }
    WorldMap::new(width, height, kinds, &registry()).unwrap()
}

fn open_field(width: u32, height: u32) -> WorldMap {
    let kinds = vec![TileType::Void; (width * height) as usize];
    WorldMap::new(width, height, kinds, &registry()).unwrap()
}

fn unit(angle: i64) -> (i64, i64) {
    let a = angle as f64 / ONE as f64;
    ((a.cos() * ONE as f64).round() as i64, (a.sin() * ONE as f64).round() as i64)
}

fn miss() -> HitRecord {
    HitRecord { distance: MAX_DISTANCE, texture_code: 0, wall_u: 0, side: Side::Vertical }
}

#[test]
fn three_by_three_room_center_ray() {
    let map = room(3, 3, 1);
    let observer = ObserverState::new((ONE + HALF, ONE + HALF), 0, PI / 3).unwrap();
    let angles = ray_angles(&observer, 7);
    assert_eq!(angles.len(), 7);
    assert_eq!(angles[3], 0);
    let directions: Vec<(i64, i64)> = angles.iter().map(|a| unit(*a)).collect();
    assert_eq!(directions[3], (ONE, 0));
    let rays = sample(&observer, &map, &directions);
    assert_eq!(rays.records.len(), 7);
    assert_eq!(rays.records[3].distance, HALF);
    assert_eq!(rays.records[3].side, Side::Vertical);
    assert_eq!(rays.records[3].texture_code, 1);
    assert_eq!(rays.records[3].wall_u, HALF);
}

#[test]
fn room_center_is_half_the_room_from_each_wall() {
    let map = room(5, 5, 1);
    let center = (2 * ONE + HALF, 2 * ONE + HALF);
    let half_room = ONE + HALF;
    for direction in [(ONE, 0), (-ONE, 0), (0, ONE), (0, -ONE)] {
        let hit = cast(center, direction, &map);
        assert_eq!(hit.distance, half_room);
        assert_eq!(hit.wall_u, HALF);
        assert_eq!(hit.texture_code, 1);
    }
    assert_eq!(cast(center, (0, -ONE), &map).side, Side::Horizontal);
    assert_eq!(cast(center, (0, ONE), &map).side, Side::Horizontal);
    assert_eq!(cast(center, (ONE, 0), &map).side, Side::Vertical);
    assert_eq!(cast(center, (-ONE, 0), &map).side, Side::Vertical);
}

#[test]
fn larger_room_center_is_half_the_room_from_each_wall() {
    let map = room(7, 7, 2);
    let center = (3 * ONE + HALF, 3 * ONE + HALF);
    for direction in [(ONE, 0), (-ONE, 0), (0, ONE), (0, -ONE)] {
        let hit = cast(center, direction, &map);
        assert_eq!(hit.distance, 2 * ONE + HALF);
        assert_eq!(hit.texture_code, 2);
    }
}

#[test]
fn rays_mirrored_about_the_facing_axis_go_equally_far() {
    let map = room(9, 7, 1);
    let origin = (2 * ONE + 1234, 3 * ONE + HALF);
    let mut angle = 0;
    while angle < PI {
        let (dx, dy) = unit(angle);
        let up = cast(origin, (dx, dy), &map);
        let down = cast(origin, (dx, -dy), &map);
        assert_eq!(up.distance, down.distance);
        assert_eq!(up.side, down.side);
        assert_eq!(up.texture_code, down.texture_code);
        angle += 997;
    }
}

#[test]
fn records_are_never_negative_and_stay_on_the_wall_face() {
    let map = room(6, 5, 1);
    let origins = [(ONE, ONE), (ONE + 1, 2 * ONE + 7), (4 * ONE + 65535, 3 * ONE + 65535), (3 * ONE, 2 * ONE)];
    for origin in origins {
        let mut angle = 0;
        while angle < TWO_PI {
            let hit = cast(origin, unit(angle), &map);
            assert!(hit.distance >= 0);
            assert!(hit.distance < MAX_DISTANCE);
            assert!(hit.wall_u >= 0 && hit.wall_u < ONE);
            angle += 1009;
        }
    }
}

#[test]
fn sample_gives_one_record_for_each_column() {
    let map = room(4, 4, 1);
    let observer = ObserverState::new((ONE + HALF, ONE + HALF), 1000, ONE).unwrap();
    for n in [1u32, 2, 7, 64, 321] {
        let angles = ray_angles(&observer, n);
        assert_eq!(angles.len(), n as usize);
        let directions: Vec<(i64, i64)> = angles.iter().map(|a| unit(*a)).collect();
        let rays = sample(&observer, &map, &directions);
        assert_eq!(rays.records.len(), n as usize);
        for i in 0..n as usize {
            assert_eq!(rays.records[i], cast(observer.position(), directions[i], &map));
        }
    }
    let none = sample(&observer, &map, &Vec::new());
    assert_eq!(none.records.len(), 0);
    assert_eq!(ray_angles(&observer, 0).len(), 0);
}

#[test]
fn fan_across_a_flat_wall_is_free_of_fisheye() {
    let map = room(12, 9, 1);
    let origin = (ONE + HALF, 4 * ONE + HALF);
    let base = 11 * ONE - origin.0;
    let mut angle = -19000;
    while angle <= 19000 {
        let (dx, dy) = unit(angle);
        let hit = cast(origin, (dx, dy), &map);
        assert_eq!(hit.side, Side::Vertical);
        assert_eq!(hit.distance, base * ONE / dx);
        angle += 500;
    }
    assert_eq!(cast(origin, (ONE, 0), &map).distance, base);
    // A quarter of a unit across for each unit ahead: the slant is longer than the base.
    let slant = cast(origin, (63571, 15893), &map);
    assert_eq!(slant.side, Side::Vertical);
    assert_eq!(slant.distance, 641836);
}

#[test]
fn origin_on_a_grid_line_gives_the_same_record_every_time() {
    let map = room(5, 5, 1);
    // On the line between columns 1 and 2, looking west: the line is crossed
    // at once, and the wall of column 0 lies one cell further on.
    let on_line = (2 * ONE, 2 * ONE + HALF);
    let west = cast(on_line, (-ONE, 0), &map);
    assert_eq!(west, HitRecord { distance: ONE, texture_code: 1, wall_u: HALF, side: Side::Vertical });
    let east = cast(on_line, (ONE, 0), &map);
    assert_eq!(east, HitRecord { distance: 2 * ONE, texture_code: 1, wall_u: HALF, side: Side::Vertical });
    // On the face of the west wall, looking west: the wall is met at distance zero.
    let on_face = cast((ONE, 2 * ONE + HALF), (-ONE, 0), &map);
    assert_eq!(on_face.distance, 0);
    // On a corner of the grid, looking along the diagonal.
    let corner = (2 * ONE, 2 * ONE);
    let first = cast(corner, (46341, 46341), &map);
    for _ in 0..10 {
        assert_eq!(cast(corner, (46341, 46341), &map), first);
    }
    assert_eq!(first.side, Side::Horizontal);
    assert_eq!(first.distance, 2 * ONE * ONE / 46341);
}

#[test]
fn ties_go_to_the_horizontal_line() {
    let map = room(5, 5, 1);
    let hit = cast((3 * ONE + HALF, 3 * ONE + HALF), (ONE, ONE), &map);
    assert_eq!(hit.side, Side::Horizontal);
    assert_eq!(hit.distance, HALF);
    assert_eq!(hit.wall_u, 0);
}

#[test]
fn ray_without_direction_finds_nothing() {
    let map = room(5, 5, 1);
    assert_eq!(cast((2 * ONE, 2 * ONE), (0, 0), &map), miss());
}

#[test]
fn ray_from_outside_the_grid_finds_nothing() {
    let map = room(5, 5, 1);
    assert_eq!(cast((-ONE, 2 * ONE), (ONE, 0), &map), miss());
    assert_eq!(cast((5 * ONE, 2 * ONE), (-ONE, 0), &map), miss());
    assert_eq!(cast((2 * ONE, -1), (0, ONE), &map), miss());
    assert_eq!(cast((i64::MAX, i64::MIN), (i64::MIN, i64::MAX), &map), miss());
}

#[test]
fn map_without_area_has_no_walls() {
    let map = WorldMap::new(0, 0, Vec::new(), &registry()).unwrap();
    assert_eq!(cast((0, 0), (ONE, 0), &map), miss());
    assert_eq!(cast((ONE, ONE), (0, -ONE), &map), miss());
}

#[test]
fn ray_that_leaves_the_grid_finds_nothing() {
    let map = open_field(4, 3);
    let mut angle = 0;
    while angle < TWO_PI {
        assert_eq!(cast((2 * ONE + 5, ONE + 9), unit(angle), &map), miss());
        angle += 4001;
    }
}

#[test]
fn short_directions_count_distance_in_their_own_length() {
    let map = room(5, 5, 1);
    let origin = (2 * ONE + HALF, 2 * ONE + HALF);
    assert_eq!(cast(origin, (1, 0), &map).distance, (ONE + HALF) * ONE);
    let mut kinds = vec![TileType::Void; 3];
    kinds[2] = TileType::Wall(1);
    let strip = WorldMap::new(3, 1, kinds, &registry()).unwrap();
    assert_eq!(cast((HALF, HALF), (ONE, 0), &strip).distance, ONE + HALF);
}

#[test]
fn long_directions_count_distance_in_their_own_length() {
    let map = room(5, 5, 1);
    let origin = (2 * ONE + HALF, 2 * ONE + HALF);
    let hit = cast(origin, (2 * ONE, 0), &map);
    assert_eq!(hit.distance, (ONE + HALF) / 2);
    let huge = cast(origin, (i64::MIN, i64::MIN), &map);
    assert_eq!(huge.side, Side::Horizontal);
    assert_eq!(huge.distance, 0);
}

#[test]
fn wall_coordinate_follows_the_hit_point() {
    let map = room(8, 8, 3);
    // From (1.25, 1.5) along (1, 0.5): the east wall's face at x = 7 is 5.75
    // ahead, and the ray has then climbed 2.875, to y = 4.375.
    let hit = cast((ONE + ONE / 4, ONE + HALF), (ONE, HALF), &map);
    assert_eq!(hit.side, Side::Vertical);
    assert_eq!(hit.distance, 5 * ONE + 3 * ONE / 4);
    assert_eq!(hit.wall_u, 3 * ONE / 8);
    assert_eq!(hit.texture_code, 3);
    // The mirrored ray falls to y = -1.375, but the north wall's face at
    // y = 1 stops it after 0.5 down, 1.0 along the ray, at x = 2.25.
    let down = cast((ONE + ONE / 4, ONE + HALF), (ONE, -HALF), &map);
    assert_eq!(down.side, Side::Horizontal);
    assert_eq!(down.distance, ONE);
    assert_eq!(down.wall_u, ONE / 4);
}

#[test]
fn column_angles_cut_the_field_of_view_into_equal_slices() {
    let observer = ObserverState::new((0, 0), 0, ONE).unwrap();
    // Four columns over one radian: the middles lie at -3/8, -1/8, 1/8, 3/8.
    assert_eq!(ray_angles(&observer, 4), vec![TWO_PI - 24576, TWO_PI - 8192, 8192, 24576]);
    assert_eq!(ray_angle(&observer, 0, 1), 0);
    let turned = ObserverState::new((0, 0), 100000, 3).unwrap();
    // (2 * 2 * 100000 - 2 * 3 + 3 * 1) / 4 = 399997 / 4, rounded down.
    assert_eq!(ray_angle(&turned, 0, 2), 99999);
    assert_eq!(ray_angle(&turned, 1, 2), 100000);
    let late = ObserverState::new((0, 0), TWO_PI - 1, PI - 1).unwrap();
    let angles = ray_angles(&late, 1000);
    for a in angles {
        assert!(a >= 0 && a < TWO_PI);
    }
}

#[test]
fn nearer_walls_stand_taller() {
    let one_away = HitRecord { distance: ONE, texture_code: 1, wall_u: 0, side: Side::Vertical };
    assert_eq!(one_away.strip_height(1024), 1024);
    let two_away = HitRecord { distance: 2 * ONE, texture_code: 1, wall_u: 0, side: Side::Vertical };
    assert_eq!(two_away.strip_height(1024), 512);
    let half_away = HitRecord { distance: HALF, texture_code: 1, wall_u: 0, side: Side::Vertical };
    assert_eq!(half_away.strip_height(1024), 2048);
    let three_away = HitRecord { distance: 3 * ONE, texture_code: 1, wall_u: 0, side: Side::Vertical };
    assert_eq!(three_away.strip_height(1000), 333);
    assert_eq!(miss().strip_height(1024), 0);
    let touching = HitRecord { distance: 0, texture_code: 1, wall_u: 0, side: Side::Vertical };
    assert_eq!(touching.strip_height(1024), 1024 * 65536);
    assert_eq!(touching.strip_height(u32::MAX), u32::MAX);
    assert_eq!(one_away.strip_height(0), 0);
}

#[test]
fn texture_column_follows_the_wall_coordinate() {
    let at = |wall_u: i64| HitRecord { distance: ONE, texture_code: 1, wall_u, side: Side::Vertical };
    assert_eq!(at(0).texture_column(64), 0);
    assert_eq!(at(HALF).texture_column(64), 32);
    assert_eq!(at(ONE - 1).texture_column(64), 63);
    assert_eq!(at(ONE / 3).texture_column(100), 33);
    assert_eq!(at(ONE - 1).texture_column(u32::MAX), 4294901759);
    assert_eq!(at(ONE - 1).texture_column(0), 0);
}

struct Guard {
    fov: i64,
}

impl Entity for Guard {
    fn get_type(&self) -> EntityType {
        EntityType::Living
    }

    fn position(&self) -> (i64, i64) {
        (ONE + HALF, ONE + HALF)
    }

    fn direction(&self) -> i64 {
        TWO_PI
    }

    fn get_fov(&self) -> i64 {
        self.fov
    }
}

#[test]
fn entities_cast_their_rays_from_where_they_stand() {
    let map = room(3, 3, 2);
    let guard = Guard { fov: PI / 3 };
    let directions = vec![(ONE, 0), (0, ONE), (-ONE, 0), (0, -ONE), (ONE, ONE)];
    let rays = cast_rays(&guard, &map, &directions).unwrap();
    assert_eq!(rays.records.len(), 5);
    for (i, d) in directions.iter().enumerate() {
        assert_eq!(rays.records[i], cast((ONE + HALF, ONE + HALF), *d, &map));
        assert_eq!(rays.records[i].texture_code, 2);
    }
    assert_eq!(rays.records[0].distance, HALF);
    assert_eq!(rays.records[0].side, Side::Vertical);
    assert_eq!(rays.records[1].side, Side::Horizontal);
    assert!(cast_rays(&Guard { fov: PI }, &map, &directions).is_none());
}
