use multiplayer_fps_v3::display::minimap::{Minimap, Rect, RECT_MAX, RECT_MIN};
use multiplayer_fps_v3::display::textures::{Color, TextureMap};
use multiplayer_fps_v3::world::{TileType, WorldMap};

fn world() -> WorldMap {
    let mut textures: TextureMap<u32> = TextureMap::new();
    textures.add_color(1, Color { r: 1, g: 1, b: 1, a: 1 }).unwrap();
    let kinds = vec![
        TileType::Wall(1), TileType::Void, TileType::Wall(1),
        TileType::Void, TileType::Void, TileType::Wall(1),
    ];
    WorldMap::new(3, 2, kinds, &textures).unwrap()
}

#[test]
fn rectangles_are_clamped() {
    assert_eq!(Rect::new(3, -4, 5, 6), Rect { x: 3, y: -4, w: 5, h: 6 });
    assert_eq!(Rect::new(0, 0, 0, 0), Rect { x: 0, y: 0, w: 1, h: 1 });
    assert_eq!(
        Rect::new(i32::MAX, i32::MIN, u32::MAX, 0x4000_0000),
        Rect { x: RECT_MAX, y: RECT_MIN, w: 0x3fff_ffff, h: 0x3fff_ffff }
    );
    assert_eq!(Rect::new(RECT_MAX, RECT_MIN, 0x3fff_ffff, 1), Rect { x: RECT_MAX, y: RECT_MIN, w: 0x3fff_ffff, h: 1 });
}

#[test]
fn minimap_fills_a_square() {
    let minimap = Minimap::new(world(), 33, 800, (10, 20));
    assert_eq!(minimap.viewport(), Rect { x: 10, y: 20, w: 800, h: 800 });
    let empty = Minimap::new(world(), 33, 0, (i32::MAX, 0));
    assert_eq!(empty.viewport(), Rect { x: RECT_MAX, y: 0, w: 1, h: 1 });
}

#[test]
fn each_wall_gets_its_square() {
    let minimap = Minimap::new(world(), 33, 800, (0, 0));
    assert_eq!(
        minimap.wall_rects(),
        vec![
            Rect { x: 0, y: 0, w: 33, h: 33 },
            Rect { x: 66, y: 0, w: 33, h: 33 },
            Rect { x: 66, y: 33, w: 33, h: 33 },
        ]
    );
}

#[test]
fn squares_of_any_size_stay_in_range() {
    let huge = Minimap::new(world(), u32::MAX, 800, (0, 0));
    assert_eq!(
        huge.wall_rects(),
        vec![
            Rect { x: 0, y: 0, w: 0x3fff_ffff, h: 0x3fff_ffff },
            Rect { x: RECT_MAX, y: 0, w: 0x3fff_ffff, h: 0x3fff_ffff },
            Rect { x: RECT_MAX, y: RECT_MAX, w: 0x3fff_ffff, h: 0x3fff_ffff },
        ]
    );
    let flat = Minimap::new(world(), 0, 800, (0, 0));
    assert_eq!(flat.wall_rects()[1], Rect { x: 0, y: 0, w: 1, h: 1 });
}
