use crate::world::{Tile, TileType, WorldMap};
use vstd::prelude::*;

verus! {

/// The largest coordinate and the largest extent that a rectangle keeps.
pub const RECT_MAX: i32 = 0x3fff_ffff;

/// The smallest coordinate that a rectangle keeps.
pub const RECT_MIN: i32 = -0x4000_0000;

/// The coordinate `v` brought into the range that a rectangle keeps.
pub open spec fn clamp_position(v: int) -> int {
    if v > RECT_MAX {
        RECT_MAX as int
    } else if v < RECT_MIN {
        RECT_MIN as int
    } else {
        v
    }
}

/// The extent `v` brought into the range that a rectangle keeps. No
/// rectangle is empty: an extent of zero becomes one.
pub open spec fn clamp_size(v: int) -> int {
    if v == 0 {
        1
    } else if v > RECT_MAX {
        RECT_MAX as int
    } else {
        v
    }
}

/// A rectangle on the screen, in pixels: its upper left corner and its
/// extent.
#[derive(Clone, Copy, Debug, PartialEq, Eq, Structural)]
pub struct Rect {
    pub x: i32,
    pub y: i32,
    pub w: u32,
    pub h: u32,
}

/// The rectangle with its corner at `(x, y)` and the extent `w` by `h`,
/// each brought into the range that a rectangle keeps.
pub open spec fn rect_spec(x: int, y: int, w: int, h: int) -> Rect {
    Rect {
        x: clamp_position(x) as i32,
        y: clamp_position(y) as i32,
        w: clamp_size(w) as u32,
        h: clamp_size(h) as u32,
    }
}

/// The square that stands for the wall tile at `pos` on a minimap whose
/// walls are `wall_size` pixels wide.
pub open spec fn wall_rect(pos: (i32, i32), wall_size: u32) -> Rect {
    rect_spec(pos.0 * wall_size, pos.1 * wall_size, wall_size as int, wall_size as int)
}

/// The squares of the walls among `tiles`, in the order of the tiles.
pub open spec fn wall_rects_spec(tiles: Seq<Tile>, wall_size: u32) -> Seq<Rect>
    decreases tiles.len(),
{
    if tiles.len() == 0 {
        Seq::empty()
    } else {
        let before = wall_rects_spec(tiles.drop_last(), wall_size);
        match tiles.last().kind {
            TileType::Wall(_) => before.push(wall_rect(tiles.last().pos, wall_size)),
            TileType::Void => before,
        }
    }
}

fn clamp(v: i64) -> (r: i32)
    ensures
        r == clamp_position(v as int),
{
    if v > RECT_MAX as i64 {
        RECT_MAX
    } else if v < RECT_MIN as i64 {
        RECT_MIN
    } else {
        v as i32
    }
}

fn clamp_extent(v: u32) -> (r: u32)
    ensures
        r == clamp_size(v as int),
{
    if v == 0 {
        1
    } else if v > RECT_MAX as u32 {
        RECT_MAX as u32
    } else {
        v
    }
}

impl Rect {
    /// The rectangle with its corner at `(x, y)` and the extent `w` by
    /// `h`. Coordinates and extents outside the range that a rectangle
    /// keeps are brought to its nearest end.
    pub fn new(x: i32, y: i32, w: u32, h: u32) -> (r: Rect)
        ensures
            r == rect_spec(x as int, y as int, w as int, h as int),
    {
        Rect { x: clamp(x as i64), y: clamp(y as i64), w: clamp_extent(w), h: clamp_extent(h) }
    }
}

/// A small map of the world, seen from above: one square for each wall.
pub struct Minimap {
    map: WorldMap,
    display: Rect,
    wall_size: u32,
}

impl Minimap {
    /// The world that the minimap shows.
    pub closed spec fn map_spec(&self) -> &WorldMap {
        &self.map
    }

    /// The part of the screen that the minimap fills.
    pub closed spec fn display_spec(&self) -> Rect {
        self.display
    }

    /// The width of one wall, in pixels.
    pub closed spec fn wall_size_spec(&self) -> u32 {
        self.wall_size
    }

    /// The minimap of `map` that fills the square of `size` pixels at
    /// `position`, with walls `wall_size` pixels wide.
    pub fn new(map: WorldMap, wall_size: u32, size: u32, position: (i32, i32)) -> (r: Self)
        ensures
            *r.map_spec() == map,
            r.wall_size_spec() == wall_size,
            r.display_spec() == rect_spec(
                position.0 as int,
                position.1 as int,
                size as int,
                size as int,
            ),
    {
        Minimap { map, display: Rect::new(position.0, position.1, size, size), wall_size }
    }

    /// The part of the screen that the minimap fills.
    pub fn viewport(&self) -> (r: Rect)
        ensures
            r == self.display_spec(),
    {
        self.display
    }

    /// The squares to fill, one for each wall of the world, in the order
    /// of its tiles. They are placed relative to the minimap's corner.
    pub fn wall_rects(&self) -> (r: Vec<Rect>)
        ensures
            r@ == wall_rects_spec(self.map_spec().tiles_spec(), self.wall_size_spec()),
    {
        let tiles = self.map.tiles();
        let mut out: Vec<Rect> = Vec::new();
        let mut i: usize = 0;
        assert(tiles@.take(0) =~= Seq::<Tile>::empty());
        while i < tiles.len()
            invariant
                0 <= i <= tiles@.len(),
                out@ == wall_rects_spec(tiles@.take(i as int), self.wall_size),
            decreases tiles@.len() - i,
        {
            let tile = tiles[i];
            proof {
                let next = tiles@.take(i + 1);
                assert(next.drop_last() =~= tiles@.take(i as int));
                assert(next.last() == tile);
            }
            match tile.kind {
                TileType::Wall(_) => {
                    assert(-0x8000_0000 * 0xffff_ffff <= tile.pos.0 * self.wall_size
                        <= 0x8000_0000 * 0xffff_ffff && -0x8000_0000 * 0xffff_ffff <= tile.pos.1
                        * self.wall_size <= 0x8000_0000 * 0xffff_ffff) by (nonlinear_arith)
                        requires
                            -0x8000_0000 <= tile.pos.0 <= 0x8000_0000,
                            -0x8000_0000 <= tile.pos.1 <= 0x8000_0000,
                            0 <= self.wall_size <= 0xffff_ffff,
                    ;
                    let x: i64 = (tile.pos.0 as i64) * (self.wall_size as i64);
                    let y: i64 = (tile.pos.1 as i64) * (self.wall_size as i64);
                    let side: u32 = clamp_extent(self.wall_size);
                    out.push(Rect { x: clamp(x), y: clamp(y), w: side, h: side });
                },
                TileType::Void => {},
            }
            i = i + 1;
        }
        assert(tiles@.take(i as int) =~= tiles@);
        out
    }
}

} // verus!
