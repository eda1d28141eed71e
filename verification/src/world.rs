use crate::display::textures::TextureMap;
use vstd::arithmetic::div_mod::lemma_fundamental_div_mod_converse;
use vstd::prelude::*;

verus! {

/// What occupies a grid cell.
#[derive(Clone, Copy, Debug, PartialEq, Eq, Structural)]
pub enum TileType {
    /// A wall, with the code of its texture.
    Wall(u8),
    /// Empty space.
    Void,
}

/// One cell of the grid: where it is and what occupies it.
#[derive(Clone, Copy, Debug)]
pub struct Tile {
    pub pos: (i32, i32),
    pub kind: TileType,
}

/// Why a map could not be built.
#[derive(Clone, Copy, Debug, PartialEq, Eq, Structural)]
pub enum MapError {
    /// A side is longer than `i32::MAX`, or the number of tiles given is
    /// not width times height.
    Dimensions,
    /// The wall at `(x, y)` carries a texture code that is not registered.
    UnknownTexture { x: i32, y: i32, code: u8 },
}

/// Whether `width` by `height` is a size that `count` tiles fill.
pub open spec fn fits(width: u32, height: u32, count: nat) -> bool {
    width <= i32::MAX && height <= i32::MAX && count == width * height
}

/// Whether the tile with index `i` is a wall whose code `codes` lacks.
pub open spec fn unknown_at(kinds: Seq<TileType>, codes: Set<u8>, i: int) -> bool {
    0 <= i < kinds.len() && kinds[i] is Wall && !codes.contains(kinds[i]->Wall_0)
}

/// A rectangular grid of tiles, stored row by row. It does not change once
/// built.
pub struct WorldMap {
    width: u32,
    height: u32,
    layout: Vec<Tile>,
}

impl WorldMap {
    /// Every cell of the rectangle has its tile, at the index of its row
    /// and column.
    #[verifier::type_invariant]
    pub closed spec fn wf(&self) -> bool {
        &&& fits(self.width, self.height, self.layout@.len())
        &&& forall|i: int|
            0 <= i < self.layout@.len() ==> (#[trigger] self.layout@[i]).pos == (
                (i % self.width as int) as i32,
                (i / self.width as int) as i32,
            )
    }

    /// The number of columns.
    pub closed spec fn cols(&self) -> int {
        self.width as int
    }

    /// The number of rows.
    pub closed spec fn rows(&self) -> int {
        self.height as int
    }

    /// The tiles, row by row.
    pub closed spec fn tiles_spec(&self) -> Seq<Tile> {
        self.layout@
    }

    /// Whether the cell `(x, y)` lies inside the grid.
    pub open spec fn contains(&self, x: int, y: int) -> bool {
        0 <= x < self.cols() && 0 <= y < self.rows()
    }

    /// What occupies the cell `(x, y)`: its tile's kind inside the grid,
    /// empty space outside.
    pub open spec fn kind_at(&self, x: int, y: int) -> TileType {
        if self.contains(x, y) {
            self.tiles_spec()[y * self.cols() + x].kind
        } else {
            TileType::Void
        }
    }

    /// What validity says of the stored tiles.
    pub proof fn lemma_layout(&self)
        requires
            self.wf(),
        ensures
            0 <= self.cols() <= i32::MAX,
            0 <= self.rows() <= i32::MAX,
            self.tiles_spec().len() == self.cols() * self.rows(),
            forall|x: int, y: int|
                self.contains(x, y) ==> 0 <= y * self.cols() + x < self.tiles_spec().len() && (
                #[trigger] self.tiles_spec()[y * self.cols() + x]).pos == (x as i32, y as i32),
    {
        let w = self.cols();
        let h = self.rows();
        assert forall|x: int, y: int| self.contains(x, y) implies 0 <= y * w + x
            < self.tiles_spec().len() && (#[trigger] self.tiles_spec()[y * w + x]).pos == (
            x as i32,
            y as i32,
        ) by {
            lemma_index(w, h, x, y);
            lemma_fundamental_div_mod_converse(y * w + x, w, y, x);
        }
    }

    /// Builds the grid of `width` by `height` cells from the kinds of its
    /// tiles, given row by row. Every wall must carry a code that
    /// `textures` has registered.
    pub fn new<T>(width: u32, height: u32, kinds: Vec<TileType>, textures: &TextureMap<T>) -> (r:
        Result<WorldMap, MapError>)
        ensures
            !fits(width, height, kinds@.len()) ==> r == Err::<WorldMap, MapError>(
                MapError::Dimensions,
            ),
            fits(width, height, kinds@.len()) ==> match r {
                Ok(m) => {
                    &&& m.wf()
                    &&& m.cols() == width
                    &&& m.rows() == height
                    &&& m.tiles_spec().len() == kinds@.len()
                    &&& forall|i: int|
                        0 <= i < kinds@.len() ==> (#[trigger] m.tiles_spec()[i]).kind == kinds@[i]
                    &&& forall|i: int| !unknown_at(kinds@, textures@.dom(), i)
                },
                Err(MapError::UnknownTexture { x, y, code }) => {
                    &&& 0 <= x < width
                    &&& 0 <= y < height
                    &&& unknown_at(kinds@, textures@.dom(), y * width + x)
                    &&& kinds@[y * width + x] == TileType::Wall(code)
                    &&& forall|i: int| 0 <= i < y * width + x ==> !unknown_at(kinds@, textures@.dom(), i)
                },
                Err(MapError::Dimensions) => false,
            },
    {
        if width > 0x7fff_ffff || height > 0x7fff_ffff {
            return Err(MapError::Dimensions);
        }
        assert(width * height <= 0x7fff_ffff * 0x7fff_ffff) by (nonlinear_arith)
            requires
                0 <= width <= 0x7fff_ffff,
                0 <= height <= 0x7fff_ffff,
        ;
        let count: u64 = (width as u64) * (height as u64);
        if kinds.len() as u64 != count {
            return Err(MapError::Dimensions);
        }
        proof {
            if 0 < kinds@.len() {
                assert(width > 0 && height > 0) by (nonlinear_arith)
                    requires
                        0 < width * height,
                        0 <= width,
                        0 <= height,
                ;
            }
        }
        let mut layout: Vec<Tile> = Vec::new();
        let mut x: u32 = 0;
        let mut y: u32 = 0;
        let mut i: usize = 0;
        while i < kinds.len()
            invariant
                fits(width, height, kinds@.len()),
                0 <= i <= kinds@.len(),
                i == y * width + x,
                x < width || (x == 0 && i == kinds@.len()),
                y <= height,
                i < kinds@.len() ==> y < height,
                layout@.len() == i,
                forall|j: int|
                    0 <= j < i ==> (#[trigger] layout@[j]).pos == (
                        (j % width as int) as i32,
                        (j / width as int) as i32,
                    ),
                forall|j: int| 0 <= j < i ==> (#[trigger] layout@[j]).kind == kinds@[j],
                forall|j: int| 0 <= j < i ==> !unknown_at(kinds@, textures@.dom(), j),
            decreases kinds@.len() - i,
        {
            let kind = kinds[i];
            if let TileType::Wall(code) = kind {
                if !textures.contains(code) {
                    return Err(MapError::UnknownTexture { x: x as i32, y: y as i32, code });
                }
            }
            proof {
                lemma_fundamental_div_mod_converse(i as int, width as int, y as int, x as int);
            }
            layout.push(Tile { pos: (x as i32, y as i32), kind });
            i = i + 1;
            if x + 1 < width {
                x = x + 1;
            } else {
                proof {
                    if i < kinds@.len() {
                        lemma_next_row(width as int, height as int, y as int);
                    }
                    assert((y + 1) * width == y * width + width) by (nonlinear_arith);
                }
                x = 0;
                y = y + 1;
            }
        }
        Ok(WorldMap { width, height, layout })
    }

    /// The number of columns.
    pub fn width(&self) -> (w: u32)
        ensures
            w == self.cols(),
    {
        self.width
    }

    /// The number of rows.
    pub fn height(&self) -> (h: u32)
        ensures
            h == self.rows(),
    {
        self.height
    }

    /// The tiles, row by row.
    pub fn tiles(&self) -> (t: &Vec<Tile>)
        ensures
            t@ == self.tiles_spec(),
    {
        &self.layout
    }

    /// What occupies the cell `(x, y)`. Outside the grid all is empty
    /// space.
    pub fn tile_at(&self, x: i32, y: i32) -> (k: TileType)
        ensures
            k == self.kind_at(x as int, y as int),
    {
        self.kind_in(x as i64, y as i64)
    }

    /// What occupies the cell `(x, y)`, for coordinates of any size.
    pub fn kind_in(&self, x: i64, y: i64) -> (k: TileType)
        ensures
            k == self.kind_at(x as int, y as int),
    {
        proof {
            use_type_invariant(self);
        }
        if 0 <= x && x < self.width as i64 && 0 <= y && y < self.height as i64 {
            proof {
                lemma_index(self.width as int, self.height as int, x as int, y as int);
            }
            let i: i64 = y * (self.width as i64) + x;
            let count: usize = self.layout.len();
            assert(i < count);
            self.layout[i as usize].kind
        } else {
            TileType::Void
        }
    }
}

impl Clone for WorldMap {
    fn clone(&self) -> (r: Self)
        ensures
            r.wf(),
            r.cols() == self.cols(),
            r.rows() == self.rows(),
            r.tiles_spec() == self.tiles_spec(),
    {
        proof {
            use_type_invariant(self);
        }
        let mut layout: Vec<Tile> = Vec::new();
        let mut i: usize = 0;
        while i < self.layout.len()
            invariant
                0 <= i <= self.layout@.len(),
                layout@ == self.layout@.take(i as int),
            decreases self.layout@.len() - i,
        {
            layout.push(self.layout[i]);
            i = i + 1;
            assert(layout@ =~= self.layout@.take(i as int));
        }
        assert(layout@ =~= self.layout@);
        WorldMap { width: self.width, height: self.height, layout }
    }
}

/// The index of a cell inside a grid is inside the grid's storage.
proof fn lemma_index(w: int, h: int, x: int, y: int)
    requires
        0 <= x < w,
        0 <= y < h,
    ensures
        0 <= y * w <= y * w + x < w * h,
        w <= i32::MAX && h <= i32::MAX ==> w * h <= 0x3fff_ffff_0000_0001,
{
    assert(0 <= y * w && y * w + w <= h * w && h * w == w * h) by (nonlinear_arith)
        requires
            0 <= y < h,
            0 < w,
    ;
    if w <= i32::MAX && h <= i32::MAX {
        assert(w * h <= 0x7fff_ffff * 0x7fff_ffff) by (nonlinear_arith)
            requires
                0 < w <= 0x7fff_ffff,
                0 < h <= 0x7fff_ffff,
        ;
    }
}

/// A row that is full and not the last is followed by another.
proof fn lemma_next_row(w: int, h: int, y: int)
    requires
        0 < w,
        0 <= y < h,
        y * w + w < w * h,
    ensures
        y + 1 < h,
{
    assert(y + 1 < h) by (nonlinear_arith)
        requires
            0 < w,
            0 <= y < h,
            y * w + w < w * h,
    ;
}

} // verus!
