//! The decoded map: tilesets, layers, objects and their properties.

use vstd::prelude::*;

verus! {

/// How the grid of a map is projected.
#[derive(Clone, Copy, Debug, PartialEq, Eq, Structural)]
pub enum Orientation {
    Orthogonal,
    Isometric,
    Staggered,
    Hexagonal,
}

/// A single-precision number, carried by its bit pattern. The library hands
/// such numbers on and never computes with them.
#[derive(Clone, Copy, Debug, PartialEq, Eq, Structural)]
pub struct Scalar {
    pub bits: u32,
}

impl Scalar {
    /// The number with the given bit pattern.
    pub fn from_bits(bits: u32) -> (r: Scalar)
        ensures
            r.bits == bits,
    {
        Scalar { bits }
    }

    /// The bit pattern of the number.
    pub fn to_bits(&self) -> (r: u32)
        ensures
            r == self.bits,
    {
        self.bits
    }
}

/// A colour by its four channels.
#[derive(Clone, Copy, Debug, PartialEq, Eq, Structural)]
pub struct Color {
    pub red: u8,
    pub green: u8,
    pub blue: u8,
    pub alpha: u8,
}

/// The value of a property.
#[derive(Clone, Debug, PartialEq, Eq)]
pub enum PropertyValue {
    BoolValue(bool),
    /// A number with a fraction, in its decimal text.
    FloatValue(String),
    IntValue(i32),
    StringValue(String),
    ColorValue(Color),
    /// A value of any other kind (a file, a reference to an object, a class).
    Unsupported,
}

/// A named value attached to a map, a layer or an object.
#[derive(Clone, Debug, PartialEq, Eq)]
pub struct Property {
    pub key: String,
    pub value: PropertyValue,
}

/// The image of one tile of a tileset that holds an image per tile.
#[derive(Clone, Debug, PartialEq, Eq)]
pub struct TileImage {
    pub tile_id: u32,
    pub source: String,
}

/// A tileset: either one shared image, or an image per tile.
#[derive(Clone, Debug, PartialEq, Eq)]
pub struct Tileset {
    pub tile_width: u32,
    pub tile_height: u32,
    pub spacing: u32,
    /// The shared image, if the tileset has one.
    pub image: Option<String>,
    /// The tiles that have an image of their own, in any order.
    pub tile_images: Vec<TileImage>,
}

/// The place at which the image of tile `tile_id` goes into a list that
/// rises by tile id: behind the last image whose tile id is not greater.
pub open spec fn place_by_id(images: Seq<TileImage>, tile_id: u32) -> int
    decreases images.len(),
{
    if images.len() == 0 {
        0
    } else if images.last().tile_id <= tile_id {
        images.len() as int
    } else {
        place_by_id(images.drop_last(), tile_id)
    }
}

/// The images by rising tile id. Images of one tile keep their order.
pub open spec fn by_tile_id(images: Seq<TileImage>) -> Seq<TileImage>
    decreases images.len(),
{
    if images.len() == 0 {
        Seq::empty()
    } else {
        let front = by_tile_id(images.drop_last());
        front.insert(place_by_id(front, images.last().tile_id), images.last())
    }
}

impl Tileset {
    /// The images of single tiles by rising tile id.
    pub fn images_by_tile_id(&self) -> (r: Vec<TileImage>)
        ensures
            r@ == by_tile_id(self.tile_images@),
    {
        let mut sorted: Vec<TileImage> = Vec::new();
        let mut k: usize = 0;
        while k < self.tile_images.len()
            invariant
                k <= self.tile_images.len(),
                sorted@ == by_tile_id(self.tile_images@.take(k as int)),
            decreases self.tile_images.len() - k,
        {
            let image = &self.tile_images[k];
            let mut p: usize = sorted.len();
            proof {
                assert(sorted@.take(p as int) =~= sorted@);
            }
            while p > 0 && sorted[p - 1].tile_id > image.tile_id
                invariant
                    p <= sorted.len(),
                    place_by_id(sorted@, image.tile_id) == place_by_id(sorted@.take(p as int), image.tile_id),
                decreases p,
            {
                proof {
                    assert(sorted@.take(p as int).drop_last() =~= sorted@.take(p - 1));
                }
                p -= 1;
            }
            proof {
                assert(self.tile_images@.take(k + 1).drop_last() =~= self.tile_images@.take(k as int));
            }
            sorted.insert(p, TileImage { tile_id: image.tile_id, source: image.source.clone() });
            k += 1;
        }
        proof {
            assert(self.tile_images@.take(self.tile_images.len() as int) =~= self.tile_images@);
        }
        sorted
    }
}

/// A tile placed in a cell of a grid.
#[derive(Clone, Copy, Debug, PartialEq, Eq, Structural)]
pub struct TileCell {
    pub tileset_index: usize,
    pub tile_id: u32,
    pub flip_h: bool,
    pub flip_v: bool,
    pub flip_d: bool,
}

/// A finite grid of cells, stored row by row from the top row down.
#[derive(Clone, Debug, PartialEq, Eq)]
pub struct TileGrid {
    pub width: u32,
    pub height: u32,
    pub cells: Vec<Option<TileCell>>,
}

impl TileGrid {
    /// The cell at column `x` of row `y`; none outside the grid, and none
    /// where the stored cells end early.
    pub open spec fn cell(&self, x: int, y: int) -> Option<TileCell> {
        if 0 <= x < self.width && 0 <= y < self.height && x + y * self.width < self.cells@.len() {
            self.cells@[x + y * self.width]
        } else {
            None
        }
    }

    /// The cell at column `x` of row `y`.
    pub fn get_tile(&self, x: u32, y: u32) -> (r: Option<TileCell>)
        ensures
            r == self.cell(x as int, y as int),
    {
        if x < self.width && y < self.height {
            assert(y as int * self.width as int <= 0xffff_ffff * 0xffff_ffff) by (nonlinear_arith)
                requires
                    0 <= y <= 0xffff_ffff,
                    0 <= self.width <= 0xffff_ffff,
            ;
            let index: u64 = x as u64 + y as u64 * self.width as u64;
            if index < self.cells.len() as u64 {
                self.cells[index as usize]
            } else {
                None
            }
        } else {
            None
        }
    }
}

/// A point object of an object layer.
#[derive(Clone, Debug, PartialEq, Eq)]
pub struct Object {
    pub name: String,
    pub x: Scalar,
    pub y: Scalar,
    pub properties: Vec<Property>,
}

/// What a layer holds.
#[derive(Clone, Debug, PartialEq, Eq)]
pub enum LayerBody {
    /// A finite grid of tiles.
    Tiles(TileGrid),
    /// A list of objects.
    Objects(Vec<Object>),
    /// Anything else, such as a grid without bounds: not materialised.
    Unsupported,
}

/// One layer of a map. Its index is its position among the layers.
#[derive(Clone, Debug, PartialEq, Eq)]
pub struct Layer {
    pub id: u32,
    pub name: String,
    pub offset_x: Scalar,
    pub offset_y: Scalar,
    pub properties: Vec<Property>,
    pub body: LayerBody,
}

/// A decoded map.
#[derive(Clone, Debug, PartialEq, Eq)]
pub struct TileMap {
    pub orientation: Orientation,
    pub width: u32,
    pub height: u32,
    pub tile_width: u32,
    pub tile_height: u32,
    pub tilesets: Vec<Tileset>,
    pub layers: Vec<Layer>,
    pub properties: Vec<Property>,
}

/// The row of the scene in which row `row` of a grid of `height` rows is
/// placed: the scene counts rows upwards, a map downwards.
pub open spec fn mapped_row_of(height: int, row: int) -> int {
    height - 1 - row
}

/// The scene row of a map row.
pub fn mapped_row(height: u32, row: u32) -> (r: u32)
    requires
        row < height,
    ensures
        r == mapped_row_of(height as int, row as int),
        r < height,
{
    height - 1 - row
}

/// Rows are mirrored: the row of the scene for a map row lies in the grid,
/// the first map row is the last scene row and the last the first, and
/// mirroring twice gives the row back. With one row, that row is its own
/// mirror.
pub proof fn lemma_rows_mirror(height: int, row: int)
    requires
        0 <= row < height,
    ensures
        0 <= mapped_row_of(height, row) < height,
        mapped_row_of(height, 0) == height - 1,
        mapped_row_of(height, height - 1) == 0,
        mapped_row_of(height, mapped_row_of(height, row)) == row,
        height == 1 ==> mapped_row_of(height, row) == row,
{
}

} // verus!
