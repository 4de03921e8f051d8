//! From a decoded map to the map asset: a texture layout for every tileset,
//! and for the tilesets with an image per tile the place of each tile's image.

use vstd::prelude::*;
use vstd::string::*;
use crate::model::{by_tile_id, Layer, LayerBody, TileCell, TileGrid, TileImage, TileMap, Tileset};

verus! {

/// What `std::path::Path::parent` returns for a path, as text.
pub uninterp spec fn parent_of(path: Seq<char>) -> Option<Seq<char>>;

/// What `std::path::Path::join` returns for a directory and a path, as text.
pub uninterp spec fn joined(directory: Seq<char>, path: Seq<char>) -> Seq<char>;

/// Calls `std::path::Path::parent` and turns the directory it finds back into
/// text. Nothing is proved of it: the result is only given the name
/// [`parent_of`].
#[verifier::external_body]
fn parent_directory(path: &str) -> (r: Option<String>)
    ensures
        r matches Some(d) ==> parent_of(path@) == Some(d@),
        r is None ==> parent_of(path@) is None,
{
    match std::path::Path::new(path).parent() {
        Some(directory) => Some(directory.to_string_lossy().into_owned()),
        None => None,
    }
}

/// Calls `std::path::Path::join` and turns the path it builds back into text.
/// Nothing is proved of it: the result is only given the name [`joined`].
#[verifier::external_body]
fn join_path(directory: &str, path: &str) -> (r: String)
    ensures
        r@ == joined(directory@, path@),
{
    std::path::Path::new(directory).join(path).to_string_lossy().into_owned()
}

/// How the images of a tileset reach the renderer: one shared image, or a
/// list with one image per tile. An image is known by its path.
#[derive(Clone, Debug, PartialEq, Eq)]
pub enum TilemapTexture {
    Single(String),
    Vector(Vec<String>),
}

/// A texture layout as contracts see it.
pub enum TextureView {
    Single(Seq<char>),
    Vector(Seq<Seq<char>>),
}

/// A list of paths as contracts see it.
pub open spec fn path_views(images: Seq<String>) -> Seq<Seq<char>> {
    Seq::new(images.len(), |k: int| images[k]@)
}

impl View for TilemapTexture {
    type V = TextureView;

    open spec fn view(&self) -> TextureView {
        match *self {
            TilemapTexture::Single(image) => TextureView::Single(image@),
            TilemapTexture::Vector(images) => TextureView::Vector(path_views(images@)),
        }
    }
}

/// The place of one tile's image in the image list of its tileset.
#[derive(Clone, Copy, Debug, PartialEq, Eq, Structural)]
pub struct TileImageOffset {
    pub tileset_index: usize,
    pub tile_id: u32,
    pub offset: u32,
}

/// The map asset: the decoded map, the texture layout of each tileset by its
/// index, and the places of the images of single tiles.
#[derive(Clone, Debug, PartialEq, Eq)]
pub struct TiledMap {
    pub map: TileMap,
    pub tilemap_textures: Vec<Option<TilemapTexture>>,
    pub tile_image_offsets: Vec<TileImageOffset>,
}

/// The place that the image at position `k` of a tileset gets: `k`, cut to
/// 32 bits.
pub open spec fn slot(k: int) -> u32 {
    (k % 0x1_0000_0000) as u32
}

/// The paths of the images of single tiles, each under `directory`.
pub open spec fn tile_image_paths(images: Seq<TileImage>, directory: Seq<char>) -> Seq<Seq<char>> {
    Seq::new(images.len(), |k: int| joined(directory, images[k].source@))
}

/// The texture layout of a tileset whose images lie under `directory`: its
/// shared image, or else the images of its tiles by rising tile id.
pub open spec fn tileset_texture(tileset: Tileset, directory: Seq<char>) -> TextureView {
    match tileset.image {
        Some(source) => TextureView::Single(joined(directory, source@)),
        None => TextureView::Vector(tile_image_paths(by_tile_id(tileset.tile_images@), directory)),
    }
}

/// The places of the images of tileset `tileset_index`: none where it has a
/// shared image, else one for each tile image, by rising tile id.
pub open spec fn tileset_offsets(tileset_index: usize, tileset: Tileset) -> Seq<TileImageOffset> {
    match tileset.image {
        Some(_) => Seq::empty(),
        None => Seq::new(
            by_tile_id(tileset.tile_images@).len(),
            |k: int|
                TileImageOffset {
                    tileset_index,
                    tile_id: by_tile_id(tileset.tile_images@)[k].tile_id,
                    offset: slot(k),
                },
        ),
    }
}

/// The places of the images of the first `upto` tilesets, tileset by tileset.
pub open spec fn map_offsets(tilesets: Seq<Tileset>, upto: int) -> Seq<TileImageOffset>
    decreases upto,
{
    if upto <= 0 || upto > tilesets.len() {
        Seq::empty()
    } else {
        map_offsets(tilesets, upto - 1) + tileset_offsets((upto - 1) as usize, tilesets[upto - 1])
    }
}

/// Whether a tileset names an image: a shared one, or one of a tile.
pub open spec fn tileset_names_image(tileset: Tileset) -> bool {
    tileset.image is Some || tileset.tile_images@.len() > 0
}

/// Whether any tileset of the map names an image.
pub open spec fn names_image(map: TileMap) -> bool {
    exists|t: int| 0 <= t < map.tilesets@.len() && tileset_names_image(#[trigger] map.tilesets@[t])
}

/// The first place from index `from` on that is recorded for a tile.
pub open spec fn offset_from(offsets: Seq<TileImageOffset>, tileset_index: usize, tile_id: u32, from: int) -> Option<
    u32,
>
    decreases offsets.len() - from,
{
    if from < 0 || from >= offsets.len() {
        None
    } else if offsets[from].tileset_index == tileset_index && offsets[from].tile_id == tile_id {
        Some(offsets[from].offset)
    } else {
        offset_from(offsets, tileset_index, tile_id, from + 1)
    }
}

/// The place that is recorded for a tile, if any.
pub open spec fn offset_of(offsets: Seq<TileImageOffset>, tileset_index: usize, tile_id: u32) -> Option<u32> {
    offset_from(offsets, tileset_index, tile_id, 0)
}

/// The texture layout of tileset `tileset_index`, if the asset has one.
pub open spec fn texture_at(asset: TiledMap, tileset_index: int) -> Option<TilemapTexture> {
    if 0 <= tileset_index < asset.tilemap_textures@.len() {
        asset.tilemap_textures@[tileset_index]
    } else {
        None
    }
}

/// Whether a placed tile finds its image: a tile of a tileset with an image
/// per tile needs a recorded place.
pub open spec fn cell_resolved(asset: TiledMap, cell: Option<TileCell>) -> bool {
    match cell {
        Some(tile) => texture_at(asset, tile.tileset_index as int) matches Some(TilemapTexture::Vector(_))
            ==> offset_of(asset.tile_image_offsets@, tile.tileset_index, tile.tile_id) is Some,
        None => true,
    }
}

/// Whether every tile of a grid finds its image.
pub open spec fn grid_resolved(asset: TiledMap, grid: TileGrid) -> bool {
    forall|k: int| 0 <= k < grid.cells@.len() ==> cell_resolved(asset, #[trigger] grid.cells@[k])
}

/// Whether every tile of a layer finds its image.
pub open spec fn layer_resolved(asset: TiledMap, layer: Layer) -> bool {
    match layer.body {
        LayerBody::Tiles(grid) => grid_resolved(asset, grid),
        _ => true,
    }
}

/// Whether every tile of every finite layer finds its image. A pass over the
/// map needs this of an asset.
pub open spec fn is_complete(asset: TiledMap) -> bool {
    forall|l: int| 0 <= l < asset.map.layers@.len() ==> layer_resolved(asset, #[trigger] asset.map.layers@[l])
}

/// The index of the image of a placed tile: the tile's id in a shared image,
/// its recorded place in a list of images.
pub open spec fn texture_index_of(asset: TiledMap, tile: TileCell) -> u32 {
    match texture_at(asset, tile.tileset_index as int) {
        Some(TilemapTexture::Vector(_)) => match offset_of(
            asset.tile_image_offsets@,
            tile.tileset_index,
            tile.tile_id,
        ) {
            Some(place) => place,
            None => tile.tile_id,
        },
        _ => tile.tile_id,
    }
}

impl TiledMap {
    /// The place that is recorded for a tile, if any.
    pub fn offset(&self, tileset_index: usize, tile_id: u32) -> (r: Option<u32>)
        ensures
            r == offset_of(self.tile_image_offsets@, tileset_index, tile_id),
    {
        let mut k: usize = 0;
        while k < self.tile_image_offsets.len()
            invariant
                k <= self.tile_image_offsets.len(),
                offset_of(self.tile_image_offsets@, tileset_index, tile_id) == offset_from(
                    self.tile_image_offsets@,
                    tileset_index,
                    tile_id,
                    k as int,
                ),
            decreases self.tile_image_offsets.len() - k,
        {
            let entry = self.tile_image_offsets[k];
            if entry.tileset_index == tileset_index && entry.tile_id == tile_id {
                return Some(entry.offset);
            }
            k += 1;
        }
        None
    }

    /// Whether tileset `tileset_index` has a list of images as its texture.
    pub fn has_image_list(&self, tileset_index: usize) -> (r: bool)
        ensures
            r == (texture_at(*self, tileset_index as int) matches Some(TilemapTexture::Vector(_))),
    {
        if tileset_index < self.tilemap_textures.len() {
            match &self.tilemap_textures[tileset_index] {
                Some(TilemapTexture::Vector(_)) => true,
                _ => false,
            }
        } else {
            false
        }
    }

    fn cell_is_resolved(&self, cell: &Option<TileCell>) -> (r: bool)
        ensures
            r == cell_resolved(*self, *cell),
    {
        match cell {
            Some(tile) => !self.has_image_list(tile.tileset_index) || self.offset(
                tile.tileset_index,
                tile.tile_id,
            ).is_some(),
            None => true,
        }
    }

    fn grid_is_resolved(&self, grid: &TileGrid) -> (r: bool)
        ensures
            r == grid_resolved(*self, *grid),
    {
        let mut k: usize = 0;
        while k < grid.cells.len()
            invariant
                k <= grid.cells.len(),
                forall|j: int| 0 <= j < k ==> cell_resolved(*self, #[trigger] grid.cells@[j]),
            decreases grid.cells.len() - k,
        {
            if !self.cell_is_resolved(&grid.cells[k]) {
                assert(!cell_resolved(*self, grid.cells@[k as int]));
                return false;
            }
            k += 1;
        }
        true
    }

    fn layer_is_resolved(&self, layer: &Layer) -> (r: bool)
        ensures
            r == layer_resolved(*self, *layer),
    {
        match &layer.body {
            LayerBody::Tiles(grid) => self.grid_is_resolved(grid),
            _ => true,
        }
    }

    /// Whether every tile of every finite layer finds its image.
    pub fn is_complete(&self) -> (r: bool)
        ensures
            r == is_complete(*self),
    {
        let mut l: usize = 0;
        while l < self.map.layers.len()
            invariant
                l <= self.map.layers.len(),
                forall|j: int| 0 <= j < l ==> layer_resolved(*self, #[trigger] self.map.layers@[j]),
            decreases self.map.layers.len() - l,
        {
            if !self.layer_is_resolved(&self.map.layers[l]) {
                assert(!layer_resolved(*self, self.map.layers@[l as int]));
                return false;
            }
            l += 1;
        }
        true
    }

    /// The index of the image of a placed tile.
    pub fn texture_index(&self, tile: &TileCell) -> (r: u32)
        requires
            cell_resolved(*self, Some(*tile)),
        ensures
            r == texture_index_of(*self, *tile),
    {
        if self.has_image_list(tile.tileset_index) {
            match self.offset(tile.tileset_index, tile.tile_id) {
                Some(place) => place,
                None => tile.tile_id,
            }
        } else {
            tile.tile_id
        }
    }
}

/// Why a map could not be loaded.
#[derive(Clone, Debug, PartialEq, Eq)]
pub enum TiledAssetLoaderError {
    /// The file could not be read, or its content is no map; with the reason.
    Io(String),
}

impl TiledAssetLoaderError {
    /// The text of the error.
    pub open spec fn message_text(self) -> Seq<char> {
        match self {
            TiledAssetLoaderError::Io(reason) => "Could not load Tiled file: "@ + reason@,
        }
    }

    /// The error as text.
    pub fn message(&self) -> (r: String)
        ensures
            r@ == self.message_text(),
    {
        match self {
            TiledAssetLoaderError::Io(reason) => {
                let mut out = String::from_str("Could not load Tiled file: ");
                out.append(reason.as_str());
                out
            },
        }
    }
}

/// Whether an entry of the texture table holds the given layout.
pub open spec fn holds_texture(entry: Option<TilemapTexture>, layout: TextureView) -> bool {
    match entry {
        Some(texture) => texture@ == layout,
        None => false,
    }
}

/// What [`TiledLoader::load`] makes of the outcome of decoding.
pub open spec fn loaded(
    decoded: Result<TileMap, String>,
    path: Seq<char>,
    r: Result<TiledMap, TiledAssetLoaderError>,
) -> bool {
    match decoded {
        Err(reason) => match r {
            Err(TiledAssetLoaderError::Io(text)) => text@ == "Could not load TMX map: "@ + reason@,
            Ok(_) => false,
        },
        Ok(map) => match r {
            Ok(asset) => asset.map == map && is_layout_of(asset, path),
            Err(_) => false,
        },
    }
}

/// Whether the textures and places of an asset are those of its map, read
/// from the file at `path`.
pub open spec fn is_layout_of(asset: TiledMap, path: Seq<char>) -> bool {
    &&& asset.tilemap_textures@.len() == asset.map.tilesets@.len()
    &&& forall|t: int|
        0 <= t < asset.map.tilesets@.len() ==> holds_texture(
            #[trigger] asset.tilemap_textures@[t],
            tileset_texture(asset.map.tilesets@[t], parent_of(path)->0),
        )
    &&& asset.tile_image_offsets@ == map_offsets(asset.map.tilesets@, asset.map.tilesets@.len() as int)
}

/// The loader of map files.
#[derive(Clone, Copy, Debug, PartialEq, Eq)]
pub struct TiledLoader;

impl TiledLoader {
    /// The extensions of the files that the loader takes.
    pub fn extensions(&self) -> (r: Vec<&'static str>)
        ensures
            r@.len() == 1,
            r@[0]@ == "tmx"@,
    {
        let mut r: Vec<&'static str> = Vec::new();
        r.push("tmx");
        r
    }

    fn tileset_names_image(tileset: &Tileset) -> (r: bool)
        ensures
            r == tileset_names_image(*tileset),
    {
        tileset.image.is_some() || tileset.tile_images.len() > 0
    }

    /// Whether any tileset of the map names an image.
    pub fn names_image(map: &TileMap) -> (r: bool)
        ensures
            r == names_image(*map),
    {
        let mut t: usize = 0;
        while t < map.tilesets.len()
            invariant
                t <= map.tilesets.len(),
                forall|u: int| 0 <= u < t ==> !tileset_names_image(#[trigger] map.tilesets@[u]),
            decreases map.tilesets.len() - t,
        {
            if Self::tileset_names_image(&map.tilesets[t]) {
                return true;
            }
            t += 1;
        }
        false
    }

    /// The images of a tileset with an image per tile, and their places.
    fn layout_tiles(
        tileset_index: usize,
        tileset: &Tileset,
        directory: &str,
        offsets: &mut Vec<TileImageOffset>,
    ) -> (r: Vec<String>)
        requires
            tileset.image is None,
        ensures
            TilemapTexture::Vector(r)@ == tileset_texture(*tileset, directory@),
            final(offsets)@ == old(offsets)@ + tileset_offsets(tileset_index, *tileset),
    {
        let ordered = tileset.images_by_tile_id();
        let mut images: Vec<String> = Vec::new();
        let mut k: usize = 0;
        while k < ordered.len()
            invariant
                k <= ordered.len(),
                tileset.image is None,
                ordered@ == by_tile_id(tileset.tile_images@),
                images@.len() == k,
                forall|j: int| 0 <= j < k ==> (#[trigger] images@[j])@ == joined(directory@, ordered@[j].source@),
                offsets@ == old(offsets)@ + tileset_offsets(tileset_index, *tileset).take(k as int),
            decreases ordered.len() - k,
        {
            let image = &ordered[k];
            let place: u32 = ((k as u64) % 0x1_0000_0000u64) as u32;
            offsets.push(TileImageOffset { tileset_index, tile_id: image.tile_id, offset: place });
            images.push(join_path(directory, image.source.as_str()));
            proof {
                let all = tileset_offsets(tileset_index, *tileset);
                assert(all.take(k + 1) =~= all.take(k as int).push(all[k as int]));
                assert(offsets@ =~= old(offsets)@ + all.take(k + 1));
            }
            k += 1;
        }
        proof {
            let all = tileset_offsets(tileset_index, *tileset);
            assert(all.take(k as int) =~= all);
            assert(path_views(images@) =~= tile_image_paths(ordered@, directory@));
        }
        images
    }

    /// Lays out the textures of a map whose images lie under `directory`.
    fn resolve(map: TileMap, directory: &Option<String>) -> (asset: TiledMap)
        requires
            names_image(map) ==> directory is Some,
        ensures
            asset.map == map,
            asset.tilemap_textures@.len() == map.tilesets@.len(),
            forall|t: int|
                0 <= t < map.tilesets@.len() ==> holds_texture(
                    #[trigger] asset.tilemap_textures@[t],
                    tileset_texture(map.tilesets@[t], directory->0@),
                ),
            asset.tile_image_offsets@ == map_offsets(map.tilesets@, map.tilesets@.len() as int),
    {
        let mut textures: Vec<Option<TilemapTexture>> = Vec::new();
        let mut offsets: Vec<TileImageOffset> = Vec::new();
        let mut t: usize = 0;
        while t < map.tilesets.len()
            invariant
                t <= map.tilesets.len(),
                names_image(map) ==> directory is Some,
                textures@.len() == t,
                forall|u: int|
                    0 <= u < t ==> holds_texture(
                        #[trigger] textures@[u],
                        tileset_texture(map.tilesets@[u], directory->0@),
                    ),
                offsets@ == map_offsets(map.tilesets@, t as int),
            decreases map.tilesets.len() - t,
        {
            let tileset = &map.tilesets[t];
            if Self::tileset_names_image(tileset) {
                assert(tileset_names_image(map.tilesets@[t as int]));
                match directory {
                    Some(dir) => {
                        match &tileset.image {
                            Some(source) => {
                                textures.push(
                                    Some(TilemapTexture::Single(join_path(dir.as_str(), source.as_str()))),
                                );
                                proof {
                                    assert(offsets@ + tileset_offsets(t, *tileset) =~= offsets@);
                                }
                            },
                            None => {
                                let images = Self::layout_tiles(t, tileset, dir.as_str(), &mut offsets);
                                textures.push(Some(TilemapTexture::Vector(images)));
                            },
                        }
                    },
                    None => {
                        assert(false);
                    },
                }
            } else {
                textures.push(Some(TilemapTexture::Vector(Vec::new())));
                proof {
                    assert(by_tile_id(tileset.tile_images@) =~= Seq::<TileImage>::empty());
                    assert(path_views(Seq::<String>::empty()) =~= tile_image_paths(
                        by_tile_id(tileset.tile_images@),
                        directory->0@,
                    ));
                    assert(offsets@ + tileset_offsets(t, *tileset) =~= offsets@);
                }
            }
            t += 1;
        }
        TiledMap { map, tilemap_textures: textures, tile_image_offsets: offsets }
    }

    /// Makes the asset of a map that was decoded from the file at `path`, or
    /// the error for the reason why decoding failed.
    ///
    /// Each tileset gets its texture layout: its shared image if it has one,
    /// else the images of its tiles in their order, each with its place in
    /// that list. Every image is looked for under the directory of `path`,
    /// which must exist where the map names an image.
    pub fn load(&self, decoded: Result<TileMap, String>, path: &str) -> (r: Result<TiledMap, TiledAssetLoaderError>)
        requires
            decoded matches Ok(map) ==> (names_image(map) ==> parent_of(path@) is Some),
        ensures
            loaded(decoded, path@, r),
    {
        match decoded {
            Err(reason) => {
                let mut text = String::from_str("Could not load TMX map: ");
                text.append(reason.as_str());
                Err(TiledAssetLoaderError::Io(text))
            },
            Ok(map) => {
                let directory = parent_directory(path);
                let asset = Self::resolve(map, &directory);
                proof {
                    assert forall|t: int| 0 <= t < map.tilesets@.len() implies holds_texture(
                        #[trigger] asset.tilemap_textures@[t],
                        tileset_texture(map.tilesets@[t], parent_of(path@)->0),
                    ) by {
                        if !tileset_names_image(map.tilesets@[t]) {
                            assert(by_tile_id(map.tilesets@[t].tile_images@) =~= Seq::<TileImage>::empty());
                            assert(tile_image_paths(by_tile_id(map.tilesets@[t].tile_images@), directory->0@)
                                =~= tile_image_paths(
                                by_tile_id(map.tilesets@[t].tile_images@),
                                parent_of(path@)->0,
                            ));
                        }
                    }
                }
                Ok(asset)
            },
        }
    }

    /// As [`TiledLoader::load`], for any path: nothing is made where the map
    /// names an image and `path` has no directory.
    pub fn try_load(&self, decoded: Result<TileMap, String>, path: &str) -> (r: Option<
        Result<TiledMap, TiledAssetLoaderError>,
    >)
        ensures
            r is None <==> (decoded matches Ok(map) && names_image(map) && parent_of(path@) is None),
            r matches Some(made) ==> loaded(decoded, path@, made),
    {
        let placed = match &decoded {
            Ok(map) => !Self::names_image(map) || parent_directory(path).is_some(),
            Err(_) => true,
        };
        if placed {
            Some(self.load(decoded, path))
        } else {
            None
        }
    }
}

} // verus!
