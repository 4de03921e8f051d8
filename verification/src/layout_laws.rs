//! What holds of the texture layout: the images of single tiles get their
//! places by rising tile id, and in the asset that the loader makes every
//! tile that can be drawn finds its image.

use vstd::prelude::*;
use crate::loader::{
    cell_resolved,
    holds_texture,
    is_complete,
    is_layout_of,
    layer_resolved,
    map_offsets,
    offset_from,
    parent_of,
    texture_at,
    tileset_offsets,
    tileset_texture,
    TileImageOffset,
    TiledMap,
    TilemapTexture,
};
use crate::model::{by_tile_id, place_by_id, TileCell, TileImage, TileMap, Tileset};

verus! {

/// Whether a tileset with an image per tile has an image for the tile.
pub open spec fn has_tile_image(tileset: Tileset, tile_id: u32) -> bool {
    exists|j: int| 0 <= j < tileset.tile_images@.len() && (#[trigger] tileset.tile_images@[j]).tile_id == tile_id
}

/// Whether a placed tile names a tile that its tileset can draw: any tile of
/// a tileset with a shared image, and a tile with an image of its own in a
/// tileset without one.
pub open spec fn is_drawable(map: TileMap, cell: Option<TileCell>) -> bool {
    match cell {
        Some(tile) => tile.tileset_index < map.tilesets@.len() && map.tilesets@[tile.tileset_index as int].image
            is None ==> has_tile_image(map.tilesets@[tile.tileset_index as int], tile.tile_id),
        None => true,
    }
}

/// Whether every tile of every finite layer of a map is drawable.
pub open spec fn all_drawable(map: TileMap) -> bool {
    forall|l: int, k: int|
        0 <= l < map.layers@.len() && map.layers@[l].body is Tiles && 0 <= k < map.layers@[l].body->Tiles_0.cells@.len()
            ==> is_drawable(map, #[trigger] map.layers@[l].body->Tiles_0.cells@[k])
}

proof fn lemma_offset_from_finds(
    offsets: Seq<TileImageOffset>,
    tileset_index: usize,
    tile_id: u32,
    from: int,
    at: int,
)
    requires
        0 <= from <= at < offsets.len(),
        offsets[at].tileset_index == tileset_index,
        offsets[at].tile_id == tile_id,
    ensures
        offset_from(offsets, tileset_index, tile_id, from) is Some,
    decreases at - from,
{
    if !(offsets[from].tileset_index == tileset_index && offsets[from].tile_id == tile_id) {
        lemma_offset_from_finds(offsets, tileset_index, tile_id, from + 1, at);
    }
}

/// Where an image goes into a list: behind every image whose tile id is not
/// greater, and before every image whose tile id is greater, if the list
/// rises by tile id.
proof fn lemma_place_by_id(images: Seq<TileImage>, tile_id: u32)
    ensures
        0 <= place_by_id(images, tile_id) <= images.len(),
        forall|i: int| place_by_id(images, tile_id) <= i < images.len() ==> (#[trigger] images[i]).tile_id > tile_id,
        place_by_id(images, tile_id) > 0 ==> images[place_by_id(images, tile_id) - 1].tile_id <= tile_id,
    decreases images.len(),
{
    if images.len() > 0 && images.last().tile_id > tile_id {
        lemma_place_by_id(images.drop_last(), tile_id);
        let p = place_by_id(images.drop_last(), tile_id);
        assert forall|i: int| p <= i < images.len() implies (#[trigger] images[i]).tile_id > tile_id by {
            if i < images.len() - 1 {
                assert(images.drop_last()[i] == images[i]);
            }
        }
        if p > 0 {
            assert(images.drop_last()[p - 1] == images[p - 1]);
        }
    }
}

/// The images by tile id are the images that were given, in another order:
/// as many as were given, each of those given among them, and none among
/// them that was not given.
pub proof fn lemma_by_tile_id_keeps(images: Seq<TileImage>)
    ensures
        by_tile_id(images).len() == images.len(),
        forall|j: int| 0 <= j < images.len() ==> by_tile_id(images).contains(#[trigger] images[j]),
        forall|k: int| 0 <= k < images.len() ==> images.contains(#[trigger] by_tile_id(images)[k]),
    decreases images.len(),
{
    if images.len() > 0 {
        let given = images.drop_last();
        let front = by_tile_id(given);
        let p = place_by_id(front, images.last().tile_id);
        let all = by_tile_id(images);
        lemma_by_tile_id_keeps(given);
        lemma_place_by_id(front, images.last().tile_id);
        assert(all == front.insert(p, images.last()));
        assert forall|j: int| 0 <= j < images.len() implies all.contains(#[trigger] images[j]) by {
            if j == images.len() - 1 {
                assert(all[p] == images[j]);
            } else {
                assert(given[j] == images[j]);
                assert(front.contains(given[j]));
                let at = choose|at: int| 0 <= at < front.len() && front[at] == given[j];
                if at < p {
                    assert(all[at] == front[at]);
                } else {
                    assert(all[at + 1] == front[at]);
                }
            }
        }
        assert forall|k: int| 0 <= k < images.len() implies images.contains(#[trigger] all[k]) by {
            if k == p {
                assert(images[images.len() - 1] == all[k]);
            } else {
                let at = if k < p {
                    k
                } else {
                    k - 1
                };
                assert(all[k] == front[at]);
                assert(given.contains(front[at]));
                let from = choose|from: int| 0 <= from < given.len() && given[from] == front[at];
                assert(images[from] == all[k]);
            }
        }
    }
}

/// The images by tile id are a rearrangement of the images that were given:
/// each image is among them as often as it was given.
pub proof fn lemma_by_tile_id_rearranges(images: Seq<TileImage>)
    ensures
        by_tile_id(images).to_multiset() == images.to_multiset(),
    decreases images.len(),
{
    if images.len() > 0 {
        let given = images.drop_last();
        let front = by_tile_id(given);
        let p = place_by_id(front, images.last().tile_id);
        lemma_by_tile_id_rearranges(given);
        lemma_place_by_id(front, images.last().tile_id);
        vstd::seq_lib::to_multiset_insert(front, p, images.last());
        vstd::seq_lib::to_multiset_build(given, images.last());
        assert(given.push(images.last()) =~= images);
        assert(by_tile_id(images).to_multiset() =~= images.to_multiset());
    } else {
        assert(images =~= Seq::<TileImage>::empty());
    }
}

/// The images by tile id rise by tile id.
pub proof fn lemma_by_tile_id_rises(images: Seq<TileImage>)
    ensures
        forall|a: int, b: int|
            0 <= a <= b < by_tile_id(images).len() ==> by_tile_id(images)[a].tile_id <= by_tile_id(images)[b].tile_id,
    decreases images.len(),
{
    if images.len() > 0 {
        let front = by_tile_id(images.drop_last());
        let p = place_by_id(front, images.last().tile_id);
        let all = by_tile_id(images);
        lemma_by_tile_id_rises(images.drop_last());
        lemma_place_by_id(front, images.last().tile_id);
        assert(all == front.insert(p, images.last()));
        assert forall|a: int, b: int| 0 <= a <= b < all.len() implies all[a].tile_id <= all[b].tile_id by {
            let ia = if a < p {
                a
            } else {
                a - 1
            };
            let ib = if b < p {
                b
            } else {
                b - 1
            };
            if a != p {
                assert(all[a] == front[ia]);
            }
            if b != p {
                assert(all[b] == front[ib]);
            }
            if a < p && b == p {
                assert(front[a].tile_id <= front[p - 1].tile_id);
            }
        }
    }
}

proof fn lemma_offsets_hold(tilesets: Seq<Tileset>, upto: int, t: int, j: int) -> (at: int)
    requires
        0 <= t < upto <= tilesets.len() <= usize::MAX,
        tilesets[t].image is None,
        0 <= j < by_tile_id(tilesets[t].tile_images@).len(),
    ensures
        0 <= at < map_offsets(tilesets, upto).len(),
        map_offsets(tilesets, upto)[at].tileset_index == t,
        map_offsets(tilesets, upto)[at].tile_id == by_tile_id(tilesets[t].tile_images@)[j].tile_id,
    decreases upto,
{
    let front = map_offsets(tilesets, upto - 1);
    let last = tileset_offsets((upto - 1) as usize, tilesets[upto - 1]);
    if t == upto - 1 {
        assert((front + last)[front.len() + j] == last[j]);
        front.len() + j
    } else {
        let at = lemma_offsets_hold(tilesets, upto - 1, t, j);
        assert((front + last)[at] == front[at]);
        at
    }
}

/// Every tile finds its image in the asset that the loader makes, as long as
/// every tile that a finite layer places is drawable: a tile of a tileset
/// with an image per tile then has a recorded place.
pub proof fn lemma_loaded_asset_is_complete(asset: TiledMap, path: Seq<char>)
    requires
        is_layout_of(asset, path),
        all_drawable(asset.map),
    ensures
        is_complete(asset),
{
    let map = asset.map;
    assert forall|l: int| 0 <= l < map.layers@.len() implies layer_resolved(asset, #[trigger] map.layers@[l]) by {
        if map.layers@[l].body is Tiles {
            let grid = map.layers@[l].body->Tiles_0;
            assert forall|k: int| 0 <= k < grid.cells@.len() implies cell_resolved(
                asset,
                #[trigger] grid.cells@[k],
            ) by {
                assert(is_drawable(map, map.layers@[l].body->Tiles_0.cells@[k]));
                if let Some(tile) = grid.cells@[k] {
                    let t = tile.tileset_index as int;
                    if texture_at(asset, t) matches Some(TilemapTexture::Vector(_)) {
                        assert(holds_texture(
                            asset.tilemap_textures@[t],
                            tileset_texture(map.tilesets@[t], parent_of(path)->0),
                        ));
                        assert(map.tilesets@[t].image is None);
                        let given = map.tilesets@[t].tile_images@;
                        let i = choose|i: int| 0 <= i < given.len() && (#[trigger] given[i]).tile_id == tile.tile_id;
                        lemma_by_tile_id_keeps(given);
                        assert(by_tile_id(given).contains(given[i]));
                        let j = choose|j: int| 0 <= j < by_tile_id(given).len() && by_tile_id(given)[j] == given[i];
                        assert(map.tilesets.len() == map.tilesets@.len());
                        let at = lemma_offsets_hold(map.tilesets@, map.tilesets@.len() as int, t, j);
                        lemma_offset_from_finds(asset.tile_image_offsets@, tile.tileset_index, tile.tile_id, 0, at);
                    }
                }
            }
        }
    }
}

} // verus!
