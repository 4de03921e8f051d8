use bevy_tiled_blueprints::loader::{TileImageOffset, TiledAssetLoaderError, TiledLoader, TiledMap, TilemapTexture};
use bevy_tiled_blueprints::model::{
    Layer, LayerBody, Orientation, Scalar, TileCell, TileGrid, TileImage, TileMap, Tileset,
};

fn shared(source: &str) -> Tileset {
    Tileset { tile_width: 16, tile_height: 16, spacing: 0, image: Some(source.to_string()), tile_images: Vec::new() }
}

fn collection(images: &[(u32, &str)]) -> Tileset {
    Tileset {
        tile_width: 32,
        tile_height: 32,
        spacing: 1,
        image: None,
        tile_images: images.iter().map(|(tile_id, source)| TileImage { tile_id: *tile_id, source: source.to_string() }).collect(),
    }
}

fn tile(tileset_index: usize, tile_id: u32) -> Option<TileCell> {
    Some(TileCell { tileset_index, tile_id, flip_h: false, flip_v: false, flip_d: false })
}

fn grid_layer(width: u32, height: u32, cells: Vec<Option<TileCell>>) -> Layer {
    Layer {
        id: 1,
        name: "ground".to_string(),
        offset_x: Scalar::from_bits(0),
        offset_y: Scalar::from_bits(0),
        properties: Vec::new(),
        body: LayerBody::Tiles(TileGrid { width, height, cells }),
    }
}

fn map(tilesets: Vec<Tileset>, layers: Vec<Layer>) -> TileMap {
    TileMap {
        orientation: Orientation::Orthogonal,
        width: 2,
        height: 2,
        tile_width: 16,
        tile_height: 16,
        tilesets,
        layers,
        properties: Vec::new(),
    }
}

fn load(map: TileMap, path: &str) -> TiledMap {
    TiledLoader.load(Ok(map), path).unwrap()
}

#[test]
fn loader_takes_map_files() {
    assert_eq!(TiledLoader.extensions(), vec!["tmx"]);
}

#[test]
fn shared_image_gives_a_single_texture() {
    let asset = load(map(vec![shared("tiles.png")], Vec::new()), "maps/level.tmx");
    assert_eq!(asset.tilemap_textures, vec![Some(TilemapTexture::Single("maps/tiles.png".to_string()))]);
    assert!(asset.tile_image_offsets.is_empty());
}

#[test]
fn image_is_looked_for_beside_the_map() {
    let asset = load(map(vec![shared("art/tiles.png")], Vec::new()), "level.tmx");
    assert_eq!(asset.tilemap_textures, vec![Some(TilemapTexture::Single("art/tiles.png".to_string()))]);
    let asset = load(map(vec![shared("tiles.png")], Vec::new()), "a/b/level.tmx");
    assert_eq!(asset.tilemap_textures, vec![Some(TilemapTexture::Single("a/b/tiles.png".to_string()))]);
}

#[test]
fn tile_images_get_their_places_by_rising_tile_id() {
    let asset = load(map(vec![collection(&[(7, "a.png"), (2, "b.png"), (9, "c.png")])], Vec::new()), "maps/level.tmx");
    assert_eq!(
        asset.tilemap_textures,
        vec![Some(TilemapTexture::Vector(vec![
            "maps/b.png".to_string(),
            "maps/a.png".to_string(),
            "maps/c.png".to_string(),
        ]))]
    );
    assert_eq!(
        asset.tile_image_offsets,
        vec![
            TileImageOffset { tileset_index: 0, tile_id: 2, offset: 0 },
            TileImageOffset { tileset_index: 0, tile_id: 7, offset: 1 },
            TileImageOffset { tileset_index: 0, tile_id: 9, offset: 2 },
        ]
    );
    assert_eq!(asset.offset(0, 7), Some(1));
    assert_eq!(asset.offset(0, 9), Some(2));
    assert_eq!(asset.offset(0, 3), None);
    assert_eq!(asset.offset(1, 7), None);
}

#[test]
fn layout_does_not_depend_on_the_order_in_which_tile_images_are_given() {
    let one = load(map(vec![collection(&[(7, "a.png"), (2, "b.png"), (9, "c.png")])], Vec::new()), "maps/level.tmx");
    let other = load(map(vec![collection(&[(9, "c.png"), (7, "a.png"), (2, "b.png")])], Vec::new()), "maps/level.tmx");
    assert_eq!(one.tilemap_textures, other.tilemap_textures);
    assert_eq!(one.tile_image_offsets, other.tile_image_offsets);
}

#[test]
fn images_are_ordered_by_tile_id_and_keep_their_order_within_one_tile() {
    let tileset = collection(&[(5, "e.png"), (1, "a.png"), (5, "f.png"), (0, "z.png"), (1, "b.png")]);
    let ordered: Vec<(u32, String)> =
        tileset.images_by_tile_id().into_iter().map(|image| (image.tile_id, image.source)).collect();
    assert_eq!(
        ordered,
        vec![
            (0, "z.png".to_string()),
            (1, "a.png".to_string()),
            (1, "b.png".to_string()),
            (5, "e.png".to_string()),
            (5, "f.png".to_string()),
        ]
    );
    assert!(collection(&[]).images_by_tile_id().is_empty());
}

#[test]
fn places_are_counted_per_tileset() {
    let asset = load(
        map(
            vec![collection(&[(0, "a.png"), (1, "b.png")]), shared("tiles.png"), collection(&[(1, "c.png")])],
            Vec::new(),
        ),
        "maps/level.tmx",
    );
    assert_eq!(asset.tilemap_textures.len(), 3);
    assert!(asset.has_image_list(0));
    assert!(!asset.has_image_list(1));
    assert!(asset.has_image_list(2));
    assert!(!asset.has_image_list(3));
    assert_eq!(
        asset.tile_image_offsets,
        vec![
            TileImageOffset { tileset_index: 0, tile_id: 0, offset: 0 },
            TileImageOffset { tileset_index: 0, tile_id: 1, offset: 1 },
            TileImageOffset { tileset_index: 2, tile_id: 1, offset: 0 },
        ]
    );
    assert_eq!(asset.offset(2, 1), Some(0));
    assert_eq!(asset.offset(0, 1), Some(1));
}

#[test]
fn tileset_without_any_image_gets_an_empty_list() {
    let asset = load(map(vec![collection(&[])], Vec::new()), "level.tmx");
    assert_eq!(asset.tilemap_textures, vec![Some(TilemapTexture::Vector(Vec::new()))]);
    assert!(asset.tile_image_offsets.is_empty());
}

#[test]
fn loaded_asset_keeps_the_map() {
    let decoded = map(vec![shared("tiles.png")], vec![grid_layer(2, 2, vec![tile(0, 1), None, None, tile(0, 3)])]);
    let asset = load(decoded.clone(), "maps/level.tmx");
    assert_eq!(asset.map, decoded);
}

#[test]
fn failed_decoding_becomes_a_load_error() {
    let r = TiledLoader.load(Err("unexpected end of file".to_string()), "maps/level.tmx");
    let error = r.unwrap_err();
    assert_eq!(error, TiledAssetLoaderError::Io("Could not load TMX map: unexpected end of file".to_string()));
    assert_eq!(error.message(), "Could not load Tiled file: Could not load TMX map: unexpected end of file");
}

#[test]
fn map_without_a_directory_is_not_loaded_where_it_names_an_image() {
    assert_eq!(TiledLoader.try_load(Ok(map(vec![shared("tiles.png")], Vec::new())), ""), None);
    assert_eq!(TiledLoader.try_load(Ok(map(vec![collection(&[(0, "a.png")])], Vec::new())), "/"), None);
}

#[test]
fn map_without_images_needs_no_directory() {
    let made = TiledLoader.try_load(Ok(map(Vec::new(), Vec::new())), "").unwrap().unwrap();
    assert!(made.tilemap_textures.is_empty());
    let made = TiledLoader.try_load(Ok(map(vec![collection(&[])], Vec::new())), "").unwrap().unwrap();
    assert_eq!(made.tilemap_textures, vec![Some(TilemapTexture::Vector(Vec::new()))]);
}

#[test]
fn failed_decoding_is_an_error_whatever_the_path() {
    let made = TiledLoader.try_load(Err("bad".to_string()), "").unwrap();
    assert_eq!(made, Err(TiledAssetLoaderError::Io("Could not load TMX map: bad".to_string())));
}

#[test]
fn try_load_loads_as_load_does() {
    let decoded = map(vec![shared("tiles.png"), collection(&[(4, "x.png")])], Vec::new());
    let made = TiledLoader.try_load(Ok(decoded.clone()), "maps/level.tmx").unwrap().unwrap();
    assert_eq!(made, load(decoded, "maps/level.tmx"));
}

#[test]
fn names_image_looks_at_every_tileset() {
    assert!(!TiledLoader::names_image(&map(Vec::new(), Vec::new())));
    assert!(!TiledLoader::names_image(&map(vec![collection(&[])], Vec::new())));
    assert!(TiledLoader::names_image(&map(vec![collection(&[]), shared("t.png")], Vec::new())));
    assert!(TiledLoader::names_image(&map(vec![collection(&[(1, "a.png")])], Vec::new())));
}

#[test]
fn asset_is_complete_when_every_tile_of_an_image_list_has_a_place() {
    let layer = grid_layer(2, 2, vec![tile(0, 7), tile(1, 500), None, tile(0, 2)]);
    let asset = load(map(vec![collection(&[(7, "a.png"), (2, "b.png")]), shared("t.png")], vec![layer]), "m/l.tmx");
    assert!(asset.is_complete());
    assert_eq!(asset.texture_index(&tile(0, 2).unwrap()), 0);
    assert_eq!(asset.texture_index(&tile(0, 7).unwrap()), 1);
    assert_eq!(asset.texture_index(&tile(1, 500).unwrap()), 500);
}

#[test]
fn asset_is_incomplete_when_a_tile_of_an_image_list_has_no_place() {
    let layer = grid_layer(2, 2, vec![tile(0, 7), tile(0, 3), None, None]);
    let asset = load(map(vec![collection(&[(7, "a.png"), (2, "b.png")])], vec![layer]), "m/l.tmx");
    assert!(!asset.is_complete());
}

#[test]
fn tile_of_a_tileset_without_texture_needs_no_place() {
    let layer = grid_layer(1, 1, vec![tile(5, 1)]);
    let asset = load(map(vec![collection(&[(7, "a.png")])], vec![layer]), "m/l.tmx");
    assert!(asset.is_complete());
    assert_eq!(asset.texture_index(&tile(5, 1).unwrap()), 1);
}

#[test]
fn first_of_two_places_of_one_tile_counts() {
    let asset = load(map(vec![collection(&[(7, "a.png"), (7, "b.png")])], Vec::new()), "m/l.tmx");
    assert_eq!(asset.offset(0, 7), Some(0));
}
