//! The synchronisation pass: for every map that changed in a tick, the nodes
//! built for it before are torn down and its layers, objects and tiles are
//! planned anew.
//!
//! A pass plans; it changes no scene. It queues mutations in [`Commands`],
//! to be applied to the scene when the pass is over, and records for each
//! layer the node that it planned.

use vstd::prelude::*;
use vstd::string::*;
use crate::binder::{add_properties, bound};
use crate::commands::{Commands, CommandsView, Diagnostic, DiagnosticView};
use crate::loader::{
    grid_resolved,
    is_complete,
    layer_resolved,
    slot,
    texture_at,
    texture_index_of,
    TiledMap,
};
use crate::model::{mapped_row, mapped_row_of, LayerBody, Object, TileGrid};
use crate::scene::{Mutation, MutationView, NodeKind, NodeView, Placement, Scene, Tilemap};
use crate::storage::{
    asset_index,
    changed_maps,
    collect_changed,
    recorded,
    AssetEntry,
    AssetEvent,
    Assets,
    LayerEntry,
    TiledLayersStorage,
    TiledMapBundle,
};
use crate::text::{decimal_digits, render_unsigned};

verus! {

/// The name of the node of a layer.
pub open spec fn layer_name(name: Seq<char>) -> Seq<char> {
    "Layer-"@ + name
}

/// The name of the node of an object: its own, or `Object` if it has none.
pub open spec fn object_name(name: Seq<char>) -> Seq<char> {
    if name.len() == 0 {
        "Object"@
    } else {
        name
    }
}

/// The name of the node of the tile at column `x` of scene row `y`.
pub open spec fn tile_name(x: u32, y: u32) -> Seq<char> {
    "tile-"@ + decimal_digits(x as nat) + "x"@ + decimal_digits(y as nat)
}

/// What a layer node needs to be placed and to draw the tiles of one tileset.
pub open spec fn tilemap_of(asset: TiledMap, tileset_index: usize, layer_index: usize) -> Tilemap {
    Tilemap {
        tileset_index,
        layer_index,
        orientation: asset.map.orientation,
        map_width: asset.map.width,
        map_height: asset.map.height,
        grid_width: asset.map.tile_width,
        grid_height: asset.map.tile_height,
        tile_width: asset.map.tilesets@[tileset_index as int].tile_width,
        tile_height: asset.map.tilesets@[tileset_index as int].tile_height,
        spacing: asset.map.tilesets@[tileset_index as int].spacing,
    }
}

/// The mutations that tear down the first `upto` recorded layer nodes: for
/// each in turn, everything below it leaves the scene and the node itself is
/// marked for removal.
pub open spec fn teardown(entries: Seq<LayerEntry>, upto: int) -> Seq<MutationView>
    decreases upto,
{
    if upto <= 0 || upto > entries.len() {
        Seq::empty()
    } else {
        teardown(entries, upto - 1).push(MutationView::DespawnChildren { node: entries[upto - 1].node }).push(
            MutationView::MarkForRemoval { node: entries[upto - 1].node },
        )
    }
}

/// The commands after an object is planned under its layer node: its node,
/// then its properties bound to that node.
pub open spec fn object_placed(
    c: CommandsView,
    object: Object,
    layer_node: usize,
    registry: bevy::reflect::TypeRegistry,
) -> CommandsView {
    bound(
        c.spawned(
            Some(layer_node),
            NodeKind::Object,
            object_name(object.name@),
            Placement::Object { x: object.x, y: object.y },
        ),
        object.properties@,
        c.next_node,
        registry,
    )
}

/// The commands after the first `upto` objects of a layer are planned.
pub open spec fn objects_placed(
    c: CommandsView,
    objects: Seq<Object>,
    upto: int,
    layer_node: usize,
    registry: bevy::reflect::TypeRegistry,
) -> CommandsView
    decreases upto,
{
    if upto <= 0 || upto > objects.len() {
        c
    } else {
        object_placed(
            objects_placed(c, objects, upto - 1, layer_node, registry),
            objects[upto - 1],
            layer_node,
            registry,
        )
    }
}

/// The commands after the cell at column `col` of map row `row` is seen: a
/// tile of the tileset in hand gets a node in the scene row that mirrors
/// `row`; an empty cell, or a tile of another tileset, gets none.
pub open spec fn tile_placed(
    c: CommandsView,
    asset: TiledMap,
    tileset_index: usize,
    grid: TileGrid,
    layer_node: usize,
    col: u32,
    row: u32,
) -> CommandsView {
    match grid.cell(col as int, row as int) {
        Some(tile) => {
            if tile.tileset_index == tileset_index {
                let y = mapped_row_of(asset.map.height as int, row as int) as u32;
                c.spawned(
                    Some(layer_node),
                    NodeKind::Tile,
                    tile_name(col, y),
                    Placement::Tile {
                        x: col,
                        y,
                        texture_index: texture_index_of(asset, tile),
                        flip_h: tile.flip_h,
                        flip_v: tile.flip_v,
                        flip_d: tile.flip_d,
                    },
                )
            } else {
                c
            }
        },
        None => c,
    }
}

/// The commands after the first `upto` cells of map row `row` are seen.
pub open spec fn row_placed(
    c: CommandsView,
    asset: TiledMap,
    tileset_index: usize,
    grid: TileGrid,
    layer_node: usize,
    row: u32,
    upto: int,
) -> CommandsView
    decreases upto,
{
    if upto <= 0 || upto > asset.map.width {
        c
    } else {
        tile_placed(
            row_placed(c, asset, tileset_index, grid, layer_node, row, upto - 1),
            asset,
            tileset_index,
            grid,
            layer_node,
            (upto - 1) as u32,
            row,
        )
    }
}

/// The commands after the first `upto` rows of the map are seen, each from
/// its first column to its last.
pub open spec fn rows_placed(
    c: CommandsView,
    asset: TiledMap,
    tileset_index: usize,
    grid: TileGrid,
    layer_node: usize,
    upto: int,
) -> CommandsView
    decreases upto,
{
    if upto <= 0 || upto > asset.map.height {
        c
    } else {
        row_placed(
            rows_placed(c, asset, tileset_index, grid, layer_node, upto - 1),
            asset,
            tileset_index,
            grid,
            layer_node,
            (upto - 1) as u32,
            asset.map.width as int,
        )
    }
}

/// The commands of a pass and the layer nodes recorded for the instance in
/// hand.
pub struct PassState {
    pub commands: CommandsView,
    pub storage: Seq<LayerEntry>,
}

/// The state after layer `layer_index` is planned for the tiles of one
/// tileset: the layer's node under the map's node, the layer's properties
/// bound to it, then its objects, or its tiles and the tilemap. The node is
/// recorded for the layer. A layer of another kind gets the node and a
/// finding, and no record.
pub open spec fn layer_synced(
    st: PassState,
    asset: TiledMap,
    tileset_index: usize,
    layer_index: usize,
    map_node: usize,
    registry: bevy::reflect::TypeRegistry,
) -> PassState {
    let layer = asset.map.layers@[layer_index as int];
    let node = st.commands.next_node;
    let named = bound(
        st.commands.spawned(
            Some(map_node),
            NodeKind::Layer,
            layer_name(layer.name@),
            Placement::Layer {
                tilemap: tilemap_of(asset, tileset_index, layer_index),
                offset_x: layer.offset_x,
                offset_y: layer.offset_y,
            },
        ),
        layer.properties@,
        node,
        registry,
    );
    match layer.body {
        LayerBody::Objects(objects) => PassState {
            commands: objects_placed(named, objects@, objects@.len() as int, node, registry),
            storage: recorded(st.storage, slot(layer_index as int), node),
        },
        LayerBody::Tiles(grid) => PassState {
            commands: rows_placed(named, asset, tileset_index, grid, node, asset.map.height as int).queued(
                MutationView::AttachTilemap { node, tilemap: tilemap_of(asset, tileset_index, layer_index) },
            ),
            storage: recorded(st.storage, slot(layer_index as int), node),
        },
        LayerBody::Unsupported => PassState {
            commands: named.reported(DiagnosticView::UnsupportedLayer { layer_index }),
            storage: st.storage,
        },
    }
}

/// The state after the first `upto` layers are planned for one tileset.
pub open spec fn layers_synced(
    st: PassState,
    asset: TiledMap,
    tileset_index: usize,
    upto: int,
    map_node: usize,
    registry: bevy::reflect::TypeRegistry,
) -> PassState
    decreases upto,
{
    if upto <= 0 || upto > asset.map.layers@.len() {
        st
    } else {
        layer_synced(
            layers_synced(st, asset, tileset_index, upto - 1, map_node, registry),
            asset,
            tileset_index,
            (upto - 1) as usize,
            map_node,
            registry,
        )
    }
}

/// The state after one tileset is gone through: all layers, if the tileset
/// has a texture; else a finding.
pub open spec fn tileset_synced(
    st: PassState,
    asset: TiledMap,
    tileset_index: usize,
    map_node: usize,
    registry: bevy::reflect::TypeRegistry,
) -> PassState {
    if texture_at(asset, tileset_index as int) is Some {
        layers_synced(st, asset, tileset_index, asset.map.layers@.len() as int, map_node, registry)
    } else {
        PassState { commands: st.commands.reported(DiagnosticView::MissingTexture { tileset_index }), ..st }
    }
}

/// The state after the first `upto` tilesets are gone through.
pub open spec fn tilesets_synced(
    st: PassState,
    asset: TiledMap,
    upto: int,
    map_node: usize,
    registry: bevy::reflect::TypeRegistry,
) -> PassState
    decreases upto,
{
    if upto <= 0 || upto > asset.map.tilesets@.len() {
        st
    } else {
        tileset_synced(
            tilesets_synced(st, asset, upto - 1, map_node, registry),
            asset,
            (upto - 1) as usize,
            map_node,
            registry,
        )
    }
}

/// The state after one map instance is rebuilt: the recorded layer nodes are
/// torn down, the map's properties are bound to the instance's node, and the
/// tilesets are gone through in their order.
pub open spec fn map_synced(
    st: PassState,
    asset: TiledMap,
    map_node: usize,
    registry: bevy::reflect::TypeRegistry,
) -> PassState {
    let torn = CommandsView {
        mutations: st.commands.mutations + teardown(st.storage, st.storage.len() as int),
        ..st.commands
    };
    tilesets_synced(
        PassState { commands: bound(torn, asset.map.properties@, map_node, registry), storage: st.storage },
        asset,
        asset.map.tilesets@.len() as int,
        map_node,
        registry,
    )
}

/// The commands of a pass and the layer nodes recorded for every instance.
pub struct TickState {
    pub commands: CommandsView,
    pub storages: Seq<Seq<LayerEntry>>,
}

/// The layer nodes recorded for each instance.
pub open spec fn storages_of(instances: Seq<TiledMapBundle>) -> Seq<Seq<LayerEntry>> {
    Seq::new(instances.len(), |i: int| instances[i].storage.storage@)
}

/// The state after instance `i` is looked at for the changed map `id`: it is
/// rebuilt if it shows that map and the map is loaded.
pub open spec fn instance_synced(
    st: TickState,
    instances: Seq<TiledMapBundle>,
    i: int,
    id: u64,
    assets: Seq<AssetEntry>,
    registry: bevy::reflect::TypeRegistry,
) -> TickState {
    if instances[i].tiled_map == id {
        match asset_index(assets, id) {
            Some(k) => {
                let done = map_synced(
                    PassState { commands: st.commands, storage: st.storages[i] },
                    assets[k].asset,
                    instances[i].entity,
                    registry,
                );
                TickState { commands: done.commands, storages: st.storages.update(i, done.storage) }
            },
            None => st,
        }
    } else {
        st
    }
}

/// The state after the first `upto` instances are looked at for one map.
pub open spec fn instances_synced(
    st: TickState,
    instances: Seq<TiledMapBundle>,
    upto: int,
    id: u64,
    assets: Seq<AssetEntry>,
    registry: bevy::reflect::TypeRegistry,
) -> TickState
    decreases upto,
{
    if upto <= 0 || upto > instances.len() {
        st
    } else {
        instance_synced(
            instances_synced(st, instances, upto - 1, id, assets, registry),
            instances,
            upto - 1,
            id,
            assets,
            registry,
        )
    }
}

/// The state after the first `upto` changed maps are gone through.
pub open spec fn maps_synced(
    st: TickState,
    instances: Seq<TiledMapBundle>,
    changed: Seq<u64>,
    upto: int,
    assets: Seq<AssetEntry>,
    registry: bevy::reflect::TypeRegistry,
) -> TickState
    decreases upto,
{
    if upto <= 0 || upto > changed.len() {
        st
    } else {
        instances_synced(
            maps_synced(st, instances, changed, upto - 1, assets, registry),
            instances,
            instances.len() as int,
            changed[upto - 1],
            assets,
            registry,
        )
    }
}

/// Whether every loaded asset is complete.
pub open spec fn all_complete(assets: Seq<AssetEntry>) -> bool {
    forall|k: int| 0 <= k < assets.len() ==> is_complete((#[trigger] assets[k]).asset)
}

fn name_layer(name: &str) -> (r: String)
    ensures
        r@ == layer_name(name@),
{
    let mut out = String::from_str("Layer-");
    out.append(name);
    out
}

fn name_object(name: &String) -> (r: String)
    ensures
        r@ == object_name(name@),
{
    if name.as_str().unicode_len() == 0 {
        String::from_str("Object")
    } else {
        name.clone()
    }
}

fn name_tile(x: u32, y: u32) -> (r: String)
    ensures
        r@ == tile_name(x, y),
{
    let mut out = String::from_str("tile-");
    out.append(render_unsigned(x as u64).as_str());
    out.append("x");
    out.append(render_unsigned(y as u64).as_str());
    out
}

fn place_objects(
    objects: &Vec<Object>,
    layer_node: usize,
    type_registry: &bevy::reflect::TypeRegistry,
    commands: &mut Commands,
)
    ensures
        final(commands)@ == objects_placed(
            old(commands)@,
            objects@,
            objects@.len() as int,
            layer_node,
            *type_registry,
        ),
{
    let mut j: usize = 0;
    while j < objects.len()
        invariant
            j <= objects.len(),
            commands@ == objects_placed(old(commands)@, objects@, j as int, layer_node, *type_registry),
        decreases objects.len() - j,
    {
        let object = &objects[j];
        let node = commands.spawn(
            Some(layer_node),
            NodeKind::Object,
            name_object(&object.name),
            Placement::Object { x: object.x, y: object.y },
        );
        add_properties(&object.properties, node, type_registry, commands);
        j += 1;
    }
}

fn place_tiles(asset: &TiledMap, tileset_index: usize, grid: &TileGrid, layer_node: usize, commands: &mut Commands)
    requires
        grid_resolved(*asset, *grid),
    ensures
        final(commands)@ == rows_placed(
            old(commands)@,
            *asset,
            tileset_index,
            *grid,
            layer_node,
            asset.map.height as int,
        ),
{
    let width = asset.map.width;
    let height = asset.map.height;
    let mut row: u32 = 0;
    while row < height
        invariant
            row <= height,
            width == asset.map.width,
            height == asset.map.height,
            grid_resolved(*asset, *grid),
            commands@ == rows_placed(old(commands)@, *asset, tileset_index, *grid, layer_node, row as int),
        decreases height - row,
    {
        let ghost at_row = commands@;
        let mut col: u32 = 0;
        while col < width
            invariant
                col <= width,
                row < height,
                width == asset.map.width,
                height == asset.map.height,
                grid_resolved(*asset, *grid),
                commands@ == row_placed(at_row, *asset, tileset_index, *grid, layer_node, row, col as int),
            decreases width - col,
        {
            match grid.get_tile(col, row) {
                Some(tile) => {
                    if tile.tileset_index == tileset_index {
                        let y = mapped_row(height, row);
                        let texture_index = asset.texture_index(&tile);
                        commands.spawn(
                            Some(layer_node),
                            NodeKind::Tile,
                            name_tile(col, y),
                            Placement::Tile {
                                x: col,
                                y,
                                texture_index,
                                flip_h: tile.flip_h,
                                flip_v: tile.flip_v,
                                flip_d: tile.flip_d,
                            },
                        );
                    }
                },
                None => {},
            }
            col += 1;
        }
        row += 1;
    }
}

fn sync_layer(
    asset: &TiledMap,
    tileset_index: usize,
    layer_index: usize,
    map_node: usize,
    type_registry: &bevy::reflect::TypeRegistry,
    commands: &mut Commands,
    storage: &mut TiledLayersStorage,
)
    requires
        tileset_index < asset.map.tilesets@.len(),
        layer_index < asset.map.layers@.len(),
        is_complete(*asset),
    ensures
        (PassState { commands: final(commands)@, storage: final(storage).storage@ }) == layer_synced(
            PassState { commands: old(commands)@, storage: old(storage).storage@ },
            *asset,
            tileset_index,
            layer_index,
            map_node,
            *type_registry,
        ),
{
    let layer = &asset.map.layers[layer_index];
    let tileset = &asset.map.tilesets[tileset_index];
    let tilemap = Tilemap {
        tileset_index,
        layer_index,
        orientation: asset.map.orientation,
        map_width: asset.map.width,
        map_height: asset.map.height,
        grid_width: asset.map.tile_width,
        grid_height: asset.map.tile_height,
        tile_width: tileset.tile_width,
        tile_height: tileset.tile_height,
        spacing: tileset.spacing,
    };
    let node = commands.spawn(
        Some(map_node),
        NodeKind::Layer,
        name_layer(layer.name.as_str()),
        Placement::Layer { tilemap, offset_x: layer.offset_x, offset_y: layer.offset_y },
    );
    add_properties(&layer.properties, node, type_registry, commands);
    let key: u32 = ((layer_index as u64) % 0x1_0000_0000u64) as u32;
    match &layer.body {
        LayerBody::Objects(objects) => {
            place_objects(objects, node, type_registry, commands);
            storage.insert(key, node);
        },
        LayerBody::Tiles(grid) => {
            assert(layer_resolved(*asset, asset.map.layers@[layer_index as int]));
            place_tiles(asset, tileset_index, grid, node, commands);
            commands.queue(Mutation::AttachTilemap { node, tilemap });
            storage.insert(key, node);
        },
        LayerBody::Unsupported => {
            commands.report(Diagnostic::UnsupportedLayer { layer_index });
        },
    }
}

fn sync_tileset(
    asset: &TiledMap,
    tileset_index: usize,
    map_node: usize,
    type_registry: &bevy::reflect::TypeRegistry,
    commands: &mut Commands,
    storage: &mut TiledLayersStorage,
)
    requires
        tileset_index < asset.map.tilesets@.len(),
        is_complete(*asset),
    ensures
        (PassState { commands: final(commands)@, storage: final(storage).storage@ }) == tileset_synced(
            PassState { commands: old(commands)@, storage: old(storage).storage@ },
            *asset,
            tileset_index,
            map_node,
            *type_registry,
        ),
{
    let textured = tileset_index < asset.tilemap_textures.len() && asset.tilemap_textures[tileset_index].is_some();
    if !textured {
        commands.report(Diagnostic::MissingTexture { tileset_index });
        return ;
    }
    let ghost before = PassState { commands: commands@, storage: storage.storage@ };
    let mut l: usize = 0;
    while l < asset.map.layers.len()
        invariant
            l <= asset.map.layers.len(),
            tileset_index < asset.map.tilesets@.len(),
            is_complete(*asset),
            (PassState { commands: commands@, storage: storage.storage@ }) == layers_synced(
                before,
                *asset,
                tileset_index,
                l as int,
                map_node,
                *type_registry,
            ),
        decreases asset.map.layers.len() - l,
    {
        sync_layer(asset, tileset_index, l, map_node, type_registry, commands, storage);
        l += 1;
    }
}

/// Plans the rebuild of one map instance.
pub fn sync_map(
    asset: &TiledMap,
    instance: &mut TiledMapBundle,
    type_registry: &bevy::reflect::TypeRegistry,
    commands: &mut Commands,
)
    requires
        is_complete(*asset),
    ensures
        final(instance).tiled_map == old(instance).tiled_map,
        final(instance).entity == old(instance).entity,
        (PassState { commands: final(commands)@, storage: final(instance).storage.storage@ }) == map_synced(
            PassState { commands: old(commands)@, storage: old(instance).storage.storage@ },
            *asset,
            old(instance).entity,
            *type_registry,
        ),
{
    let ghost start = commands@;
    let ghost entries = instance.storage.storage@;
    let map_node = instance.entity;
    let mut k: usize = 0;
    proof {
        assert(commands@.mutations =~= start.mutations + teardown(entries, 0));
    }
    while k < instance.storage.storage.len()
        invariant
            k <= instance.storage.storage.len(),
            instance.storage.storage@ == entries,
            instance.entity == map_node,
            instance.tiled_map == old(instance).tiled_map,
            commands@ == (CommandsView { mutations: start.mutations + teardown(entries, k as int), ..start }),
        decreases instance.storage.storage.len() - k,
    {
        let node = instance.storage.storage[k].node;
        commands.queue(Mutation::DespawnChildren { node });
        commands.queue(Mutation::MarkForRemoval { node });
        proof {
            assert(commands@.mutations =~= start.mutations + teardown(entries, k + 1));
        }
        k += 1;
    }
    add_properties(&asset.map.properties, map_node, type_registry, commands);
    let ghost before = PassState { commands: commands@, storage: entries };
    let mut t: usize = 0;
    while t < asset.map.tilesets.len()
        invariant
            t <= asset.map.tilesets.len(),
            is_complete(*asset),
            instance.entity == map_node,
            instance.tiled_map == old(instance).tiled_map,
            (PassState { commands: commands@, storage: instance.storage.storage@ }) == tilesets_synced(
                before,
                *asset,
                t as int,
                map_node,
                *type_registry,
            ),
        decreases asset.map.tilesets.len() - t,
    {
        sync_tileset(asset, t, map_node, type_registry, commands, &mut instance.storage);
        t += 1;
    }
}

/// Plans one tick: every map that changed is rebuilt for every instance that
/// shows it.
///
/// The changed maps are those that the events leave changed and those of the
/// new instances ([`changed_maps`]). They are gone through in that order, and
/// for each the instances in theirs. An instance whose map is not loaded is
/// left as it is. The mutations are queued in `commands`; the layer nodes
/// planned for an instance are recorded in its storage.
pub fn process_loaded_maps(
    commands: &mut Commands,
    map_events: &Vec<AssetEvent>,
    maps: &Assets,
    map_query: &mut Vec<TiledMapBundle>,
    new_maps: &Vec<u64>,
    type_registry: &bevy::reflect::TypeRegistry,
)
    requires
        all_complete(maps.entries@),
    ensures
        final(map_query)@.len() == old(map_query)@.len(),
        forall|i: int|
            0 <= i < old(map_query)@.len() ==> (#[trigger] final(map_query)@[i]).tiled_map == old(
                map_query,
            )@[i].tiled_map && final(map_query)@[i].entity == old(map_query)@[i].entity,
        (TickState { commands: final(commands)@, storages: storages_of(final(map_query)@) }) == maps_synced(
            TickState { commands: old(commands)@, storages: storages_of(old(map_query)@) },
            old(map_query)@,
            changed_maps(map_events@, new_maps@),
            changed_maps(map_events@, new_maps@).len() as int,
            maps.entries@,
            *type_registry,
        ),
{
    let changed = collect_changed(map_events, new_maps);
    let ghost start = TickState { commands: commands@, storages: storages_of(map_query@) };
    let ghost instances = map_query@;
    let mut c: usize = 0;
    while c < changed.len()
        invariant
            c <= changed.len(),
            all_complete(maps.entries@),
            map_query@.len() == instances.len(),
            forall|i: int|
                0 <= i < instances.len() ==> (#[trigger] map_query@[i]).tiled_map == instances[i].tiled_map
                    && map_query@[i].entity == instances[i].entity,
            (TickState { commands: commands@, storages: storages_of(map_query@) }) == maps_synced(
                start,
                instances,
                changed@,
                c as int,
                maps.entries@,
                *type_registry,
            ),
        decreases changed.len() - c,
    {
        let id = changed[c];
        let ghost at_map = TickState { commands: commands@, storages: storages_of(map_query@) };
        let mut i: usize = 0;
        while i < map_query.len()
            invariant
                i <= map_query.len(),
                all_complete(maps.entries@),
                    map_query@.len() == instances.len(),
                forall|j: int|
                    0 <= j < instances.len() ==> (#[trigger] map_query@[j]).tiled_map == instances[j].tiled_map
                        && map_query@[j].entity == instances[j].entity,
                (TickState { commands: commands@, storages: storages_of(map_query@) }) == instances_synced(
                    at_map,
                    instances,
                    i as int,
                    id,
                    maps.entries@,
                    *type_registry,
                ),
            decreases map_query.len() - i,
        {
            let ghost before = map_query@;
            let ghost st = TickState { commands: commands@, storages: storages_of(map_query@) };
            if map_query[i].tiled_map == id {
                match maps.find(id) {
                    Some(k) => {
                        assert(is_complete(maps.entries@[k as int].asset));
                        sync_map(&maps.entries[k].asset, &mut map_query[i], type_registry, commands);
                        proof {
                            assert(forall|j: int| 0 <= j < before.len() && j != i ==> map_query@[j] == before[j]);
                            let done = map_synced(
                                PassState { commands: st.commands, storage: st.storages[i as int] },
                                maps.entries@[k as int].asset,
                                instances[i as int].entity,
                                *type_registry,
                            );
                            assert(storages_of(map_query@) =~= st.storages.update(i as int, done.storage));
                        }
                    },
                    None => {},
                }
            }
            i += 1;
        }
        c += 1;
    }
}

/// The mutations that take the marked nodes out of the first `upto` nodes of
/// a scene: for each live node that is marked for removal, in the order of
/// the arena, the node leaves with everything below it.
pub open spec fn cleanup(s: Seq<NodeView>, upto: int) -> Seq<MutationView>
    decreases upto,
{
    if upto <= 0 || upto > s.len() {
        Seq::empty()
    } else if s[upto - 1].alive && s[upto - 1].marked {
        cleanup(s, upto - 1).push(MutationView::DespawnSubtree { node: (upto - 1) as usize })
    } else {
        cleanup(s, upto - 1)
    }
}

/// Plans the removal of every node that is marked for it.
pub fn cleanup_maps(commands: &mut Commands, scene: &Scene)
    ensures
        final(commands)@ == (CommandsView {
            mutations: old(commands)@.mutations + cleanup(scene@, scene@.len() as int),
            ..old(commands)@
        }),
{
    let ghost start = commands@;
    let mut e: usize = 0;
    proof {
        assert(commands@.mutations =~= start.mutations + cleanup(scene@, 0));
    }
    while e < scene.nodes.len()
        invariant
            e <= scene.nodes.len(),
            commands@ == (CommandsView { mutations: start.mutations + cleanup(scene@, e as int), ..start }),
        decreases scene.nodes.len() - e,
    {
        if scene.nodes[e].alive && scene.nodes[e].marked {
            commands.queue(Mutation::DespawnSubtree { node: e });
        }
        proof {
            assert(commands@.mutations =~= start.mutations + cleanup(scene@, e + 1));
        }
        e += 1;
    }
}

} // verus!
