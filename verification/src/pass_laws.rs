//! What holds of a pass: it only adds to the queue, and after it and the
//! cleanup nothing is left of the layer nodes that were recorded before.

use vstd::prelude::*;
use crate::binder::{binding_diagnostics, binding_mutations, bound};
use crate::commands::{CommandsView, DiagnosticView};
use crate::loader::{slot, texture_at, TiledMap};
use crate::model::{LayerBody, Object, TileCell, TileGrid};
use crate::scene::{in_subtree, is_live, run, step, MutationView, NodeKind, NodeView, Placement};
use crate::scene_laws::{
    follows,
    is_sound,
    lemma_child_on_path,
    lemma_run_follows,
    lemma_run_joined,
    lemma_step_follows,
    lemma_subtree_is_stable,
};
use crate::storage::{recorded, LayerEntry};
use crate::sync::{
    cleanup,
    layer_name,
    layer_synced,
    layers_synced,
    map_synced,
    objects_placed,
    row_placed,
    rows_placed,
    teardown,
    tile_placed,
    tilemap_of,
    tileset_synced,
    tilesets_synced,
    PassState,
};

verus! {

/// Whether the queue `after` is the queue `before` with more at its end.
pub open spec fn continues(before: Seq<MutationView>, after: Seq<MutationView>) -> bool {
    &&& before.len() <= after.len()
    &&& forall|i: int| 0 <= i < before.len() ==> after[i] == before[i]
}

/// What a queue has more than the queue that it continues.
pub open spec fn added(before: Seq<MutationView>, after: Seq<MutationView>) -> Seq<MutationView> {
    after.skip(before.len() as int)
}

proof fn lemma_continues_splits(before: Seq<MutationView>, after: Seq<MutationView>)
    requires
        continues(before, after),
    ensures
        after == before + added(before, after),
{
    assert(after =~= before + added(before, after));
}

proof fn lemma_objects_continue(
    c: CommandsView,
    objects: Seq<Object>,
    upto: int,
    layer_node: usize,
    registry: bevy::reflect::TypeRegistry,
)
    ensures
        continues(c.mutations, objects_placed(c, objects, upto, layer_node, registry).mutations),
    decreases upto,
{
    if 0 < upto <= objects.len() {
        lemma_objects_continue(c, objects, upto - 1, layer_node, registry);
    }
}

proof fn lemma_row_continues(
    c: CommandsView,
    asset: TiledMap,
    tileset_index: usize,
    grid: TileGrid,
    layer_node: usize,
    row: u32,
    upto: int,
)
    ensures
        continues(c.mutations, row_placed(c, asset, tileset_index, grid, layer_node, row, upto).mutations),
    decreases upto,
{
    if 0 < upto <= asset.map.width {
        lemma_row_continues(c, asset, tileset_index, grid, layer_node, row, upto - 1);
    }
}

proof fn lemma_rows_continue(
    c: CommandsView,
    asset: TiledMap,
    tileset_index: usize,
    grid: TileGrid,
    layer_node: usize,
    upto: int,
)
    ensures
        continues(c.mutations, rows_placed(c, asset, tileset_index, grid, layer_node, upto).mutations),
    decreases upto,
{
    if 0 < upto <= asset.map.height {
        lemma_rows_continue(c, asset, tileset_index, grid, layer_node, upto - 1);
        lemma_row_continues(
            rows_placed(c, asset, tileset_index, grid, layer_node, upto - 1),
            asset,
            tileset_index,
            grid,
            layer_node,
            (upto - 1) as u32,
            asset.map.width as int,
        );
    }
}

proof fn lemma_layer_continues(
    st: PassState,
    asset: TiledMap,
    tileset_index: usize,
    layer_index: usize,
    map_node: usize,
    registry: bevy::reflect::TypeRegistry,
)
    ensures
        continues(
            st.commands.mutations,
            layer_synced(st, asset, tileset_index, layer_index, map_node, registry).commands.mutations,
        ),
{
    let layer = asset.map.layers@[layer_index as int];
    let node = st.commands.next_node;
    let named = bound(
        st.commands.spawned(
            Some(map_node),
            NodeKind::Layer,
            layer_name(layer.name@),
            Placement::Layer {
                tilemap: tilemap_of(asset, tileset_index, layer_index),
                offset_x: layer.offset_x,
                offset_y: layer.offset_y,
            },
        ),
        layer.properties@,
        node,
        registry,
    );
    match layer.body {
        LayerBody::Objects(objects) => {
            lemma_objects_continue(named, objects@, objects@.len() as int, node, registry);
        },
        LayerBody::Tiles(grid) => {
            lemma_rows_continue(named, asset, tileset_index, grid, node, asset.map.height as int);
        },
        LayerBody::Unsupported => {},
    }
}

proof fn lemma_layers_continue(
    st: PassState,
    asset: TiledMap,
    tileset_index: usize,
    upto: int,
    map_node: usize,
    registry: bevy::reflect::TypeRegistry,
)
    ensures
        continues(
            st.commands.mutations,
            layers_synced(st, asset, tileset_index, upto, map_node, registry).commands.mutations,
        ),
    decreases upto,
{
    if 0 < upto <= asset.map.layers@.len() {
        lemma_layers_continue(st, asset, tileset_index, upto - 1, map_node, registry);
        lemma_layer_continues(
            layers_synced(st, asset, tileset_index, upto - 1, map_node, registry),
            asset,
            tileset_index,
            (upto - 1) as usize,
            map_node,
            registry,
        );
    }
}

proof fn lemma_tilesets_continue(
    st: PassState,
    asset: TiledMap,
    upto: int,
    map_node: usize,
    registry: bevy::reflect::TypeRegistry,
)
    ensures
        continues(st.commands.mutations, tilesets_synced(st, asset, upto, map_node, registry).commands.mutations),
    decreases upto,
{
    if 0 < upto <= asset.map.tilesets@.len() {
        lemma_tilesets_continue(st, asset, upto - 1, map_node, registry);
        let mid = tilesets_synced(st, asset, upto - 1, map_node, registry);
        lemma_layers_continue(
            mid,
            asset,
            (upto - 1) as usize,
            asset.map.layers@.len() as int,
            map_node,
            registry,
        );
    }
}

/// The rebuild of a map only adds to the queue, and what it adds begins with
/// the teardown of the layer nodes that were recorded.
pub proof fn lemma_rebuild_begins_with_teardown(
    st: PassState,
    asset: TiledMap,
    map_node: usize,
    registry: bevy::reflect::TypeRegistry,
)
    ensures
        continues(
            st.commands.mutations + teardown(st.storage, st.storage.len() as int),
            map_synced(st, asset, map_node, registry).commands.mutations,
        ),
{
    let torn = CommandsView {
        mutations: st.commands.mutations + teardown(st.storage, st.storage.len() as int),
        ..st.commands
    };
    let named = PassState {
        commands: bound(torn, asset.map.properties@, map_node, registry),
        storage: st.storage,
    };
    lemma_tilesets_continue(named, asset, asset.map.tilesets@.len() as int, map_node, registry);
}

/// Whether nothing of the subtree of `node`, as it was in `before`, is alive
/// in `after`, but for `node` itself, which is then marked for removal.
pub open spec fn torn_down(before: Seq<NodeView>, after: Seq<NodeView>, node: int) -> bool {
    forall|i: int|
        0 <= i < before.len() && in_subtree(before, node, i) ==> (!(#[trigger] after[i]).alive || (i == node
            && after[i].marked))
}

proof fn lemma_torn_down_lasts(before: Seq<NodeView>, mid: Seq<NodeView>, after: Seq<NodeView>, node: int)
    requires
        follows(before, mid),
        follows(mid, after),
        torn_down(before, mid, node),
    ensures
        torn_down(before, after, node),
{
    assert forall|i: int| 0 <= i < before.len() && in_subtree(before, node, i) implies (!(#[trigger] after[i]).alive
        || (i == node && after[i].marked)) by {
        assert(!mid[i].alive || (i == node && mid[i].marked));
    }
}

proof fn lemma_follows_chains(a: Seq<NodeView>, b: Seq<NodeView>, c: Seq<NodeView>)
    requires
        follows(a, b),
        follows(b, c),
    ensures
        follows(a, c),
{
    assert forall|i: int| 0 <= i < a.len() implies {
        &&& (#[trigger] c[i]).parent == a[i].parent
        &&& c[i].kind == a[i].kind
        &&& c[i].name == a[i].name
        &&& c[i].placement == a[i].placement
        &&& (c[i].alive ==> a[i].alive)
        &&& (a[i].marked ==> c[i].marked)
    } by {
        assert(b[i].parent == a[i].parent);
    }
}

/// The teardown leaves nothing alive below a recorded layer node, and the
/// node itself marked for removal if it is alive.
pub proof fn lemma_teardown_tears_down(s: Seq<NodeView>, entries: Seq<LayerEntry>, upto: int)
    requires
        0 <= upto <= entries.len(),
    ensures
        follows(s, run(s, teardown(entries, upto))),
        forall|k: int|
            0 <= k < upto ==> torn_down(s, run(s, teardown(entries, upto)), (#[trigger] entries[k]).node as int),
    decreases upto,
{
    lemma_run_follows(s, teardown(entries, upto));
    if upto > 0 {
        lemma_teardown_tears_down(s, entries, upto - 1);
        let node = entries[upto - 1].node;
        let front = teardown(entries, upto - 1);
        let emptied = front.push(MutationView::DespawnChildren { node });
        let all = teardown(entries, upto);
        assert(all.drop_last() =~= emptied);
        assert(emptied.drop_last() =~= front);
        let s0 = run(s, front);
        let s1 = step(s0, MutationView::DespawnChildren { node });
        let s2 = step(s1, MutationView::MarkForRemoval { node });
        assert(run(s, emptied) == s1);
        assert(run(s, all) == s2);
        lemma_step_follows(s0, MutationView::DespawnChildren { node });
        lemma_step_follows(s1, MutationView::MarkForRemoval { node });
        lemma_follows_chains(s, s0, s1);
        lemma_follows_chains(s0, s1, s2);
        assert forall|k: int| 0 <= k < upto implies torn_down(s, s2, (#[trigger] entries[k]).node as int) by {
            if k < upto - 1 {
                lemma_torn_down_lasts(s, s0, s2, entries[k].node as int);
            } else {
                assert forall|i: int| 0 <= i < s.len() && in_subtree(s, node as int, i) implies (!(
                #[trigger] s2[i]).alive || (i == node && s2[i].marked)) by {
                    lemma_subtree_is_stable(s, s0, node as int, i);
                    if i != node {
                        assert(!s1[i].alive);
                    }
                }
            }
        }
    }
}

/// After the cleanup of a scene, no node that was alive and marked for
/// removal is alive, nor any node below one.
pub proof fn lemma_cleanup_clears(s: Seq<NodeView>, upto: int)
    requires
        0 <= upto <= s.len() <= usize::MAX,
    ensures
        follows(s, run(s, cleanup(s, upto))),
        forall|j: int, i: int|
            0 <= j < upto && s[j].alive && s[j].marked && 0 <= i < s.len() && #[trigger] in_subtree(s, j, i) ==> !run(
                s,
                cleanup(s, upto),
            )[i].alive,
    decreases upto,
{
    lemma_run_follows(s, cleanup(s, upto));
    if upto > 0 {
        lemma_cleanup_clears(s, upto - 1);
        let front = cleanup(s, upto - 1);
        let s0 = run(s, front);
        if s[upto - 1].alive && s[upto - 1].marked {
            let m = MutationView::DespawnSubtree { node: (upto - 1) as usize };
            assert(cleanup(s, upto).drop_last() =~= front);
            let s1 = step(s0, m);
            assert(run(s, cleanup(s, upto)) == s1);
            lemma_step_follows(s0, m);
            assert forall|j: int, i: int|
                0 <= j < upto && s[j].alive && s[j].marked && 0 <= i < s.len() && #[trigger] in_subtree(
                    s,
                    j,
                    i,
                ) implies !s1[i].alive by {
                if j < upto - 1 {
                    assert(!s0[i].alive);
                } else {
                    lemma_subtree_is_stable(s, s0, j, i);
                }
            }
        }
    }
}

/// A reload replaces the nodes of every recorded layer. When a map is
/// rebuilt, the mutations of the rebuild are applied, and then the cleanup
/// is planned and applied, no node that was recorded for a layer is alive
/// any more, nor any tile, object or other node that was below one.
pub proof fn lemma_reload_replaces_recorded_layers(
    s: Seq<NodeView>,
    st: PassState,
    asset: TiledMap,
    map_node: usize,
    registry: bevy::reflect::TypeRegistry,
)
    requires
        s.len() <= usize::MAX,
        st.commands.mutations.len() == 0,
    ensures
        ({
            let rebuilt = run(s, map_synced(st, asset, map_node, registry).commands.mutations);
            let cleaned = run(rebuilt, cleanup(rebuilt, rebuilt.len() as int));
            forall|k: int, i: int|
                0 <= k < st.storage.len() && 0 <= i < s.len() && #[trigger] in_subtree(
                    s,
                    (#[trigger] st.storage[k]).node as int,
                    i,
                ) ==> !cleaned[i].alive
        }),
{
    let torn = teardown(st.storage, st.storage.len() as int);
    let plan = map_synced(st, asset, map_node, registry).commands.mutations;
    lemma_rebuild_begins_with_teardown(st, asset, map_node, registry);
    assert(st.commands.mutations + torn =~= torn);
    lemma_continues_splits(torn, plan);
    let rest = added(torn, plan);
    lemma_run_joined(s, torn, rest);
    let s0 = run(s, torn);
    let rebuilt = run(s, plan);
    assert(rebuilt == run(s0, rest));
    lemma_teardown_tears_down(s, st.storage, st.storage.len() as int);
    lemma_run_follows(s0, rest);
    lemma_run_follows(s, plan);
    lemma_follows_chains(s, s0, rebuilt);
    let cleaned = run(rebuilt, cleanup(rebuilt, rebuilt.len() as int));
    lemma_cleanup_clears(rebuilt, rebuilt.len() as int);
    assert forall|k: int, i: int|
        0 <= k < st.storage.len() && 0 <= i < s.len() && #[trigger] in_subtree(
            s,
            (#[trigger] st.storage[k]).node as int,
            i,
        ) implies !cleaned[i].alive by {
        let node = st.storage[k].node as int;
        lemma_torn_down_lasts(s, s0, rebuilt, node);
        assert(!rebuilt[i].alive || (i == node && rebuilt[i].marked));
        if rebuilt[i].alive {
            assert(in_subtree(rebuilt, i, i));
        }
    }
}

/// Whether every live child of the map's node is recorded as a layer node.
pub open spec fn children_recorded(s: Seq<NodeView>, map_node: usize, storage: Seq<LayerEntry>) -> bool {
    forall|c: int|
        0 <= c < s.len() && (#[trigger] s[c]).alive && s[c].parent == Some(map_node) ==> exists|k: int|
            0 <= k < storage.len() && (#[trigger] storage[k]).node == c
}

/// After a reload nothing of the earlier state of a map is left under its
/// node. Where the tree is sound and every live child of the map's node is
/// recorded as a layer node, then once the rebuild and the cleanup are
/// applied no node that was in the scene below the map's node is alive.
pub proof fn lemma_reload_leaves_nothing_below(
    s: Seq<NodeView>,
    st: PassState,
    asset: TiledMap,
    map_node: usize,
    registry: bevy::reflect::TypeRegistry,
)
    requires
        s.len() <= usize::MAX,
        st.commands.mutations.len() == 0,
        is_sound(s),
        children_recorded(s, map_node, st.storage),
    ensures
        ({
            let rebuilt = run(s, map_synced(st, asset, map_node, registry).commands.mutations);
            let cleaned = run(rebuilt, cleanup(rebuilt, rebuilt.len() as int));
            forall|i: int|
                0 <= i < s.len() && i != map_node && #[trigger] in_subtree(s, map_node as int, i) ==> !cleaned[i].alive
        }),
{
    let rebuilt = run(s, map_synced(st, asset, map_node, registry).commands.mutations);
    let cleaned = run(rebuilt, cleanup(rebuilt, rebuilt.len() as int));
    lemma_reload_replaces_recorded_layers(s, st, asset, map_node, registry);
    lemma_run_follows(s, map_synced(st, asset, map_node, registry).commands.mutations);
    lemma_run_follows(rebuilt, cleanup(rebuilt, rebuilt.len() as int));
    assert forall|i: int|
        0 <= i < s.len() && i != map_node && #[trigger] in_subtree(s, map_node as int, i) implies !cleaned[i].alive by {
        if s[i].alive {
            let child = lemma_child_on_path(s, map_node as int, i);
            let k = choose|k: int| 0 <= k < st.storage.len() && (#[trigger] st.storage[k]).node == child;
            assert(in_subtree(s, st.storage[k].node as int, i));
        } else {
            assert(!rebuilt[i].alive);
        }
    }
}

/// A tile lands in the mirrored row: the tile in column `col` of map row
/// `row` gets the next node, under the layer's node, placed in the same
/// column and in the scene row that counts `row` from the other end.
pub proof fn lemma_tile_lands_in_mirrored_row(
    c: CommandsView,
    asset: TiledMap,
    tileset_index: usize,
    grid: TileGrid,
    layer_node: usize,
    col: u32,
    row: u32,
)
    requires
        row < asset.map.height,
        holds_tile_of(grid.cell(col as int, row as int), tileset_index),
        c.next_node < usize::MAX,
    ensures
        ({
            let placed = tile_placed(c, asset, tileset_index, grid, layer_node, col, row);
            &&& placed.mutations.drop_last() == c.mutations
            &&& placed.next_node == c.next_node + 1
            &&& match placed.mutations.last() {
                MutationView::CreateNode { node, parent, kind, placement, .. } => {
                    &&& node == c.next_node
                    &&& parent == Some(layer_node)
                    &&& kind == NodeKind::Tile
                    &&& match placement {
                        Placement::Tile { x, y, .. } => x == col && y == asset.map.height - 1 - row,
                        _ => false,
                    }
                },
                _ => false,
            }
        }),
{
    let placed = tile_placed(c, asset, tileset_index, grid, layer_node, col, row);
    assert(placed.mutations.drop_last() =~= c.mutations);
}

/// Whether a map is one full grid: one tileset, which has a texture, and one
/// layer, a finite grid in which every cell of the map holds a tile of that
/// tileset; and no properties.
pub open spec fn is_full_grid(asset: TiledMap) -> bool {
    &&& asset.map.tilesets@.len() == 1
    &&& texture_at(asset, 0) is Some
    &&& asset.map.properties@.len() == 0
    &&& asset.map.layers@.len() == 1
    &&& asset.map.layers@[0].properties@.len() == 0
    &&& asset.map.layers@[0].body is Tiles
    &&& forall|col: int, row: int|
        0 <= col < asset.map.width && 0 <= row < asset.map.height ==> holds_tile_of(
            #[trigger] asset.map.layers@[0].body->Tiles_0.cell(col, row),
            0,
        )
}

/// Whether a cell holds a tile of the tileset.
pub open spec fn holds_tile_of(cell: Option<TileCell>, tileset_index: usize) -> bool {
    match cell {
        Some(tile) => tile.tileset_index == tileset_index,
        None => false,
    }
}

/// Whether `after` is the scene `s` with one more layer node under the map's
/// node and `tiles` tile nodes under that layer node, and nothing else: the
/// nodes of `s` are as they were, the layer node has the next index, and the
/// tile nodes have the indices behind it.
pub open spec fn is_built(s: Seq<NodeView>, after: Seq<NodeView>, map_node: usize, tiles: int) -> bool {
    &&& after.len() == s.len() + 1 + tiles
    &&& forall|i: int| 0 <= i < s.len() ==> #[trigger] after[i] == s[i]
    &&& after[s.len() as int].alive
    &&& after[s.len() as int].kind == NodeKind::Layer
    &&& after[s.len() as int].parent == Some(map_node)
    &&& forall|i: int|
        s.len() < i < after.len() ==> (#[trigger] after[i]).alive && after[i].kind == NodeKind::Tile
            && after[i].parent == Some(s.len() as usize)
}

proof fn lemma_row_builds(
    s: Seq<NodeView>,
    c: CommandsView,
    asset: TiledMap,
    grid: TileGrid,
    map_node: usize,
    tiles: int,
    row: u32,
    upto: int,
)
    requires
        0 <= tiles,
        0 <= upto <= asset.map.width,
        row < asset.map.height,
        is_built(s, run(s, c.mutations), map_node, tiles),
        c.next_node == s.len() + 1 + tiles,
        !c.exhausted,
        s.len() + 1 + tiles + upto < usize::MAX,
        forall|col: int| 0 <= col < upto ==> holds_tile_of(#[trigger] grid.cell(col, row as int), 0),
    ensures
        ({
            let placed = row_placed(c, asset, 0, grid, s.len() as usize, row, upto);
            &&& is_built(s, run(s, placed.mutations), map_node, tiles + upto)
            &&& placed.next_node == s.len() + 1 + tiles + upto
            &&& !placed.exhausted
            &&& placed.diagnostics == c.diagnostics
        }),
    decreases upto,
{
    if upto > 0 {
        lemma_row_builds(s, c, asset, grid, map_node, tiles, row, upto - 1);
        let before = row_placed(c, asset, 0, grid, s.len() as usize, row, upto - 1);
        let placed = row_placed(c, asset, 0, grid, s.len() as usize, row, upto);
        assert(holds_tile_of(grid.cell(upto - 1, row as int), 0));
        assert(placed == tile_placed(before, asset, 0, grid, s.len() as usize, (upto - 1) as u32, row));
        assert(placed.mutations.drop_last() =~= before.mutations);
        let cur = run(s, before.mutations);
        assert(run(s, placed.mutations) == step(cur, placed.mutations.last()));
    }
}

proof fn lemma_rows_build(
    s: Seq<NodeView>,
    c: CommandsView,
    asset: TiledMap,
    grid: TileGrid,
    map_node: usize,
    upto: int,
)
    requires
        0 <= upto <= asset.map.height,
        is_built(s, run(s, c.mutations), map_node, 0),
        c.next_node == s.len() + 1,
        !c.exhausted,
        s.len() + 1 + asset.map.width * asset.map.height < usize::MAX,
        forall|col: int, row: int|
            0 <= col < asset.map.width && 0 <= row < asset.map.height ==> holds_tile_of(
                #[trigger] grid.cell(col, row),
                0,
            ),
    ensures
        ({
            let placed = rows_placed(c, asset, 0, grid, s.len() as usize, upto);
            &&& is_built(s, run(s, placed.mutations), map_node, asset.map.width * upto)
            &&& placed.next_node == s.len() + 1 + asset.map.width * upto
            &&& !placed.exhausted
            &&& placed.diagnostics == c.diagnostics
        }),
    decreases upto,
{
    let width = asset.map.width as int;
    let height = asset.map.height as int;
    if upto > 0 {
        lemma_rows_build(s, c, asset, grid, map_node, upto - 1);
        let before = rows_placed(c, asset, 0, grid, s.len() as usize, upto - 1);
        assert(width * (upto - 1) + width == width * upto) by (nonlinear_arith);
        assert(width * upto <= width * height) by (nonlinear_arith)
            requires
                0 <= upto <= height,
                0 <= width,
        ;
        assert(0 <= width * (upto - 1)) by (nonlinear_arith)
            requires
                0 < upto,
                0 <= width,
        ;
        lemma_row_builds(s, before, asset, grid, map_node, width * (upto - 1), (upto - 1) as u32, width);
    } else {
        assert(width * 0 == 0) by (nonlinear_arith);
    }
}

/// A full grid of `width` by `height` cells is built as one layer node under
/// the map's node and `width * height` tile nodes under that layer node.
/// When the rebuild of a new instance of such a map is applied to a scene in
/// which the instance's node is alive, the scene has exactly these nodes
/// more, all alive; the nodes that were there are as they were; and the
/// layer node is recorded for the layer.
pub proof fn lemma_full_grid_is_built(
    s: Seq<NodeView>,
    st: PassState,
    asset: TiledMap,
    map_node: usize,
    registry: bevy::reflect::TypeRegistry,
)
    requires
        is_full_grid(asset),
        is_live(s, map_node as int),
        st.commands.mutations.len() == 0,
        st.commands.next_node == s.len(),
        !st.commands.exhausted,
        st.storage.len() == 0,
        s.len() + 1 + asset.map.width * asset.map.height < usize::MAX,
    ensures
        ({
            let done = map_synced(st, asset, map_node, registry);
            &&& is_built(s, run(s, done.commands.mutations), map_node, asset.map.width * asset.map.height)
            &&& done.storage == seq![LayerEntry { layer_index: 0, node: s.len() as usize }]
            &&& done.commands.diagnostics == st.commands.diagnostics
            &&& !done.commands.exhausted
        }),
{
    let c = st.commands;
    let layer = asset.map.layers@[0];
    let grid = layer.body->Tiles_0;
    let node = s.len() as usize;
    assert(teardown(st.storage, 0) =~= Seq::<MutationView>::empty());
    assert(c.mutations + teardown(st.storage, st.storage.len() as int) =~= c.mutations);
    let torn = CommandsView { mutations: c.mutations + teardown(st.storage, st.storage.len() as int), ..c };
    assert(torn == c);
    assert(binding_mutations(asset.map.properties@, map_node, registry) =~= Seq::<MutationView>::empty());
    assert(binding_diagnostics(asset.map.properties@, registry) =~= Seq::<DiagnosticView>::empty());
    assert(c.mutations + Seq::<MutationView>::empty() =~= c.mutations);
    assert(c.diagnostics + Seq::<DiagnosticView>::empty() =~= c.diagnostics);
    let bound_map = bound(torn, asset.map.properties@, map_node, registry);
    assert(bound_map == c);
    let start = PassState { commands: c, storage: st.storage };
    assert(tilesets_synced(start, asset, 0, map_node, registry) == start);
    assert(layers_synced(start, asset, 0, 0, map_node, registry) == start);
    let spawned = c.spawned(
        Some(map_node),
        NodeKind::Layer,
        layer_name(layer.name@),
        Placement::Layer { tilemap: tilemap_of(asset, 0, 0), offset_x: layer.offset_x, offset_y: layer.offset_y },
    );
    assert(binding_mutations(layer.properties@, node, registry) =~= Seq::<MutationView>::empty());
    assert(binding_diagnostics(layer.properties@, registry) =~= Seq::<DiagnosticView>::empty());
    assert(spawned.mutations + Seq::<MutationView>::empty() =~= spawned.mutations);
    assert(spawned.diagnostics + Seq::<DiagnosticView>::empty() =~= spawned.diagnostics);
    let named = bound(spawned, layer.properties@, node, registry);
    assert(named == spawned);
    assert(spawned.mutations.drop_last() =~= c.mutations);
    assert(run(s, c.mutations) == s);
    assert(run(s, spawned.mutations) == step(s, spawned.mutations.last()));
    assert(is_built(s, run(s, named.mutations), map_node, 0));
    lemma_rows_build(s, named, asset, grid, map_node, asset.map.height as int);
    let placed = rows_placed(named, asset, 0, grid, node, asset.map.height as int);
    let attach = MutationView::AttachTilemap { node, tilemap: tilemap_of(asset, 0, 0) };
    let finished = placed.queued(attach);
    assert(finished.mutations.drop_last() =~= placed.mutations);
    assert(run(s, finished.mutations) == step(run(s, placed.mutations), attach));
    let done_layer = layer_synced(start, asset, 0, 0, map_node, registry);
    assert(done_layer.commands == finished);
    assert(recorded(st.storage, slot(0), node) =~= seq![LayerEntry { layer_index: 0, node }]);
    assert(layers_synced(start, asset, 0, 1, map_node, registry) == done_layer);
    assert(tileset_synced(start, asset, 0, map_node, registry) == done_layer);
    assert(tilesets_synced(start, asset, 1, map_node, registry) == done_layer);
    assert(map_synced(st, asset, map_node, registry) == done_layer);
}

} // verus!
