use bevy_tiled_blueprints::binder::add_properties;
use bevy_tiled_blueprints::commands::Commands;
use bevy_tiled_blueprints::model::{Property, PropertyValue};
use bevy_tiled_blueprints::scene::{Mutation, NodeKind, Placement, Scene};
use bevy_tiled_blueprints::sync::cleanup_maps;

fn create(node: usize, parent: Option<usize>, kind: NodeKind) -> Mutation {
    Mutation::CreateNode { node, parent, kind, name: format!("n{node}"), placement: Placement::Unplaced }
}

fn attach(node: usize, type_path: &str, description: &str) -> Mutation {
    Mutation::AttachRecord { node, type_path: type_path.to_string(), description: description.to_string() }
}

fn remove(node: usize, type_path: &str) -> Mutation {
    Mutation::RemoveRecord { node, type_path: type_path.to_string() }
}

/// A map node 0 with layers 1 and 2; tiles 3 and 4 under layer 1, an object 5
/// under layer 2, and a node 6 under tile 3.
fn small_scene() -> Scene {
    let mut scene = Scene::new();
    scene.apply_all(&vec![
        create(0, None, NodeKind::MapRoot),
        create(1, Some(0), NodeKind::Layer),
        create(2, Some(0), NodeKind::Layer),
        create(3, Some(1), NodeKind::Tile),
        create(4, Some(1), NodeKind::Tile),
        create(5, Some(2), NodeKind::Object),
        create(6, Some(3), NodeKind::Object),
    ]);
    scene
}

fn alive(scene: &Scene) -> Vec<usize> {
    (0..scene.len()).filter(|i| scene.is_alive(*i)).collect()
}

#[test]
fn new_scene_is_empty() {
    let scene = Scene::new();
    assert_eq!(scene.len(), 0);
    assert!(!scene.is_alive(0));
    assert_eq!(scene.children(0), Vec::<usize>::new());
}

#[test]
fn created_nodes_hang_under_their_parents() {
    let scene = small_scene();
    assert_eq!(scene.len(), 7);
    assert_eq!(alive(&scene), vec![0, 1, 2, 3, 4, 5, 6]);
    assert_eq!(scene.parent(0), None);
    assert_eq!(scene.parent(1), Some(0));
    assert_eq!(scene.parent(4), Some(1));
    assert_eq!(scene.parent(6), Some(3));
    assert_eq!(scene.children(0), vec![1, 2]);
    assert_eq!(scene.children(1), vec![3, 4]);
    assert_eq!(scene.children(5), Vec::<usize>::new());
    assert_eq!(scene.nodes[3].kind, NodeKind::Tile);
    assert!(!scene.nodes[3].marked);
}

#[test]
fn creation_at_another_index_than_the_next_is_ignored() {
    let mut scene = small_scene();
    let before = scene.clone();
    scene.apply(&create(9, Some(0), NodeKind::Layer));
    assert_eq!(scene, before);
    scene.apply(&create(3, Some(0), NodeKind::Layer));
    assert_eq!(scene, before);
}

#[test]
fn creation_under_a_missing_parent_is_ignored() {
    let mut scene = small_scene();
    scene.apply(&Mutation::DespawnSubtree { node: 2 });
    let before = scene.clone();
    scene.apply(&create(7, Some(2), NodeKind::Object));
    assert_eq!(scene, before);
    scene.apply(&create(7, Some(40), NodeKind::Object));
    assert_eq!(scene, before);
}

#[test]
fn despawning_a_subtree_takes_the_root_and_all_below() {
    let mut scene = small_scene();
    scene.apply(&Mutation::DespawnSubtree { node: 1 });
    assert_eq!(alive(&scene), vec![0, 2, 5]);
    assert_eq!(scene.children(0), vec![2]);
    assert_eq!(scene.parent(3), None);
    assert_eq!(scene.len(), 7);
}

#[test]
fn despawning_children_keeps_the_root() {
    let mut scene = small_scene();
    scene.apply(&Mutation::DespawnChildren { node: 1 });
    assert_eq!(alive(&scene), vec![0, 1, 2, 5]);
    assert_eq!(scene.children(1), Vec::<usize>::new());
    scene.apply(&Mutation::DespawnChildren { node: 0 });
    assert_eq!(alive(&scene), vec![0]);
}

#[test]
fn despawning_a_node_outside_the_scene_changes_nothing() {
    let mut scene = small_scene();
    let before = scene.clone();
    scene.apply(&Mutation::DespawnSubtree { node: 70 });
    scene.apply(&Mutation::DespawnChildren { node: 7 });
    assert_eq!(scene, before);
}

#[test]
fn index_of_a_despawned_node_is_not_given_again() {
    let mut scene = small_scene();
    scene.apply(&Mutation::DespawnSubtree { node: 6 });
    scene.apply(&create(6, Some(0), NodeKind::Layer));
    assert!(!scene.is_alive(6));
    scene.apply(&create(7, Some(0), NodeKind::Layer));
    assert!(scene.is_alive(7));
    assert_eq!(scene.children(0), vec![1, 2, 7]);
}

#[test]
fn marking_sets_the_mark_on_a_live_node_only() {
    let mut scene = small_scene();
    scene.apply(&Mutation::MarkForRemoval { node: 2 });
    assert!(scene.nodes[2].marked);
    assert!(scene.is_alive(2));
    scene.apply(&Mutation::DespawnSubtree { node: 1 });
    scene.apply(&Mutation::MarkForRemoval { node: 1 });
    assert!(!scene.nodes[1].marked);
    scene.apply(&Mutation::MarkForRemoval { node: 99 });
    assert_eq!(scene.len(), 7);
}

#[test]
fn attached_record_replaces_the_record_of_its_type() {
    let mut scene = small_scene();
    scene.apply(&attach(5, "i32", "{ \"i32\":(1) }"));
    scene.apply(&attach(5, "u8", "{ \"u8\":(2) }"));
    scene.apply(&attach(5, "i32", "{ \"i32\":(3) }"));
    assert_eq!(scene.record(5, "i32"), Some("{ \"i32\":(3) }".to_string()));
    assert_eq!(scene.record(5, "u8"), Some("{ \"u8\":(2) }".to_string()));
    assert_eq!(scene.nodes[5].records.len(), 2);
    assert_eq!(scene.record(4, "i32"), None);
    assert_eq!(scene.record(5, "u16"), None);
}

#[test]
fn record_of_a_node_that_is_not_alive_is_not_bound() {
    let mut scene = small_scene();
    scene.apply(&Mutation::DespawnSubtree { node: 5 });
    let before = scene.clone();
    scene.apply(&attach(5, "i32", "x"));
    scene.apply(&attach(50, "i32", "x"));
    assert_eq!(scene, before);
    assert_eq!(scene.record(5, "i32"), None);
}

#[test]
fn removal_takes_exactly_one_record() {
    let mut scene = small_scene();
    scene.apply(&attach(5, "i32", "h"));
    scene.apply(&attach(5, "u8", "s"));
    scene.apply(&attach(4, "i32", "other"));
    scene.apply(&remove(5, "i32"));
    assert_eq!(scene.record(5, "i32"), None);
    assert_eq!(scene.record(5, "u8"), Some("s".to_string()));
    assert_eq!(scene.record(4, "i32"), Some("other".to_string()));
}

#[test]
fn removal_of_a_record_that_is_not_bound_changes_nothing() {
    let mut scene = small_scene();
    scene.apply(&attach(5, "u8", "s"));
    let before = scene.clone();
    scene.apply(&remove(5, "u64"));
    assert_eq!(scene, before);
    scene.apply(&remove(3, "u8"));
    assert_eq!(scene, before);
}

#[test]
fn tilemap_is_attached_to_a_live_node() {
    let mut scene = small_scene();
    let tilemap = bevy_tiled_blueprints::scene::Tilemap {
        tileset_index: 2,
        layer_index: 0,
        orientation: bevy_tiled_blueprints::model::Orientation::Orthogonal,
        map_width: 4,
        map_height: 4,
        grid_width: 16,
        grid_height: 16,
        tile_width: 16,
        tile_height: 16,
        spacing: 0,
    };
    scene.apply(&Mutation::AttachTilemap { node: 1, tilemap });
    assert_eq!(scene.nodes[1].tileset, Some(2));
    assert_eq!(scene.nodes[2].tileset, None);
}

#[test]
fn queue_is_applied_in_order() {
    let mut scene = Scene::new();
    scene.apply_all(&vec![
        create(0, None, NodeKind::MapRoot),
        attach(0, "a::A", "first"),
        attach(0, "a::A", "second"),
        remove(0, "a::B"),
        create(1, Some(0), NodeKind::Layer),
        Mutation::DespawnSubtree { node: 1 },
        create(2, Some(1), NodeKind::Tile),
    ]);
    assert_eq!(scene.len(), 2);
    assert_eq!(alive(&scene), vec![0]);
    assert_eq!(scene.record(0, "a::A"), Some("second".to_string()));
}

#[test]
fn binding_the_same_properties_twice_changes_nothing_more() {
    let registry = bevy::reflect::TypeRegistry::new();
    let properties = vec![
        Property { key: "remove:i32".to_string(), value: PropertyValue::Unsupported },
        Property { key: "i32".to_string(), value: PropertyValue::IntValue(4) },
        Property { key: "u8".to_string(), value: PropertyValue::IntValue(2) },
        Property { key: "remove:u16".to_string(), value: PropertyValue::Unsupported },
        Property { key: "u8".to_string(), value: PropertyValue::IntValue(9) },
    ];
    let mut scene = small_scene();
    scene.apply(&attach(5, "u16", "old"));
    let mut commands = Commands::new(scene.len());
    add_properties(&properties, 5, &registry, &mut commands);
    scene.apply_all(&commands.mutations);
    assert_eq!(scene.record(5, "i32"), Some("{ \"i32\":(4) }".to_string()));
    assert_eq!(scene.record(5, "u8"), Some("{ \"u8\":(9) }".to_string()));
    assert_eq!(scene.record(5, "u16"), None);
    let once: Vec<Option<String>> =
        ["i32", "u8", "u16"].iter().map(|p| scene.record(5, p)).collect();
    scene.apply_all(&commands.mutations);
    let twice: Vec<Option<String>> =
        ["i32", "u8", "u16"].iter().map(|p| scene.record(5, p)).collect();
    assert_eq!(once, twice);
    assert_eq!(scene.nodes[5].records.len(), 2);
}

#[test]
fn cleanup_takes_out_the_marked_nodes_and_all_below() {
    let mut scene = small_scene();
    scene.apply(&Mutation::MarkForRemoval { node: 1 });
    let mut commands = Commands::new(scene.len());
    cleanup_maps(&mut commands, &scene);
    assert_eq!(commands.mutations, vec![Mutation::DespawnSubtree { node: 1 }]);
    scene.apply_all(&commands.mutations);
    assert_eq!(alive(&scene), vec![0, 2, 5]);
}

#[test]
fn cleanup_of_a_scene_without_marks_plans_nothing() {
    let scene = small_scene();
    let mut commands = Commands::new(scene.len());
    cleanup_maps(&mut commands, &scene);
    assert!(commands.mutations.is_empty());
    assert!(commands.diagnostics.is_empty());
}

#[test]
fn cleanup_passes_over_marked_nodes_that_are_gone() {
    let mut scene = small_scene();
    scene.apply(&Mutation::MarkForRemoval { node: 3 });
    scene.apply(&Mutation::MarkForRemoval { node: 2 });
    scene.apply(&Mutation::DespawnSubtree { node: 3 });
    let mut commands = Commands::new(scene.len());
    cleanup_maps(&mut commands, &scene);
    assert_eq!(commands.mutations, vec![Mutation::DespawnSubtree { node: 2 }]);
}

#[test]
fn creation_is_admitted_at_the_next_index_under_a_live_parent() {
    let mut scene = small_scene();
    assert!(scene.admits(7, Some(0)));
    assert!(scene.admits(7, None));
    assert!(!scene.admits(6, Some(0)));
    assert!(!scene.admits(8, Some(0)));
    assert!(!scene.admits(7, Some(7)));
    scene.apply(&Mutation::DespawnSubtree { node: 2 });
    assert!(!scene.admits(7, Some(5)));
    assert!(scene.admits(7, Some(1)));
}
