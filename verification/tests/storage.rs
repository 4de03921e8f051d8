use bevy_tiled_blueprints::storage::{collect_changed, AssetEvent, Assets, LayerEntry, TiledLayersStorage};

#[test]
fn storage_records_one_node_per_layer() {
    let mut storage = TiledLayersStorage::new();
    assert_eq!(storage.get(0), None);
    storage.insert(0, 11);
    storage.insert(1, 12);
    assert_eq!(storage.get(0), Some(11));
    assert_eq!(storage.get(1), Some(12));
    assert_eq!(storage.get(2), None);
}

#[test]
fn recording_a_layer_again_overwrites_in_place() {
    let mut storage = TiledLayersStorage::new();
    storage.insert(0, 11);
    storage.insert(1, 12);
    storage.insert(0, 20);
    assert_eq!(
        storage.storage,
        vec![LayerEntry { layer_index: 0, node: 20 }, LayerEntry { layer_index: 1, node: 12 }]
    );
    assert_eq!(storage.get(0), Some(20));
}

#[test]
fn added_and_modified_maps_are_changed() {
    let events = vec![AssetEvent::Added { id: 1 }, AssetEvent::Modified { id: 2 }, AssetEvent::Other];
    assert_eq!(collect_changed(&events, &Vec::new()), vec![1, 2]);
}

#[test]
fn map_is_named_once_however_often_it_changed() {
    let events = vec![
        AssetEvent::Added { id: 1 },
        AssetEvent::Modified { id: 2 },
        AssetEvent::Modified { id: 1 },
        AssetEvent::Added { id: 2 },
    ];
    assert_eq!(collect_changed(&events, &vec![2, 3, 3]), vec![1, 2, 3]);
}

#[test]
fn removal_cancels_the_changes_before_it() {
    let events = vec![
        AssetEvent::Added { id: 1 },
        AssetEvent::Modified { id: 2 },
        AssetEvent::Modified { id: 1 },
        AssetEvent::Removed { id: 1 },
    ];
    assert_eq!(collect_changed(&events, &Vec::new()), vec![2]);
}

#[test]
fn change_after_a_removal_counts() {
    let events = vec![AssetEvent::Modified { id: 1 }, AssetEvent::Removed { id: 1 }, AssetEvent::Added { id: 1 }];
    assert_eq!(collect_changed(&events, &Vec::new()), vec![1]);
}

#[test]
fn removal_of_an_unchanged_map_changes_nothing() {
    let events = vec![AssetEvent::Added { id: 5 }, AssetEvent::Removed { id: 9 }];
    assert_eq!(collect_changed(&events, &Vec::new()), vec![5]);
}

#[test]
fn maps_of_new_instances_are_changed_after_the_events() {
    let events = vec![AssetEvent::Removed { id: 4 }, AssetEvent::Added { id: 7 }];
    assert_eq!(collect_changed(&events, &vec![4, 7, 1]), vec![7, 4, 1]);
}

#[test]
fn quiet_tick_changes_no_map() {
    assert_eq!(collect_changed(&Vec::new(), &Vec::new()), Vec::<u64>::new());
    assert_eq!(collect_changed(&vec![AssetEvent::Other, AssetEvent::Other], &Vec::new()), Vec::<u64>::new());
}

#[test]
fn no_assets_find_nothing() {
    let assets = Assets::new();
    assert_eq!(assets.find(0), None);
}

#[test]
fn default_storage_is_empty() {
    assert_eq!(TiledLayersStorage::default(), TiledLayersStorage::new());
    assert!(TiledLayersStorage::default().storage.is_empty());
}
