use bevy_tiled_blueprints::model::{mapped_row, Scalar, TileCell, TileGrid};

fn tile(tile_id: u32) -> Option<TileCell> {
    Some(TileCell { tileset_index: 0, tile_id, flip_h: false, flip_v: false, flip_d: false })
}

#[test]
fn first_map_row_is_last_scene_row() {
    assert_eq!(mapped_row(4, 0), 3);
    assert_eq!(mapped_row(4, 3), 0);
    assert_eq!(mapped_row(4, 1), 2);
}

#[test]
fn single_row_is_its_own_mirror() {
    assert_eq!(mapped_row(1, 0), 0);
}

#[test]
fn mirroring_a_row_twice_gives_it_back() {
    for height in 1..6u32 {
        for row in 0..height {
            assert_eq!(mapped_row(height, mapped_row(height, row)), row);
        }
    }
}

#[test]
fn grid_cells_are_read_row_by_row() {
    let grid = TileGrid { width: 3, height: 2, cells: vec![tile(1), tile(2), None, tile(4), tile(5), tile(6)] };
    assert_eq!(grid.get_tile(0, 0), tile(1));
    assert_eq!(grid.get_tile(1, 0), tile(2));
    assert_eq!(grid.get_tile(2, 0), None);
    assert_eq!(grid.get_tile(0, 1), tile(4));
    assert_eq!(grid.get_tile(2, 1), tile(6));
}

#[test]
fn cells_outside_the_grid_are_empty() {
    let grid = TileGrid { width: 2, height: 2, cells: vec![tile(1), tile(2), tile(3), tile(4)] };
    assert_eq!(grid.get_tile(2, 0), None);
    assert_eq!(grid.get_tile(0, 2), None);
    assert_eq!(grid.get_tile(u32::MAX, u32::MAX), None);
}

#[test]
fn cells_that_were_never_stored_are_empty() {
    let grid = TileGrid { width: 2, height: 2, cells: vec![tile(1), tile(2), tile(3)] };
    assert_eq!(grid.get_tile(0, 1), tile(3));
    assert_eq!(grid.get_tile(1, 1), None);
}

#[test]
fn scalar_keeps_its_bits() {
    let x = Scalar::from_bits(10.5f32.to_bits());
    assert_eq!(f32::from_bits(x.to_bits()), 10.5);
    assert_eq!(Scalar::from_bits(0).to_bits(), 0);
}
