use diode_sim::arena::ElectronId;
use diode_sim::grid::{update_electron_chunks, ChunkPos, ElectronChunks, ElectronRepr};

fn cell(x: i32, y: i32, z: i32) -> ChunkPos {
    ChunkPos { x, y, z }
}

fn repr(i: usize, position: (f32, f32, f32)) -> ElectronRepr<(f32, f32, f32)> {
    ElectronRepr { position, id: ElectronId { index: i, generation: 0 } }
}

fn sorted(mut v: Vec<usize>) -> Vec<usize> {
    v.sort();
    v
}

#[test]
fn empty_grid_has_no_neighbors_or_pairs() {
    let grid: ElectronChunks<(f32, f32, f32)> = ElectronChunks::new();
    assert_eq!(grid.len(), 0);
    assert!(grid.neighbors_of(cell(0, 0, 0), None).is_empty());
    assert!(grid.neighbor_pairs().is_empty());
    assert!(grid.entries_in(cell(0, 0, 0)).is_empty());
}

#[test]
fn rebuild_files_each_entry_under_its_cell_once() {
    let mut grid = ElectronChunks::new();
    grid.insert(cell(9, 9, 9), repr(9, (95.0, 95.0, 95.0)));
    update_electron_chunks(
        &mut grid,
        vec![
            (cell(0, 0, 0), repr(0, (1.0, 2.0, 3.0))),
            (cell(0, 0, 0), repr(1, (4.0, 5.0, 6.0))),
            (cell(-1, 0, 0), repr(2, (-1.0, 0.0, 0.0))),
        ],
    );
    assert_eq!(grid.len(), 3);
    assert_eq!(grid.entries_in(cell(0, 0, 0)), vec![0, 1]);
    assert_eq!(grid.entries_in(cell(-1, 0, 0)), vec![2]);
    assert!(grid.entries_in(cell(9, 9, 9)).is_empty());
    assert_eq!(grid.get(2).1.id.index, 2);
    assert_eq!(grid.get(1).1.position, (4.0, 5.0, 6.0));
}

#[test]
fn neighbors_cover_the_surrounding_cells_only() {
    let mut grid = ElectronChunks::new();
    update_electron_chunks(
        &mut grid,
        vec![
            (cell(0, 0, 0), repr(0, (0.0, 0.0, 0.0))),
            (cell(1, 1, 1), repr(1, (15.0, 15.0, 15.0))),
            (cell(-1, 0, 1), repr(2, (-5.0, 0.0, 15.0))),
            (cell(2, 0, 0), repr(3, (25.0, 0.0, 0.0))),
            (cell(0, 0, 0), repr(4, (1.0, 1.0, 1.0))),
        ],
    );
    assert_eq!(sorted(grid.neighbors_of(cell(0, 0, 0), Some(0))), vec![1, 2, 4]);
    assert_eq!(sorted(grid.neighbors_of(cell(0, 0, 0), None)), vec![0, 1, 2, 4]);
    assert_eq!(sorted(grid.neighbors_of(cell(2, 0, 0), Some(3))), vec![1]);
    assert!(grid.neighbors_of(cell(5, 5, 5), None).is_empty());
}

#[test]
fn neighbor_pairs_lists_each_close_pair_once() {
    let mut grid = ElectronChunks::new();
    update_electron_chunks(
        &mut grid,
        vec![
            (cell(0, 0, 0), repr(0, (-1.0, 0.0, 0.0))),
            (cell(0, 0, 0), repr(1, (1.0, 0.0, 0.0))),
            (cell(1, 0, 0), repr(2, (11.0, 0.0, 0.0))),
            (cell(3, 0, 0), repr(3, (31.0, 0.0, 0.0))),
        ],
    );
    let mut pairs = grid.neighbor_pairs();
    pairs.sort();
    assert_eq!(pairs, vec![(0, 1), (0, 2), (1, 2)]);
}

#[test]
fn cells_at_the_edge_of_the_coordinate_range() {
    let mut grid = ElectronChunks::new();
    update_electron_chunks(
        &mut grid,
        vec![
            (cell(i32::MAX, i32::MIN, 0), repr(0, (0.0, 0.0, 0.0))),
            (cell(i32::MAX - 1, i32::MIN + 1, 1), repr(1, (0.0, 0.0, 0.0))),
            (cell(i32::MIN, i32::MAX, 0), repr(2, (0.0, 0.0, 0.0))),
        ],
    );
    assert_eq!(sorted(grid.neighbors_of(cell(i32::MAX, i32::MIN, 0), Some(0))), vec![1]);
    assert!(grid.neighbors_of(cell(i32::MIN, i32::MAX, 0), Some(2)).is_empty());
    assert_eq!(grid.neighbor_pairs(), vec![(0, 1)]);
}

#[test]
fn distinct_cells_do_not_share_a_list() {
    let mut grid = ElectronChunks::new();
    update_electron_chunks(
        &mut grid,
        vec![
            (cell(1, 0, 0), repr(0, (0.0, 0.0, 0.0))),
            (cell(0, 1, 0), repr(1, (0.0, 0.0, 0.0))),
            (cell(0, 0, 1), repr(2, (0.0, 0.0, 0.0))),
            (cell(-1, -1, -1), repr(3, (0.0, 0.0, 0.0))),
        ],
    );
    assert_eq!(grid.entries_in(cell(1, 0, 0)), vec![0]);
    assert_eq!(grid.entries_in(cell(0, 1, 0)), vec![1]);
    assert_eq!(grid.entries_in(cell(0, 0, 1)), vec![2]);
    assert_eq!(grid.entries_in(cell(-1, -1, -1)), vec![3]);
}

#[test]
fn clear_empties_the_grid() {
    let mut grid = ElectronChunks::new();
    grid.insert(cell(0, 0, 0), repr(0, (0.0, 0.0, 0.0)));
    grid.clear();
    assert_eq!(grid.len(), 0);
    assert!(grid.entries_in(cell(0, 0, 0)).is_empty());
}
