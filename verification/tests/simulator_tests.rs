use lucy_tetris_rs::pieces::Piece;
use lucy_tetris_rs::simulator::Simulator;

fn empty(w: usize, h: usize) -> Vec<Vec<u8>> {
    vec![vec![0; w]; h]
}

#[test]
fn new_copies_the_board() {
    let mut grid = empty(4, 3);
    grid[2][1] = 5;
    let sim = Simulator::new(4, 3, &grid);
    assert_eq!(sim.grid, grid);
    assert_eq!((sim.width, sim.height), (4, 3));
}

#[test]
fn positions_against_walls_floor_blocks_and_top() {
    let mut grid = empty(10, 20);
    grid[19][5] = 1;
    let sim = Simulator::new(10, 20, &grid);
    let o = Piece::new(0, 0, 3); // cells in columns 1 and 2, rows 0 and 1
    assert!(sim.is_valid_position(&o, -1, 0));
    assert!(!sim.is_valid_position(&o, -2, 0));
    assert!(sim.is_valid_position(&o, 7, 0));
    assert!(!sim.is_valid_position(&o, 8, 0));
    assert!(sim.is_valid_position(&o, 0, 18));
    assert!(!sim.is_valid_position(&o, 0, 19));
    assert!(!sim.is_valid_position(&o, 3, 18));
    assert!(sim.is_valid_position(&o, 3, 17));
    // above the top edge every cell is free
    assert!(sim.is_valid_position(&o, 0, -5));
}

#[test]
fn drop_lands_on_floor_or_block() {
    let mut grid = empty(10, 20);
    grid[15][4] = 2;
    let sim = Simulator::new(10, 20, &grid);
    let o = Piece::new(0, 0, 3);
    assert_eq!(sim.drop_piece(&o, 0, 0), 18);
    let d = sim.drop_piece(&o, 3, 0);
    assert_eq!(d, 13);
    assert!(sim.is_valid_position(&o, 3, d));
    assert!(!sim.is_valid_position(&o, 3, d + 1));
    // starting below the landing row keeps the start row
    assert_eq!(sim.drop_piece(&o, 0, 18), 18);
}

#[test]
fn lock_writes_shape_id_and_drops_cells_above_top() {
    let grid = empty(5, 4);
    let mut sim = Simulator::new(5, 4, &grid);
    let t = Piece::new(0, 0, 5);
    sim.lock_piece(&t, 1, 2);
    assert_eq!(sim.grid[2], vec![0, 0, 6, 0, 0]);
    assert_eq!(sim.grid[3], vec![0, 6, 6, 6, 0]);
    let i = Piece::new(0, 0, 0);
    sim.lock_piece(&i, 0, -1); // row 1 of the shape lands on board row 0
    assert_eq!(sim.grid[0], vec![1, 1, 1, 1, 0]);
}

#[test]
fn clear_lines_removes_full_rows_and_keeps_order() {
    let grid = vec![
        vec![0, 0, 3],
        vec![1, 1, 1],
        vec![2, 0, 0],
        vec![4, 4, 4],
    ];
    let mut sim = Simulator::new(3, 4, &grid);
    assert_eq!(sim.clear_lines(), 2);
    assert_eq!(sim.grid, vec![vec![0, 0, 0], vec![0, 0, 0], vec![0, 0, 3], vec![2, 0, 0]]);
    assert_eq!(sim.clear_lines(), 0);
    assert_eq!(sim.grid, vec![vec![0, 0, 0], vec![0, 0, 0], vec![0, 0, 3], vec![2, 0, 0]]);
}

#[test]
fn clearing_leaves_no_full_row() {
    let grid = vec![vec![1, 1], vec![1, 1], vec![1, 0]];
    let mut sim = Simulator::new(2, 3, &grid);
    assert_eq!(sim.clear_lines(), 2);
    assert_eq!(sim.grid.len(), 3);
    assert!(sim.grid.iter().all(|row| row.len() == 2 && row.iter().any(|&c| c == 0)));
}
