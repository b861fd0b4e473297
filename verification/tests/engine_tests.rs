use lucy_tetris_rs::board::TetrisEngine;
use lucy_tetris_rs::pieces::Piece;

#[test]
fn new_game_is_empty_and_spawns_at_the_centre() {
    let e = TetrisEngine::new(10, 20, 42);
    assert_eq!(e.grid, vec![vec![0u8; 10]; 20]);
    assert_eq!((e.score, e.lines, e.level), (0, 0, 1));
    assert!(!e.game_over && !e.paused);
    for p in [&e.current_piece, &e.next_piece] {
        assert_eq!((p.x, p.y), (3, 0));
        assert!((1..=7).contains(&p.shape_id));
        assert_eq!(p.shape, Piece::new(0, 0, p.shape_id - 1).shape);
    }
}

#[test]
fn same_seed_gives_same_pieces() {
    let mut a = TetrisEngine::new(10, 20, 7);
    let mut b = TetrisEngine::new(10, 20, 7);
    for _ in 0..20 {
        assert_eq!(a.current_piece.shape_id, b.current_piece.shape_id);
        assert_eq!(a.next_piece.shape_id, b.next_piece.shape_id);
        while a.move_piece(0, 1) {}
        while b.move_piece(0, 1) {}
        if a.game_over {
            break;
        }
    }
    assert_eq!(a.grid, b.grid);
}

#[test]
fn pause_blocks_moves_and_toggling_twice_restores() {
    let mut e = TetrisEngine::new(10, 20, 1);
    let before = e.current_piece;
    e.toggle_pause();
    assert!(e.paused);
    assert!(!e.move_piece(1, 0));
    e.rotate_piece();
    assert_eq!(e.current_piece.shape, before.shape);
    assert_eq!(e.current_piece.x, before.x);
    e.toggle_pause();
    assert!(!e.paused);
    assert!(e.move_piece(1, 0));
}

#[test]
fn game_over_ignores_pause_and_moves() {
    let mut e = TetrisEngine::new(10, 20, 1);
    e.game_over = true;
    e.toggle_pause();
    assert!(!e.paused);
    assert!(!e.move_piece(0, 1));
    assert_eq!(e.grid, vec![vec![0u8; 10]; 20]);
}

#[test]
fn moving_into_a_wall_fails_without_locking() {
    let mut e = TetrisEngine::new(10, 20, 3);
    let mut steps = 0;
    while e.move_piece(-1, 0) {
        steps += 1;
        assert!(steps < 10);
    }
    let x = e.current_piece.x;
    assert!(!e.move_piece(-1, 0));
    assert_eq!(e.current_piece.x, x);
    assert_eq!(e.grid, vec![vec![0u8; 10]; 20]);
}

#[test]
fn a_move_can_be_taken_back() {
    let mut e = TetrisEngine::new(10, 20, 5);
    let start = e.current_piece;
    assert!(e.move_piece(1, 1));
    assert!(e.move_piece(-1, -1));
    assert_eq!((e.current_piece.x, e.current_piece.y), (start.x, start.y));
}

#[test]
fn blocked_fall_locks_and_brings_the_next_piece() {
    let mut e = TetrisEngine::new(10, 20, 9);
    let next = e.next_piece;
    let id = e.current_piece.shape_id;
    while e.move_piece(0, 1) {}
    assert_eq!(e.current_piece.shape_id, next.shape_id);
    assert_eq!((e.current_piece.x, e.current_piece.y), (next.x, next.y));
    let filled: usize = e.grid.iter().flatten().filter(|&&c| c == id).count();
    assert_eq!(filled, 4);
    assert!(e.grid[19].iter().any(|&c| c != 0));
}

#[test]
fn single_line_scores_at_the_old_level() {
    let mut e = TetrisEngine::new(10, 20, 11);
    for c in 4..10 {
        e.grid[19][c] = 2;
    }
    e.grid[18][9] = 3;
    e.lines = 9;
    e.level = 1;
    e.current_piece = Piece::new(0, 18, 0); // horizontal I on row 19, columns 0..3
    assert!(!e.move_piece(0, 1));
    assert_eq!(e.lines, 10);
    assert_eq!(e.score, 100);
    assert_eq!(e.level, 2);
    assert_eq!(e.grid[19], vec![0, 0, 0, 0, 0, 0, 0, 0, 0, 3]);
    assert_eq!(e.grid[0], vec![0; 10]);
}

#[test]
fn four_lines_score_eight_hundred_times_level() {
    let mut e = TetrisEngine::new(10, 20, 12);
    for r in 16..20 {
        for c in 1..10 {
            e.grid[r][c] = 5;
        }
    }
    e.lines = 20;
    e.level = 3;
    e.score = 50;
    let mut i = Piece::new(0, 0, 0);
    i.rotate(); // vertical in column 2 of its box
    i.x = -2;
    i.y = 16;
    e.current_piece = i;
    assert!(!e.move_piece(0, 1));
    assert_eq!(e.lines, 24);
    assert_eq!(e.score, 50 + 800 * 3);
    assert_eq!(e.level, 3);
    assert_eq!(e.grid, vec![vec![0u8; 10]; 20]);
}

#[test]
fn rotation_against_a_wall_is_refused() {
    let mut e = TetrisEngine::new(10, 20, 13);
    let mut i = Piece::new(0, 0, 0);
    i.rotate();
    i.x = -2;
    i.y = 5;
    e.current_piece = i;
    let before = e.current_piece.shape;
    e.rotate_piece(); // horizontal again would stick out on the left
    assert_eq!(e.current_piece.shape, before);
    e.current_piece.x = 0;
    e.rotate_piece();
    assert_eq!(e.current_piece.shape, [[0, 0, 0, 0], [0, 0, 0, 0], [1, 1, 1, 1], [0, 0, 0, 0]]);
}

#[test]
fn spawning_into_blocks_ends_the_game() {
    let mut e = TetrisEngine::new(10, 20, 14);
    for r in 0..3 {
        for c in 0..9 {
            e.grid[r][c] = 1;
        }
    }
    e.current_piece = Piece::new(0, 10, 3);
    e.lock_piece();
    assert!(e.game_over);
    assert!(!e.move_piece(1, 0));
}

#[test]
fn counters_never_decrease() {
    let mut e = TetrisEngine::new(10, 20, 21);
    let (mut s, mut l, mut v) = (0, 0, 1);
    for _ in 0..200 {
        if e.game_over {
            break;
        }
        e.move_piece(0, 1);
        assert!(e.score >= s && e.lines >= l && e.level >= v);
        assert_eq!(e.level, 1 + e.lines / 10);
        s = e.score;
        l = e.lines;
        v = e.level;
        assert!(e.grid.iter().all(|row| row.iter().any(|&c| c == 0)));
    }
}

#[test]
fn new_games_with_one_seed_replay_the_same_moves() {
    let mut a = TetrisEngine::new(8, 12, 99);
    let mut b = TetrisEngine::new(8, 12, 99);
    for k in 0..60 {
        let (dx, dy) = [(1, 0), (0, 1), (-1, 0), (0, 1), (0, 1)][k % 5];
        assert_eq!(a.move_piece(dx, dy), b.move_piece(dx, dy));
        if k % 7 == 0 {
            a.rotate_piece();
            b.rotate_piece();
        }
        assert_eq!(a.grid, b.grid);
        assert_eq!(a.current_piece.shape, b.current_piece.shape);
        assert_eq!((a.current_piece.x, a.current_piece.y), (b.current_piece.x, b.current_piece.y));
        assert_eq!(a.next_piece.shape_id, b.next_piece.shape_id);
        assert_eq!((a.score, a.lines, a.game_over), (b.score, b.lines, b.game_over));
    }
}

#[test]
fn hard_drop_lands_and_locks() {
    let mut e = TetrisEngine::new(10, 20, 31);
    e.current_piece = Piece::new(3, 0, 3); // O in columns 4 and 5
    e.grid[15][4] = 2;
    let next = e.next_piece;
    assert_eq!(e.landing_y(), 13);
    assert!(e.can_hard_drop());
    e.hard_drop();
    assert_eq!(e.grid[13][4], 4);
    assert_eq!(e.grid[14][5], 4);
    assert_eq!(e.current_piece.shape_id, next.shape_id);
}

#[test]
fn hard_drop_does_nothing_while_paused() {
    let mut e = TetrisEngine::new(10, 20, 32);
    e.toggle_pause();
    let before = e.current_piece;
    e.hard_drop();
    assert_eq!(e.current_piece.y, before.y);
    assert_eq!(e.grid, vec![vec![0u8; 10]; 20]);
}

#[test]
fn lock_check_sees_counter_overflow() {
    let mut e = TetrisEngine::new(4, 4, 33);
    e.grid[3] = vec![0, 0, 0, 0];
    e.current_piece = Piece::new(0, 2, 0); // horizontal I on the bottom row
    assert!(e.can_lock());
    e.score = u32::MAX - 50;
    assert!(!e.can_lock()); // a single line is worth 100
    e.score = 0;
    e.lines = u32::MAX;
    assert!(!e.can_lock());
    e.lines = 0;
    e.current_piece.x = 1; // sticks out on the right of a 4-wide board
    assert!(!e.can_lock());
}

#[test]
fn lock_accepts_boards_outside_the_game_invariant() {
    let mut e = TetrisEngine::new(4, 5, 34);
    // two rows already full, and a level that does not follow the line count
    e.grid[1] = vec![1, 1, 1, 1];
    e.grid[2] = vec![1, 1, 1, 1];
    e.level = 5;
    e.current_piece = Piece::new(0, 3, 0); // fills row 4
    assert!(e.can_lock());
    e.lock_piece();
    assert_eq!(e.lines, 3);
    assert_eq!(e.score, 500 * 5);
    assert_eq!(e.level, 1);
}

#[test]
fn a_finished_game_stays_finished() {
    let mut e = TetrisEngine::new(10, 20, 71);
    e.game_over = true;
    e.rotate_piece();
    e.hard_drop();
    assert!(!e.move_piece(0, 1));
    e.toggle_pause();
    assert!(e.game_over && !e.paused);
    assert_eq!(e.grid, vec![vec![0u8; 10]; 20]);
}
