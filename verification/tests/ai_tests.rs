use lucy_tetris_rs::ai::{AIBot, AiStep, Evaluator, MoveGenerator};
use lucy_tetris_rs::board::TetrisEngine;
use lucy_tetris_rs::pieces::Piece;
use lucy_tetris_rs::simulator::Simulator;

fn empty(w: usize, h: usize) -> Vec<Vec<u8>> {
    vec![vec![0; w]; h]
}

#[test]
fn empty_board_scores_zero_plus_lines() {
    let g = empty(10, 20);
    assert_eq!(Evaluator::evaluate(&g, 0), 0);
    assert_eq!(Evaluator::evaluate(&g, 2), 152);
}

#[test]
fn evaluation_features_and_weights() {
    let mut g = empty(4, 5);
    g[3][0] = 1; // column 0: height 2 with a hole under it
    g[4][2] = 1; // column 2: height 1
    let d = Evaluator::evaluate_details(&g, 1);
    assert_eq!(d.agg_height, 3);
    assert_eq!(d.holes, 1);
    assert_eq!(d.bumpiness, 2 + 1 + 1);
    assert_eq!(d.cleared_lines, 1);
    assert_eq!(d.score, -51 * 3 + 76 - 36 - 18 * 4);
    assert_eq!(Evaluator::evaluate(&g, 1), d.score);
}

#[test]
fn o_piece_has_one_turn_and_nine_columns() {
    let g = empty(10, 20);
    let moves = MoveGenerator::get_possible_moves(&Piece::new(0, 0, 3), 10, 20, &g);
    assert_eq!(moves.len(), 9);
    for (k, m) in moves.iter().enumerate() {
        assert_eq!(m.rotation, 0);
        assert_eq!(m.x, k as i32 - 1);
        assert_eq!(m.drop_y, 18);
        assert_eq!(m.score, None);
        assert_eq!(m.cleared_lines, 0);
        assert_eq!(m.ply1_score, Evaluator::evaluate(&m.sim_grid, 0));
    }
}

#[test]
fn move_counts_follow_distinct_turns() {
    let g = empty(10, 20);
    let i = MoveGenerator::get_possible_moves(&Piece::new(0, 0, 0), 10, 20, &g);
    // the I piece turns through four different shapes: row 1, column 2, row 2, column 1
    assert_eq!(i.len(), 7 + 10 + 7 + 10);
    assert_eq!(i.iter().filter(|m| m.rotation == 2).count(), 7);
    let t = MoveGenerator::get_possible_moves(&Piece::new(0, 0, 5), 10, 20, &g);
    assert_eq!(t.len(), 8 + 9 + 8 + 9);
    let s = MoveGenerator::get_possible_moves(&Piece::new(0, 0, 4), 10, 20, &g);
    assert_eq!(s.len(), 8 + 9 + 8 + 9);
}

#[test]
fn every_move_rests_where_it_lands() {
    let mut g = empty(8, 10);
    g[9][3] = 1;
    g[7][6] = 2;
    let sim = Simulator::new(8, 10, &g);
    for id in 0..7u8 {
        let p = Piece::new(0, 0, id);
        for m in MoveGenerator::get_possible_moves(&p, 8, 10, &g) {
            let placed = Piece { x: m.x, y: 0, shape_id: p.shape_id, shape: m.shape };
            assert!(sim.is_valid_position(&placed, m.x, 0));
            assert!(sim.is_valid_position(&placed, m.x, m.drop_y));
            assert!(!sim.is_valid_position(&placed, m.x, m.drop_y + 1));
        }
    }
}

#[test]
fn generated_move_completes_a_line() {
    let mut g = empty(4, 3);
    g[2] = vec![0, 1, 1, 1];
    g[1] = vec![0, 1, 1, 0];
    let moves = MoveGenerator::get_possible_moves(&Piece::new(0, 0, 0), 4, 3, &g);
    // horizontal I fits nowhere on a 3-high board with these blocks; vertical needs 4 rows
    assert!(moves.is_empty());
    let j = MoveGenerator::get_possible_moves(&Piece::new(0, 0, 1), 4, 3, &g);
    let clears: Vec<_> = j.iter().filter(|m| m.cleared_lines > 0).collect();
    assert!(!clears.is_empty());
    for m in clears {
        assert!(m.sim_grid.iter().all(|row| row.iter().any(|&c| c == 0)));
    }
}

#[test]
fn best_move_is_first_with_best_two_ply_score() {
    let e = TetrisEngine::new(10, 20, 42);
    let best = AIBot::get_best_move(&e).expect("an empty board has placements");
    let mut moves = MoveGenerator::get_possible_moves(&e.current_piece, 10, 20, &e.grid);
    for m in moves.iter_mut() {
        AIBot::score_reply(m, &e.next_piece, 10, 20);
    }
    let top = moves.iter().filter_map(|m| m.score).max().unwrap();
    let first = moves.iter().position(|m| m.score == Some(top)).unwrap();
    assert_eq!(best.score, Some(top));
    assert_eq!(best.x, moves[first].x);
    assert_eq!(best.rotation, moves[first].rotation);
    assert_eq!(best.sim_grid, moves[first].sim_grid);
}

#[test]
fn reply_counts_lines_of_both_pieces() {
    let mut g = empty(4, 4);
    g[3] = vec![1, 1, 1, 0];
    g[2] = vec![1, 1, 1, 0];
    let i = Piece::new(0, 0, 0);
    let moves = MoveGenerator::get_possible_moves(&i, 4, 4, &g);
    // vertical I in column 3 clears two lines
    let m = moves.iter().find(|m| m.rotation == 1 && m.x == 1).unwrap().clone();
    assert_eq!(m.cleared_lines, 2);
    let mut scored = m.clone();
    AIBot::score_reply(&mut scored, &Piece::new(0, 0, 3), 4, 4);
    let replies = MoveGenerator::get_possible_moves(&Piece::new(0, 0, 3), 4, 4, &m.sim_grid);
    let expected = replies
        .iter()
        .map(|r| Evaluator::evaluate(&r.sim_grid, m.cleared_lines + r.cleared_lines))
        .max();
    assert_eq!(scored.score, expected);
    assert_eq!(scored.ply1_score, m.ply1_score);
}

#[test]
fn no_placement_gives_no_move() {
    let mut e = TetrisEngine::new(4, 2, 3);
    e.grid = vec![vec![1, 1, 1, 0], vec![0, 1, 1, 1]];
    assert!(AIBot::get_best_move(&e).is_none());
}

#[test]
fn falls_back_to_one_ply_when_no_reply_fits() {
    // an O piece fits only in the gap of row 1; once it clears that row,
    // a second O piece fits nowhere, so the one-ply value decides
    let mut e = TetrisEngine::new(4, 2, 3);
    e.grid = vec![vec![0, 0, 0, 0], vec![1, 0, 0, 1]];
    e.current_piece = Piece::new(0, 0, 3);
    e.next_piece = Piece::new(0, 0, 3);
    let moves = MoveGenerator::get_possible_moves(&e.current_piece, 4, 2, &e.grid);
    assert_eq!(moves.len(), 1);
    let best = AIBot::get_best_move(&e).unwrap();
    assert_eq!(best.x, 0);
    assert_eq!(best.cleared_lines, 1);
    assert_eq!(best.score, None);
    assert_eq!(best.ply1_score, moves[0].ply1_score);
}

#[test]
fn mirrored_board_has_the_same_value() {
    let mut g = empty(5, 6);
    g[5] = vec![1, 1, 0, 1, 0];
    g[4] = vec![1, 0, 0, 0, 0];
    g[2][3] = 1;
    let m: Vec<Vec<u8>> = g.iter().map(|r| r.iter().rev().cloned().collect()).collect();
    for k in 0..3 {
        assert_eq!(Evaluator::evaluate(&m, k), Evaluator::evaluate(&g, k));
    }
    let d = Evaluator::evaluate_details(&m, 0);
    let e = Evaluator::evaluate_details(&g, 0);
    assert_eq!((d.agg_height, d.holes, d.bumpiness), (e.agg_height, e.holes, e.bumpiness));
}

#[test]
fn more_lines_never_lower_the_value() {
    let mut g = empty(4, 4);
    g[3][1] = 1;
    assert!(Evaluator::evaluate(&g, 0) < Evaluator::evaluate(&g, 1));
    assert!(Evaluator::evaluate(&g, 1) < Evaluator::evaluate(&g, 4));
}

#[test]
fn autopilot_turns_then_shifts_then_drops() {
    let mut e = TetrisEngine::new(10, 20, 42);
    let target = AIBot::get_best_move(&e).unwrap();
    let mut steps = Vec::new();
    for _ in 0..40 {
        let step = e.ai_step(&target, true);
        steps.push(step);
        if step == AiStep::Dropped {
            break;
        }
    }
    assert_eq!(*steps.last().unwrap(), AiStep::Dropped);
    let turns = steps.iter().take_while(|s| **s == AiStep::Turned).count();
    assert!(steps[turns..steps.len() - 1].iter().all(|s| *s == AiStep::Shifted));
    // the piece landed where the search said, leaving its board (before the next piece)
    assert_eq!(e.grid, target.sim_grid);
}

#[test]
fn slow_autopilot_waits_once_aligned() {
    let mut e = TetrisEngine::new(10, 20, 43);
    let target = AIBot::get_best_move(&e).unwrap();
    let mut last = AiStep::Turned;
    for _ in 0..40 {
        last = e.ai_step(&target, false);
        if last == AiStep::Waited {
            break;
        }
    }
    assert_eq!(last, AiStep::Waited);
    assert_eq!(e.current_piece.shape, target.shape);
    assert_eq!(e.current_piece.x, target.x);
    assert_eq!(e.grid, vec![vec![0u8; 10]; 20]);
}

#[test]
fn landing_details_of_the_falling_piece() {
    let mut e = TetrisEngine::new(4, 4, 61);
    e.grid[3] = vec![0, 0, 0, 0];
    e.grid[2] = vec![1, 0, 0, 0];
    e.current_piece = Piece::new(0, -1, 0); // horizontal I in row 0
    let d = lucy_tetris_rs::ai::landing_details(&e).unwrap();
    // the I lands on row 1 (row 2 holds a block in column 0), fills it and clears it,
    // leaving column 0 two high with one hole
    assert_eq!(d.cleared_lines, 1);
    assert_eq!(d.agg_height, 2);
    assert_eq!(d.holes, 1);
    assert_eq!(d.bumpiness, 2);
    assert_eq!(d.score, -51 * 2 + 76 - 36 - 18 * 2);
    e.current_piece.x = 1; // sticks out on the right
    assert!(lucy_tetris_rs::ai::landing_details(&e).is_none());
}

#[test]
fn longer_rows_than_the_first_are_accepted() {
    let g = vec![vec![0, 0], vec![0, 1, 1], vec![1, 1, 0, 5]];
    let d = Evaluator::evaluate_details(&g, 0);
    assert_eq!(d.agg_height, 1 + 2);
    assert_eq!(d.holes, 0);
    assert_eq!(d.bumpiness, 1);
}
