use lucy_tetris_rs::pieces::Piece;

fn count(shape: &[[u8; 4]; 4]) -> usize {
    shape.iter().flatten().filter(|&&c| c != 0).count()
}

#[test]
fn new_piece_has_base_shape_and_id() {
    let p = Piece::new(3, 0, 0);
    assert_eq!(p.x, 3);
    assert_eq!(p.y, 0);
    assert_eq!(p.shape_id, 1);
    assert_eq!(p.shape, [[0, 0, 0, 0], [1, 1, 1, 1], [0, 0, 0, 0], [0, 0, 0, 0]]);
    let t = Piece::new(-2, 5, 5);
    assert_eq!(t.shape_id, 6);
    assert_eq!(t.shape, [[0, 1, 0, 0], [1, 1, 1, 0], [0, 0, 0, 0], [0, 0, 0, 0]]);
    let z = Piece::new(0, 0, 6);
    assert_eq!(z.shape_id, 7);
    assert_eq!(z.shape, [[1, 1, 0, 0], [0, 1, 1, 0], [0, 0, 0, 0], [0, 0, 0, 0]]);
}

#[test]
fn every_base_shape_has_four_blocks() {
    for id in 0..7u8 {
        assert_eq!(count(&Piece::new(0, 0, id).shape), 4);
    }
}

#[test]
fn i_piece_turns_in_its_four_by_four_box() {
    let p = Piece::new(0, 0, 0);
    assert_eq!(p.get_rotated_shape(), [[0, 0, 1, 0], [0, 0, 1, 0], [0, 0, 1, 0], [0, 0, 1, 0]]);
}

#[test]
fn t_piece_turns_in_its_three_by_three_box() {
    let mut p = Piece::new(0, 0, 5);
    p.rotate();
    assert_eq!(p.shape, [[0, 1, 0, 0], [0, 1, 1, 0], [0, 1, 0, 0], [0, 0, 0, 0]]);
    p.rotate();
    assert_eq!(p.shape, [[0, 0, 0, 0], [1, 1, 1, 0], [0, 1, 0, 0], [0, 0, 0, 0]]);
}

#[test]
fn o_piece_does_not_turn() {
    let mut p = Piece::new(4, 2, 3);
    let before = p.shape;
    assert_eq!(p.get_rotated_shape(), before);
    p.rotate();
    assert_eq!(p.shape, before);
    assert_eq!((p.x, p.y, p.shape_id), (4, 2, 4));
}

#[test]
fn four_turns_give_back_every_shape() {
    for id in 0..7u8 {
        let mut p = Piece::new(0, 0, id);
        let start = p.shape;
        for _ in 0..4 {
            p.rotate();
            assert_eq!(count(&p.shape), 4);
        }
        assert_eq!(p.shape, start);
    }
}

#[test]
fn rotated_shape_leaves_the_piece_unchanged() {
    let p = Piece::new(1, 1, 2);
    let before = p.shape;
    let turned = p.get_rotated_shape();
    assert_ne!(turned, before);
    assert_eq!(p.shape, before);
    assert_eq!(turned, [[0, 1, 0, 0], [0, 1, 0, 0], [0, 1, 1, 0], [0, 0, 0, 0]]);
}
