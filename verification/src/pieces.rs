use vstd::prelude::*;

verus! {

/// The number of tetromino kinds.
pub const PIECE_KINDS: i32 = 7;

/// A 4x4 occupancy matrix; a cell is filled when it is non-zero.
pub type Shape = [[u8; 4]; 4];

/// Whether `id` (0..7) names the filled cell `(r, c)` of the base shape of that
/// tetromino: I, J, L, O, S, T, Z in this order.
pub open spec fn base_filled(id: int, r: int, c: int) -> bool {
    if id == 0 {
        r == 1
    } else if id == 1 {
        (r == 0 && c == 0) || (r == 1 && c < 3)
    } else if id == 2 {
        (r == 0 && c == 2) || (r == 1 && c < 3)
    } else if id == 3 {
        (r == 0 || r == 1) && (c == 1 || c == 2)
    } else if id == 4 {
        (r == 0 && (c == 1 || c == 2)) || (r == 1 && (c == 0 || c == 1))
    } else if id == 5 {
        (r == 0 && c == 1) || (r == 1 && c < 3)
    } else {
        (r == 0 && (c == 0 || c == 1)) || (r == 1 && (c == 1 || c == 2))
    }
}

/// The base shape of tetromino `id`: 1 on its filled cells, 0 elsewhere.
pub open spec fn is_base_shape(s: Shape, id: int) -> bool {
    forall|r: int, c: int|
        0 <= r < 4 && 0 <= c < 4 ==> #[trigger] s[r][c] == (if base_filled(id, r, c) {
            1u8
        } else {
            0u8
        })
}

/// The cell `(i, j)` of `s` turned a quarter clockwise, for a piece whose shape id is
/// `id`: the O piece (id 4) does not turn, the I piece (id 1) turns in its 4x4 box,
/// and every other piece turns in the top-left 3x3 box, the rest being left empty.
pub open spec fn rotated_cell(s: Shape, id: u8, i: int, j: int) -> u8 {
    if id == 4 {
        s[i][j]
    } else if id == 1 {
        s[3 - j][i]
    } else if i < 3 && j < 3 {
        s[2 - j][i]
    } else {
        0u8
    }
}

/// `t` is `s` turned a quarter clockwise for shape id `id`.
pub open spec fn is_rotation_of(t: Shape, s: Shape, id: u8) -> bool {
    forall|i: int, j: int| 0 <= i < 4 && 0 <= j < 4 ==> #[trigger] t[i][j] == rotated_cell(s, id, i, j)
}

/// The shape lies in the box its piece turns in: for pieces other than I (id 1)
/// and O (id 4), the last row and the last column are empty.
pub open spec fn fits_turning_box(s: Shape, id: u8) -> bool {
    id == 1 || id == 4 || forall|i: int, j: int|
        0 <= i < 4 && 0 <= j < 4 && (i == 3 || j == 3) ==> #[trigger] s[i][j] == 0
}

/// 1 for a filled cell, 0 for an empty one.
#[verifier::opaque]
pub open spec fn filled_bit(v: u8) -> int {
    if v != 0 {
        1
    } else {
        0
    }
}

/// The number of filled cells in row `r` of `s`.
pub open spec fn row_count(s: Shape, r: int) -> int {
    filled_bit(s[r][0]) + filled_bit(s[r][1]) + filled_bit(s[r][2]) + filled_bit(s[r][3])
}

/// The number of filled cells of `s`.
pub open spec fn filled_count(s: Shape) -> int {
    row_count(s, 0) + row_count(s, 1) + row_count(s, 2) + row_count(s, 3)
}

/// Two shapes with the same cells are the same shape.
pub proof fn lemma_shape_ext(s: Shape, t: Shape)
    requires
        forall|i: int, j: int| 0 <= i < 4 && 0 <= j < 4 ==> #[trigger] s[i][j] == t[i][j],
    ensures
        s == t,
{
    broadcast use vstd::array::axiom_array_ext_equal, vstd::array::array_len_matches_n;

    assert forall|i: int| 0 <= i < 4 implies s[i] == t[i] by {
        assert(forall|j: int| 0 <= j < 4 ==> s[i][j] == t[i][j]);
        assert(s[i] =~= t[i]);
    }
    assert(s =~= t);
}

/// A falling tetromino: its position on the board, its shape id (1..=7) and its
/// current occupancy matrix.
#[derive(Clone, Copy, Debug)]
pub struct Piece {
    pub x: i32,
    pub y: i32,
    pub shape_id: u8,
    pub shape: Shape,
}

/// The base shape of tetromino `id`.
fn base_shape(id: u8) -> (s: Shape)
    requires
        id < 7,
    ensures
        is_base_shape(s, id as int),
{
    let s: Shape = match id {
        0 => [[0, 0, 0, 0], [1, 1, 1, 1], [0, 0, 0, 0], [0, 0, 0, 0]],
        1 => [[1, 0, 0, 0], [1, 1, 1, 0], [0, 0, 0, 0], [0, 0, 0, 0]],
        2 => [[0, 0, 1, 0], [1, 1, 1, 0], [0, 0, 0, 0], [0, 0, 0, 0]],
        3 => [[0, 1, 1, 0], [0, 1, 1, 0], [0, 0, 0, 0], [0, 0, 0, 0]],
        4 => [[0, 1, 1, 0], [1, 1, 0, 0], [0, 0, 0, 0], [0, 0, 0, 0]],
        5 => [[0, 1, 0, 0], [1, 1, 1, 0], [0, 0, 0, 0], [0, 0, 0, 0]],
        _ => [[1, 1, 0, 0], [0, 1, 1, 0], [0, 0, 0, 0], [0, 0, 0, 0]],
    };
    s
}

impl Piece {
    /// The piece with index `id` (0..7) at `(x, y)`; its shape id is `id + 1`.
    pub fn new(x: i32, y: i32, id: u8) -> (p: Self)
        requires
            id < 7,
        ensures
            p.x == x,
            p.y == y,
            p.shape_id == id + 1,
            is_base_shape(p.shape, id as int),
    {
        Piece { x, y, shape_id: id + 1, shape: base_shape(id) }
    }

    /// Turns the piece a quarter clockwise in place; the O piece keeps its shape.
    pub fn rotate(&mut self)
        ensures
            final(self).x == old(self).x,
            final(self).y == old(self).y,
            final(self).shape_id == old(self).shape_id,
            is_rotation_of(final(self).shape, old(self).shape, old(self).shape_id),
    {
        if self.shape_id == 4 {
            return ;
        }
        self.shape = self.get_rotated_shape();
    }

    /// The shape this piece would have after a quarter turn clockwise.
    pub fn get_rotated_shape(&self) -> (t: Shape)
        ensures
            is_rotation_of(t, self.shape, self.shape_id),
    {
        let s = self.shape;
        if self.shape_id == 4 {
            return s;
        }
        if self.shape_id == 1 {
            [
                [s[3][0], s[2][0], s[1][0], s[0][0]],
                [s[3][1], s[2][1], s[1][1], s[0][1]],
                [s[3][2], s[2][2], s[1][2], s[0][2]],
                [s[3][3], s[2][3], s[1][3], s[0][3]],
            ]
        } else {
            [
                [s[2][0], s[1][0], s[0][0], 0],
                [s[2][1], s[1][1], s[0][1], 0],
                [s[2][2], s[1][2], s[0][2], 0],
                [0, 0, 0, 0],
            ]
        }
    }
}

/// A shape with a filled cell count above zero has a block.
pub proof fn lemma_count_has_block(s: Shape)
    requires
        filled_count(s) > 0,
    ensures
        exists|r: int, c: int| 0 <= r < 4 && 0 <= c < 4 && #[trigger] s[r][c] != 0,
{
    reveal(filled_bit);
    if forall|r: int, c: int| 0 <= r < 4 && 0 <= c < 4 ==> #[trigger] s[r][c] == 0 {
        assert(s[0][0] == 0 && s[0][1] == 0 && s[0][2] == 0 && s[0][3] == 0);
        assert(s[1][0] == 0 && s[1][1] == 0 && s[1][2] == 0 && s[1][3] == 0);
        assert(s[2][0] == 0 && s[2][1] == 0 && s[2][2] == 0 && s[2][3] == 0);
        assert(s[3][0] == 0 && s[3][1] == 0 && s[3][2] == 0 && s[3][3] == 0);
    }
}

/// Every base shape lies in its turning box and has four filled cells.
pub proof fn lemma_base_shape_wf(s: Shape, id: u8)
    requires
        id < 7,
        is_base_shape(s, id as int),
    ensures
        fits_turning_box(s, (id + 1) as u8),
        filled_count(s) == 4,
{
    reveal(filled_bit);
}

/// A quarter turn keeps a shape in its turning box and keeps its number of filled
/// cells: a piece never loses or gains a block by turning.
pub proof fn lemma_rotation_keeps_blocks(s: Shape, t: Shape, id: u8)
    requires
        fits_turning_box(s, id),
        is_rotation_of(t, s, id),
    ensures
        fits_turning_box(t, id),
        filled_count(t) == filled_count(s),
{
    if id == 4 {
        lemma_shape_ext(t, s);
    } else if id == 1 {
        assert(t[0][0] == s[3][0] && t[0][1] == s[2][0] && t[0][2] == s[1][0] && t[0][3] == s[0][0]);
        assert(t[1][0] == s[3][1] && t[1][1] == s[2][1] && t[1][2] == s[1][1] && t[1][3] == s[0][1]);
        assert(t[2][0] == s[3][2] && t[2][1] == s[2][2] && t[2][2] == s[1][2] && t[2][3] == s[0][2]);
        assert(t[3][0] == s[3][3] && t[3][1] == s[2][3] && t[3][2] == s[1][3] && t[3][3] == s[0][3]);
    } else {
        assert(t[0][0] == s[2][0] && t[0][1] == s[1][0] && t[0][2] == s[0][0] && t[0][3] == 0);
        assert(t[1][0] == s[2][1] && t[1][1] == s[1][1] && t[1][2] == s[0][1] && t[1][3] == 0);
        assert(t[2][0] == s[2][2] && t[2][1] == s[1][2] && t[2][2] == s[0][2] && t[2][3] == 0);
        assert(t[3][0] == 0 && t[3][1] == 0 && t[3][2] == 0 && t[3][3] == 0);
        assert(s[0][3] == 0 && s[1][3] == 0 && s[2][3] == 0 && s[3][3] == 0);
        assert(s[3][0] == 0 && s[3][1] == 0 && s[3][2] == 0);
    }
}

/// Four quarter turns bring a shape that lies in its turning box back to itself.
pub proof fn lemma_four_turns_identity(s0: Shape, s1: Shape, s2: Shape, s3: Shape, s4: Shape, id: u8)
    requires
        fits_turning_box(s0, id),
        is_rotation_of(s1, s0, id),
        is_rotation_of(s2, s1, id),
        is_rotation_of(s3, s2, id),
        is_rotation_of(s4, s3, id),
    ensures
        s4 == s0,
{
    assert forall|i: int, j: int| 0 <= i < 4 && 0 <= j < 4 implies #[trigger] s4[i][j] == s0[i][j] by {
        assert(s4[i][j] == rotated_cell(s3, id, i, j));
        if id == 4 {
        } else if id == 1 {
            assert(s3[3 - j][i] == rotated_cell(s2, id, 3 - j, i));
            assert(s2[3 - i][3 - j] == rotated_cell(s1, id, 3 - i, 3 - j));
            assert(s1[j][3 - i] == rotated_cell(s0, id, j, 3 - i));
        } else if i < 3 && j < 3 {
            assert(s3[2 - j][i] == rotated_cell(s2, id, 2 - j, i));
            assert(s2[2 - i][2 - j] == rotated_cell(s1, id, 2 - i, 2 - j));
            assert(s1[j][2 - i] == rotated_cell(s0, id, j, 2 - i));
        } else {
            assert(s0[i][j] == 0);
        }
    }
    lemma_shape_ext(s4, s0);
}

/// The O piece (shape id 4) keeps its shape when turned.
pub proof fn lemma_o_piece_fixed(s: Shape, t: Shape)
    requires
        is_rotation_of(t, s, 4),
    ensures
        t == s,
{
    lemma_shape_ext(t, s);
}

/// Row `r` of `s` holds `a`, `b`, `c`, `d` from left to right.
pub open spec fn row_is(s: Shape, r: int, a: u8, b: u8, c: u8, d: u8) -> bool {
    s[r][0] == a && s[r][1] == b && s[r][2] == c && s[r][3] == d
}

/// The seven base shapes, row by row: I, J, L, O, S, T and Z, each in its top rows.
pub proof fn lemma_base_shapes(s: Shape, id: int)
    requires
        0 <= id < 7,
        is_base_shape(s, id),
    ensures
        row_is(s, 2, 0, 0, 0, 0) && row_is(s, 3, 0, 0, 0, 0),
        id == 0 ==> row_is(s, 0, 0, 0, 0, 0) && row_is(s, 1, 1, 1, 1, 1),
        id == 1 ==> row_is(s, 0, 1, 0, 0, 0) && row_is(s, 1, 1, 1, 1, 0),
        id == 2 ==> row_is(s, 0, 0, 0, 1, 0) && row_is(s, 1, 1, 1, 1, 0),
        id == 3 ==> row_is(s, 0, 0, 1, 1, 0) && row_is(s, 1, 0, 1, 1, 0),
        id == 4 ==> row_is(s, 0, 0, 1, 1, 0) && row_is(s, 1, 1, 1, 0, 0),
        id == 5 ==> row_is(s, 0, 0, 1, 0, 0) && row_is(s, 1, 1, 1, 1, 0),
        id == 6 ==> row_is(s, 0, 1, 1, 0, 0) && row_is(s, 1, 0, 1, 1, 0),
{
}

/// Different tetromino indices have different base shapes: each of the seven kinds
/// occurs.
pub proof fn lemma_base_shapes_distinct(s: Shape, t: Shape, i: int, j: int)
    requires
        0 <= i < 7,
        0 <= j < 7,
        i != j,
        is_base_shape(s, i),
        is_base_shape(t, j),
    ensures
        s != t,
{
    lemma_base_shapes(s, i);
    lemma_base_shapes(t, j);
}

/// The direction of a quarter turn: the I piece turns clockwise in its 4x4 box, the O
/// piece stays, and every other piece turns clockwise in its top-left 3x3 box (cell
/// `(i, j)` of the turned shape is cell `(2 - j, i)` of the shape), the rest empty.
pub proof fn lemma_turn_direction(t: Shape, s: Shape, id: u8)
    requires
        is_rotation_of(t, s, id),
    ensures
        id == 4 ==> forall|i: int, j: int| 0 <= i < 4 && 0 <= j < 4 ==> #[trigger] t[i][j] == s[i][j],
        id == 1 ==> forall|i: int, j: int| 0 <= i < 4 && 0 <= j < 4 ==> #[trigger] t[i][j] == s[3 - j][i],
        id != 1 && id != 4 ==> forall|i: int, j: int| 0 <= i < 3 && 0 <= j < 3 ==> #[trigger] t[i][j] == s[2 - j][i],
        id != 1 && id != 4 ==> forall|i: int| 0 <= i < 4 ==> #[trigger] t[i][3] == 0 && t[3][i] == 0,
{
    assert forall|i: int| 0 <= i < 4 implies #[trigger] t[i][3] == rotated_cell(s, id, i, 3) && t[3][i] == rotated_cell(s, id, 3, i) by {}
}

/// All pieces that turn in the 3x3 box turn the same way: the same shape turned with
/// two such shape ids gives the same result.
pub proof fn lemma_three_box_turns_agree(t1: Shape, t2: Shape, s: Shape, id1: u8, id2: u8)
    requires
        id1 != 1 && id1 != 4,
        id2 != 1 && id2 != 4,
        is_rotation_of(t1, s, id1),
        is_rotation_of(t2, s, id2),
    ensures
        t1 == t2,
{
    assert forall|i: int, j: int| 0 <= i < 4 && 0 <= j < 4 implies #[trigger] t1[i][j] == t2[i][j] by {
        assert(t1[i][j] == rotated_cell(s, id1, i, j));
        assert(t2[i][j] == rotated_cell(s, id2, i, j));
    }
    lemma_shape_ext(t1, t2);
}

/// A quarter turn is clockwise: the top row of the turned box becomes its right
/// column, read from top to bottom, for every piece that turns.
pub proof fn lemma_turn_is_clockwise(t: Shape, s: Shape, id: u8)
    requires
        is_rotation_of(t, s, id),
        id != 4,
    ensures
        id == 1 ==> forall|k: int| 0 <= k < 4 ==> #[trigger] t[k][3] == s[0][k],
        id != 1 ==> forall|k: int| 0 <= k < 3 ==> #[trigger] t[k][2] == s[0][k],
{
    assert forall|k: int| 0 <= k < 4 implies #[trigger] t[k][3] == rotated_cell(s, id, k, 3) && t[k][2] == rotated_cell(s, id, k, 2) by {}
}

} // verus!
