use vstd::prelude::*;

use crate::draw::{drawn_below, PieceBag};
use crate::grid::{
    cells, cleared_grid, dims_ok, empty_rows, fits, full_count, has_block, landing_row,
    lemma_cleared_grid_shape, lemma_lock_fills_at_most_four, lockable, locked_grid, no_full_rows,
};
use crate::pieces::{
    filled_count, fits_turning_box, is_base_shape, is_rotation_of, lemma_base_shape_wf,
    lemma_rotation_keeps_blocks, lemma_shape_ext, Piece, Shape, PIECE_KINDS,
};
use crate::simulator::{
    cleared_rows, copy_grid, empty_row, shape_fits, shape_has_block, shape_lockable, write_shape,
};

verus! {

/// The shape id of the `k`-th piece (counting from 0) drawn for the seed `seed`.
pub open spec fn drawn_id(seed: u64, k: nat) -> int {
    drawn_below(seed, PIECE_KINDS, k) + 1
}

/// A playable piece: a shape id in 1..=7, a shape that lies in its turning box and
/// has exactly four blocks.
pub open spec fn piece_wf(p: Piece) -> bool {
    &&& 1 <= p.shape_id <= 7
    &&& fits_turning_box(p.shape, p.shape_id)
    &&& filled_count(p.shape) == 4
}

/// A freshly spawned piece on a board `w` wide: a base shape at column `w / 2 - 2` of
/// the top row.
pub open spec fn spawned(p: Piece, w: int) -> bool {
    &&& p.x == w / 2 - 2
    &&& p.y == 0
    &&& 1 <= p.shape_id <= 7
    &&& is_base_shape(p.shape, p.shape_id - 1)
}

/// The points for clearing `n` (at most four) lines at once, before the level factor.
pub open spec fn line_points(n: int) -> int {
    if n == 0 {
        0
    } else if n == 1 {
        100
    } else if n == 2 {
        300
    } else if n == 3 {
        500
    } else {
        800
    }
}

/// The game: the board, the falling piece, the preview piece, the counters and the
/// flags, and the generator that draws the pieces.
pub struct TetrisEngine {
    pub width: usize,
    pub height: usize,
    pub grid: Vec<Vec<u8>>,
    pub current_piece: Piece,
    pub next_piece: Piece,
    pub score: u32,
    pub lines: u32,
    pub level: u32,
    pub game_over: bool,
    pub paused: bool,
    pub rng: PieceBag,
}

impl TetrisEngine {
    /// The board's cells.
    pub open spec fn board(&self) -> Seq<Seq<u8>> {
        cells(&self.grid)
    }

    /// The board has `height` rows of `width` cells, both within `i32`.
    pub open spec fn grid_wf(&self) -> bool {
        &&& self.width <= i32::MAX
        &&& self.height <= i32::MAX
        &&& dims_ok(self.board(), self.width as int, self.height as int)
    }

    /// Everything but the falling piece is in order: the board as in `grid_wf`, at
    /// least four wide and without a full row, the level follows the line count, the
    /// preview piece is a freshly spawned piece, and pieces are drawn from the seven
    /// kinds.
    pub open spec fn board_wf(&self) -> bool {
        &&& self.grid_wf()
        &&& 4 <= self.width
        &&& no_full_rows(self.board())
        &&& self.level == 1 + self.lines / 10
        &&& spawned(self.next_piece, self.width as int)
        &&& self.rng.bound() == PIECE_KINDS
    }

    /// The game state is in order: the board as in `board_wf`, the falling piece is
    /// playable and can be written into the board where it stands, and while the game
    /// runs on a board at least two rows high the falling piece collides with nothing.
    pub open spec fn wf(&self) -> bool {
        &&& self.board_wf()
        &&& piece_wf(self.current_piece)
        &&& lockable(self.width as int, self.height as int, self.current_piece.shape, self.current_piece.x as int, self.current_piece.y as int)
        &&& self.height >= 2 && !self.game_over ==> self.fits_at(self.current_piece.shape, self.current_piece.x as int, self.current_piece.y as int)
    }

    /// The counters can take one more locked piece without overflowing.
    pub open spec fn counters_room(&self) -> bool {
        &&& self.lines + 4 <= u32::MAX
        &&& self.score + 800 * self.level <= u32::MAX
    }

    /// `shape` at `(x, y)` collides with nothing on this board.
    pub open spec fn fits_at(&self, shape: Shape, x: int, y: int) -> bool {
        fits(self.board(), self.width as int, self.height as int, shape, x, y)
    }

    /// The visible state of `self` and `other` is the same.
    pub open spec fn same_state(&self, other: &Self) -> bool {
        &&& self.width == other.width
        &&& self.height == other.height
        &&& self.board() == other.board()
        &&& self.current_piece == other.current_piece
        &&& self.next_piece == other.next_piece
        &&& self.score == other.score
        &&& self.lines == other.lines
        &&& self.level == other.level
        &&& self.game_over == other.game_over
        &&& self.paused == other.paused
        &&& self.rng.seed() == other.rng.seed()
        &&& self.rng.bound() == other.rng.bound()
        &&& self.rng.draws() == other.rng.draws()
    }

    /// The lines that locking `p` where it stands would clear.
    pub open spec fn lock_lines(&self, p: Piece) -> nat {
        full_count(locked_grid(self.board(), p.shape, p.shape_id, p.x as int, p.y as int))
    }

    /// Locking `p` where it stands is in bounds and overflows nothing: the board is at
    /// least four wide (for the next spawn), pieces are drawn from the seven kinds,
    /// every block of `p` on the board's rows lies inside its width, at most four rows
    /// end up full, and the counters can take the lines it clears.
    pub open spec fn lock_ok_piece(&self, p: Piece) -> bool {
        let n = self.lock_lines(p);
        &&& 4 <= self.width
        &&& self.rng.bound() == PIECE_KINDS
        &&& lockable(self.width as int, self.height as int, p.shape, p.x as int, p.y as int)
        &&& n <= 4
        &&& self.lines + n <= u32::MAX
        &&& self.score + line_points(n as int) * self.level <= u32::MAX
    }

    /// Locking the falling piece where it stands is in bounds and overflows nothing.
    pub open spec fn lock_ok(&self) -> bool {
        self.lock_ok_piece(self.current_piece)
    }

    /// The board with the falling piece written into it.
    pub open spec fn locked_board(&self) -> Seq<Seq<u8>> {
        locked_grid(self.board(), self.current_piece.shape, self.current_piece.shape_id, self.current_piece.x as int, self.current_piece.y as int)
    }

    /// `new` is `old` after locking its falling piece: the piece is written into the
    /// board, full lines are cleared and scored at the old level, the preview piece
    /// becomes the falling piece, a new preview piece is spawned, and the game is over
    /// when the new falling piece collides.
    pub open spec fn lock_result(old: &Self, new: &Self) -> bool {
        let l = old.locked_board();
        let n = full_count(l);
        &&& new.width == old.width
        &&& new.height == old.height
        &&& new.board() == cleared_grid(l, old.width as nat)
        &&& new.lines == old.lines + n
        &&& new.score == old.score + line_points(n as int) * old.level
        &&& new.level == 1 + new.lines / 10
        &&& new.current_piece == old.next_piece
        &&& spawned(new.next_piece, old.width as int)
        &&& new.next_piece.shape_id == drawn_id(old.rng.seed(), old.rng.draws())
        &&& new.rng.seed() == old.rng.seed()
        &&& new.rng.bound() == old.rng.bound()
        &&& new.rng.draws() == old.rng.draws() + 1
        &&& new.game_over == (old.game_over || !new.fits_at(new.current_piece.shape, new.current_piece.x as int, new.current_piece.y as int))
        &&& new.paused == old.paused
    }

    /// `new` is `old` with the pause flag flipped, unless the game is over.
    pub open spec fn pause_toggled(old: &Self, new: &Self) -> bool {
        new.same_state(&TetrisEngine { paused: if old.game_over { old.paused } else { !old.paused }, ..*old })
    }

    /// `new` is `old` with the falling piece moved by `(dx, dy)`.
    pub open spec fn piece_moved(old: &Self, new: &Self, dx: int, dy: int) -> bool {
        let p = old.current_piece;
        &&& new.current_piece == Piece { x: (p.x + dx) as i32, y: (p.y + dy) as i32, ..p }
        &&& new.same_state(&TetrisEngine { current_piece: new.current_piece, ..*old })
    }

    /// Moving the falling piece by `(dx, dy)` stays within `i32` when it succeeds, and a
    /// blocked move down can lock the piece.
    pub open spec fn move_ok(&self, dx: int, dy: int) -> bool {
        let p = self.current_piece;
        !self.game_over && !self.paused ==> if self.fits_at(p.shape, p.x + dx, p.y + dy) {
            &&& i32::MIN <= p.x + dx <= i32::MAX
            &&& i32::MIN <= p.y + dy <= i32::MAX
        } else {
            dy > 0 ==> self.lock_ok()
        }
    }

    /// `new` is what moving the falling piece of `old` by `(dx, dy)` makes of it, and
    /// `moved` says whether the piece moved: nothing happens while the game is paused or
    /// over; a free position is taken; a blocked move down locks the piece where it
    /// stands; any other blocked move changes nothing.
    pub open spec fn move_result(old: &Self, new: &Self, dx: int, dy: int, moved: bool) -> bool {
        let p = old.current_piece;
        if old.game_over || old.paused {
            !moved && new.same_state(old)
        } else if old.fits_at(p.shape, p.x + dx, p.y + dy) {
            moved && Self::piece_moved(old, new, dx, dy)
        } else if dy > 0 {
            !moved && Self::lock_result(old, new)
        } else {
            !moved && new.same_state(old)
        }
    }

    /// The game runs and the quarter turn of the falling piece collides with nothing
    /// where the piece stands.
    pub open spec fn can_turn(&self) -> bool {
        &&& !self.game_over
        &&& !self.paused
        &&& exists|t: Shape|
            #[trigger] is_rotation_of(t, self.current_piece.shape, self.current_piece.shape_id)
                && self.fits_at(t, self.current_piece.x as int, self.current_piece.y as int)
    }

    /// `new` is `old` with its falling piece turned a quarter when it can turn, and `old`
    /// unchanged otherwise.
    pub open spec fn rotate_result(old: &Self, new: &Self) -> bool {
        let p = old.current_piece;
        if old.can_turn() {
            &&& is_rotation_of(new.current_piece.shape, p.shape, p.shape_id)
            &&& new.current_piece.x == p.x
            &&& new.current_piece.y == p.y
            &&& new.current_piece.shape_id == p.shape_id
            &&& new.same_state(&TetrisEngine { current_piece: new.current_piece, ..*old })
        } else {
            new.same_state(old)
        }
    }

    /// The falling piece moved straight down to the row where it lands.
    pub open spec fn landed_piece(&self) -> Piece {
        let p = self.current_piece;
        Piece { y: landing_row(self.board(), self.width as int, self.height as int, p.shape, p.x as int, p.y as int) as i32, ..p }
    }

    /// A hard drop ends: while the game runs, the falling piece has a block (so that
    /// it stops falling) and locking it where it lands is in bounds and overflows
    /// nothing.
    pub open spec fn drop_ok(&self) -> bool {
        !self.game_over && !self.paused ==> has_block(self.current_piece.shape) && self.lock_ok_piece(self.landed_piece())
    }

    /// `new` is `old` after a hard drop: nothing happens while the game is paused or
    /// over; otherwise the falling piece drops to where it lands and locks there.
    pub open spec fn drop_result(old: &Self, new: &Self) -> bool {
        if old.game_over || old.paused {
            new.same_state(old)
        } else {
            Self::lock_result(&TetrisEngine { current_piece: old.landed_piece(), ..*old }, new)
        }
    }

    /// `e` is a new game on an empty board `w` by `h` whose pieces come from `seed`: the
    /// first two pieces drawn for that seed are the falling and the preview piece at the
    /// spawn position, the counters start at 0 lines, 0 points and level 1, and the game
    /// runs.
    pub open spec fn is_new_game(e: &Self, w: int, h: int, seed: u64) -> bool {
        &&& e.width == w
        &&& e.height == h
        &&& e.board() == empty_rows(h as nat, w as nat)
        &&& spawned(e.current_piece, w)
        &&& spawned(e.next_piece, w)
        &&& e.current_piece.shape_id == drawn_id(seed, 0)
        &&& e.next_piece.shape_id == drawn_id(seed, 1)
        &&& e.score == 0
        &&& e.lines == 0
        &&& e.level == 1
        &&& !e.game_over
        &&& !e.paused
        &&& e.rng.seed() == seed
        &&& e.rng.bound() == PIECE_KINDS
        &&& e.rng.draws() == 2
    }

    /// A new game on an empty board `width` by `height`, with pieces drawn from a
    /// generator seeded with `seed`.
    pub fn new(width: usize, height: usize, seed: u64) -> (e: Self)
        requires
            4 <= width <= i32::MAX,
            height <= i32::MAX,
        ensures
            e.wf(),
            Self::is_new_game(&e, width as int, height as int, seed),
    {
        let rng = PieceBag::new(seed, PIECE_KINDS);
        let mut grid: Vec<Vec<u8>> = Vec::new();
        let mut i: usize = 0;
        while i < height
            invariant
                i <= height,
                grid@.len() == i,
                forall|j: int| 0 <= j < i ==> (#[trigger] grid@[j])@ == Seq::new(width as nat, |c: int| 0u8),
            decreases height - i,
        {
            let row = empty_row(width);
            grid.push(row);
            i += 1;
        }
        assert(cells(&grid) =~= empty_rows(height as nat, width as nat));
        let mut engine = TetrisEngine {
            width,
            height,
            grid,
            current_piece: Piece::new(0, 0, 0),
            next_piece: Piece::new(0, 0, 0),
            score: 0,
            lines: 0,
            level: 1,
            game_over: false,
            paused: false,
            rng,
        };
        engine.current_piece = engine.spawn_piece();
        engine.next_piece = engine.spawn_piece();
        proof {
            assert forall|y: int| 0 <= y < height implies !crate::grid::row_full(#[trigger] engine.board()[y]) by {
                assert(engine.board()[y][0] == 0);
            }
            lemma_spawned_wf(engine.current_piece, width as int, height as int);
            lemma_spawned_wf(engine.next_piece, width as int, height as int);
            if height >= 2 {
                lemma_spawn_fits_empty(engine.board(), engine.current_piece, width as int, height as int);
            }
        }
        engine
    }

    /// Whether `piece`, shifted by `(adj_x, adj_y)` and given `rotated_shape` in place
    /// of its own shape when one is passed, collides with nothing on the board.
    pub fn is_valid_position(&self, piece: &Piece, adj_x: i32, adj_y: i32, rotated_shape: Option<Shape>) -> (ok: bool)
        requires
            self.grid_wf(),
        ensures
            ok == self.fits_at(
                match rotated_shape {
                    Some(s) => s,
                    None => piece.shape,
                },
                piece.x + adj_x,
                piece.y + adj_y,
            ),
    {
        let shape = match rotated_shape {
            Some(s) => s,
            None => piece.shape,
        };
        shape_fits(&self.grid, self.width, self.height, &shape, piece.x as i64 + adj_x as i64, piece.y as i64 + adj_y as i64)
    }

    /// Moves the falling piece by `(dx, dy)` when the game runs and the new position is
    /// free; a blocked move down locks the piece instead. Returns whether it moved.
    pub fn move_piece(&mut self, dx: i32, dy: i32) -> (moved: bool)
        requires
            old(self).grid_wf(),
            old(self).move_ok(dx as int, dy as int),
        ensures
            Self::move_result(old(self), final(self), dx as int, dy as int, moved),
            old(self).wf() ==> final(self).wf(),
    {
        if self.game_over || self.paused {
            return false;
        }
        if self.is_valid_position(&self.current_piece, dx, dy, None) {
            proof {
                crate::grid::lemma_fits_lockable(self.board(), self.width as int, self.height as int, self.current_piece.shape, self.current_piece.x + dx, self.current_piece.y + dy);
            }
            self.current_piece.x = self.current_piece.x + dx;
            self.current_piece.y = self.current_piece.y + dy;
            true
        } else {
            if dy > 0 {
                self.lock_piece();
            }
            false
        }
    }

    /// Turns the falling piece a quarter clockwise when the game runs and the turned
    /// shape collides with nothing where the piece stands.
    pub fn rotate_piece(&mut self)
        requires
            old(self).grid_wf(),
        ensures
            Self::rotate_result(old(self), final(self)),
            old(self).wf() ==> final(self).wf(),
    {
        if self.game_over || self.paused {
            return ;
        }
        let rotated = self.current_piece.get_rotated_shape();
        if self.is_valid_position(&self.current_piece, 0, 0, Some(rotated)) {
            proof {
                crate::grid::lemma_fits_lockable(self.board(), self.width as int, self.height as int, rotated, self.current_piece.x as int, self.current_piece.y as int);
                if old(self).wf() {
                    lemma_rotation_keeps_blocks(self.current_piece.shape, rotated, self.current_piece.shape_id);
                }
            }
            self.current_piece.rotate();
            proof {
                lemma_rotation_unique(self.current_piece.shape, rotated, old(self).current_piece.shape, old(self).current_piece.shape_id);
            }
        } else {
            proof {
                assert forall|t: Shape| #[trigger] is_rotation_of(t, old(self).current_piece.shape, old(self).current_piece.shape_id) implies !old(self).fits_at(t, old(self).current_piece.x as int, old(self).current_piece.y as int) by {
                    lemma_rotation_unique(t, rotated, old(self).current_piece.shape, old(self).current_piece.shape_id);
                }
            }
        }
    }

    /// Pauses a running game or resumes a paused one; a finished game stays as it is.
    pub fn toggle_pause(&mut self)
        ensures
            Self::pause_toggled(old(self), final(self)),
            old(self).wf() ==> final(self).wf(),
    {
        if !self.game_over {
            self.paused = !self.paused;
        }
    }

    /// The row where the falling piece lands when dropped straight down.
    pub fn landing_y(&self) -> (y: i32)
        requires
            self.grid_wf(),
        ensures
            y == self.landed_piece().y,
    {
        let ghost g = self.board();
        let ghost w = self.width as int;
        let ghost h = self.height as int;
        let p = self.current_piece;
        proof {
            crate::grid::lemma_landing_bounds(g, w, h, p.shape, p.x as int, p.y as int);
        }
        let mut y: i64 = p.y as i64;
        while y < self.height as i64 && shape_fits(&self.grid, self.width, self.height, &p.shape, p.x as i64, y + 1)
            invariant
                self.grid_wf(),
                g == self.board(),
                w == self.width,
                h == self.height,
                p == self.current_piece,
                p.y <= y <= if p.y > h { p.y as int } else { h },
                landing_row(g, w, h, p.shape, p.x as int, y as int) == landing_row(g, w, h, p.shape, p.x as int, p.y as int),
            decreases h - y,
        {
            y = y + 1;
        }
        y as i32
    }

    /// Whether locking `p` where it stands is in bounds and overflows nothing.
    fn lock_check(&self, p: &Piece) -> (ok: bool)
        requires
            self.grid_wf(),
        ensures
            ok == self.lock_ok_piece(*p),
    {
        if self.width < 4 || self.rng.bound_value() != PIECE_KINDS {
            return false;
        }
        if !shape_lockable(self.width, self.height, &p.shape, p.x as i64, p.y as i64) {
            return false;
        }
        let mut grid = copy_grid(&self.grid);
        write_shape(&mut grid, self.width, self.height, &p.shape, p.shape_id, p.x as i64, p.y as i64);
        let (_cleared_grid, n) = cleared_rows(&grid, self.width, self.height);
        if n > 4 {
            return false;
        }
        let points: [u64; 5] = [0, 100, 300, 500, 800];
        let earned: u64 = points[n as usize];
        assert(earned == line_points(n as int));
        assert(earned * (self.level as u64) <= 800 * 0xffff_ffff) by (nonlinear_arith)
            requires
                earned <= 800,
                self.level <= 0xffff_ffff,
        ;
        self.lines as u64 + n as u64 <= 0xffff_ffff && self.score as u64 + earned * (self.level as u64) <= 0xffff_ffff
    }

    /// Whether locking the falling piece where it stands is in bounds and overflows
    /// nothing.
    pub fn can_lock(&self) -> (ok: bool)
        requires
            self.grid_wf(),
        ensures
            ok == self.lock_ok(),
    {
        self.lock_check(&self.current_piece)
    }

    /// Whether a hard drop ends without going out of bounds or overflowing.
    pub fn can_hard_drop(&self) -> (ok: bool)
        requires
            self.grid_wf(),
        ensures
            ok == self.drop_ok(),
    {
        if self.game_over || self.paused {
            return true;
        }
        if !shape_has_block(&self.current_piece.shape) {
            return false;
        }
        let y = self.landing_y();
        let landed = Piece { y, ..self.current_piece };
        self.lock_check(&landed)
    }

    /// Drops the falling piece straight down until a move down is blocked, which locks
    /// it; nothing happens while the game is paused or over.
    pub fn hard_drop(&mut self)
        requires
            old(self).grid_wf(),
            old(self).drop_ok(),
        ensures
            Self::drop_result(old(self), final(self)),
            old(self).wf() ==> final(self).wf(),
    {
        let ghost g = self.board();
        let ghost w = self.width as int;
        let ghost h = self.height as int;
        let ghost p0 = self.current_piece;
        let ghost land = landing_row(g, w, h, p0.shape, p0.x as int, p0.y as int);
        proof {
            crate::grid::lemma_landing_bounds(g, w, h, p0.shape, p0.x as int, p0.y as int);
        }
        loop
            invariant_except_break
                self.grid_wf(),
                self.width == old(self).width,
                self.height == old(self).height,
                w == self.width,
                h == self.height,
                g == old(self).board(),
                self.board() == g,
                p0 == old(self).current_piece,
                self.current_piece == (Piece { y: self.current_piece.y, ..p0 }),
                self.next_piece == old(self).next_piece,
                self.score == old(self).score,
                self.lines == old(self).lines,
                self.level == old(self).level,
                self.game_over == old(self).game_over,
                self.paused == old(self).paused,
                self.rng.seed() == old(self).rng.seed(),
                self.rng.bound() == old(self).rng.bound(),
                self.rng.draws() == old(self).rng.draws(),
                old(self).game_over || old(self).paused ==> self.current_piece.y == p0.y,
                p0.y <= self.current_piece.y,
                landing_row(g, w, h, p0.shape, p0.x as int, self.current_piece.y as int) == land,
                land == old(self).landed_piece().y,
                old(self).drop_ok(),
                old(self).wf() ==> self.wf(),
            ensures
                Self::drop_result(old(self), self),
                old(self).wf() ==> self.wf(),
            decreases h - self.current_piece.y,
        {
            let ghost before = *self;
            let ghost y = self.current_piece.y as int;
            proof {
                if !self.game_over && !self.paused {
                    if self.fits_at(p0.shape, p0.x as int, y + 1) {
                        let (r0, c0) = choose|r: int, c: int| 0 <= r < 4 && 0 <= c < 4 && #[trigger] p0.shape[r][c] != 0;
                        assert(crate::grid::cell_free(g, w, h, p0.x + c0, y + 1 + r0));
                    } else {
                        assert(landing_row(g, w, h, p0.shape, p0.x as int, y) == y);
                        assert(self.current_piece == old(self).landed_piece());
                    }
                }
            }
            let moved = self.move_piece(0, 1);
            if !moved {
                break;
            }
        }
    }

    /// Writes the falling piece into the board, clears and scores full lines, makes the
    /// preview piece the falling one, spawns a new preview piece and ends the game when
    /// the new falling piece collides.
    pub fn lock_piece(&mut self)
        requires
            old(self).grid_wf(),
            old(self).lock_ok(),
        ensures
            Self::lock_result(old(self), final(self)),
            final(self).board_wf(),
            spawned(old(self).next_piece, old(self).width as int) ==> final(self).wf(),
    {
        let ghost g = self.board();
        write_shape(&mut self.grid, self.width, self.height, &self.current_piece.shape, self.current_piece.shape_id, self.current_piece.x as i64, self.current_piece.y as i64);
        self.clear_lines();
        proof {
            lemma_cleared_grid_shape(old(self).locked_board(), self.width as nat, self.height as int);
        }
        self.current_piece = self.next_piece;
        self.next_piece = self.spawn_piece();
        proof {
            lemma_spawned_wf(self.next_piece, self.width as int, self.height as int);
            if spawned(old(self).next_piece, old(self).width as int) {
                lemma_spawned_wf(old(self).next_piece, self.width as int, self.height as int);
            }
        }
        if !self.is_valid_position(&self.current_piece, 0, 0, None) {
            self.game_over = true;
        }
    }

    /// Removes the full rows of the board, adds as many empty rows on top, adds them to
    /// the line count, scores them at the current level and updates the level.
    fn clear_lines(&mut self)
        requires
            old(self).grid_wf(),
            full_count(old(self).board()) <= 4,
            old(self).lines + full_count(old(self).board()) <= u32::MAX,
            old(self).score + line_points(full_count(old(self).board()) as int) * old(self).level <= u32::MAX,
        ensures
            final(self).board() == cleared_grid(old(self).board(), old(self).width as nat),
            final(self).lines == old(self).lines + full_count(old(self).board()),
            final(self).score == old(self).score + line_points(full_count(old(self).board()) as int) * old(self).level,
            final(self).level == 1 + final(self).lines / 10,
            final(self).width == old(self).width,
            final(self).height == old(self).height,
            final(self).current_piece == old(self).current_piece,
            final(self).next_piece == old(self).next_piece,
            final(self).game_over == old(self).game_over,
            final(self).paused == old(self).paused,
            final(self).rng == old(self).rng,
    {
        let (grid, cleared) = cleared_rows(&self.grid, self.width, self.height);
        self.grid = grid;
        self.lines = self.lines + cleared;
        let points: [u32; 5] = [0, 100, 300, 500, 800];
        let earned: u32 = points[cleared as usize];
        assert(earned == line_points(cleared as int));
        self.score = self.score + earned * self.level;
        self.level = 1 + self.lines / 10;
    }

    /// A new piece drawn from the generator, placed at the spawn position.
    fn spawn_piece(&mut self) -> (p: Piece)
        requires
            4 <= old(self).width <= i32::MAX,
            old(self).rng.bound() == PIECE_KINDS,
        ensures
            spawned(p, old(self).width as int),
            p.shape_id == drawn_id(old(self).rng.seed(), old(self).rng.draws()),
            final(self).width == old(self).width,
            final(self).height == old(self).height,
            final(self).grid == old(self).grid,
            final(self).current_piece == old(self).current_piece,
            final(self).next_piece == old(self).next_piece,
            final(self).score == old(self).score,
            final(self).lines == old(self).lines,
            final(self).level == old(self).level,
            final(self).game_over == old(self).game_over,
            final(self).paused == old(self).paused,
            final(self).rng.seed() == old(self).rng.seed(),
            final(self).rng.bound() == old(self).rng.bound(),
            final(self).rng.draws() == old(self).rng.draws() + 1,
    {
        let id = self.rng.draw();
        Piece::new((self.width / 2 - 2) as i32, 0, id as u8)
    }
}

/// A shape has only one quarter turn.
pub proof fn lemma_rotation_unique(t1: Shape, t2: Shape, s: Shape, id: u8)
    requires
        is_rotation_of(t1, s, id),
        is_rotation_of(t2, s, id),
    ensures
        t1 == t2,
{
    lemma_shape_ext(t1, t2);
}

/// On an empty board at least four wide and two high, a spawned piece collides with
/// nothing.
pub proof fn lemma_spawn_fits_empty(g: Seq<Seq<u8>>, p: Piece, w: int, h: int)
    requires
        spawned(p, w),
        4 <= w,
        2 <= h,
        g == empty_rows(h as nat, w as nat),
    ensures
        fits(g, w, h, p.shape, p.x as int, p.y as int),
{
    assert forall|r: int, c: int| 0 <= r < 4 && 0 <= c < 4 && #[trigger] p.shape[r][c] != 0 implies crate::grid::cell_free(g, w, h, p.x + c, p.y + r) by {
        assert(r <= 1);
        assert(g[r][p.x + c] == 0);
    }
}

/// A spawned piece is playable and can be written into a board at least four wide.
pub proof fn lemma_spawned_wf(p: Piece, w: int, h: int)
    requires
        spawned(p, w),
        4 <= w,
    ensures
        piece_wf(p),
        lockable(w, h, p.shape, p.x as int, p.y as int),
{
    lemma_base_shape_wf(p.shape, (p.shape_id - 1) as u8);
}

/// Pausing twice gives back the game as it was.
pub proof fn lemma_toggle_twice(a: &TetrisEngine, b: &TetrisEngine, c: &TetrisEngine)
    requires
        TetrisEngine::pause_toggled(a, b),
        TetrisEngine::pause_toggled(b, c),
    ensures
        c.same_state(a),
{
}

/// A move that succeeds in a running game can be taken back: on a board at least two
/// rows high, moving by `(-dx, -dy)` afterwards finds a free position, the one the piece
/// came from.
pub proof fn lemma_move_undo(a: &TetrisEngine, b: &TetrisEngine, dx: int, dy: int)
    requires
        a.wf(),
        a.height >= 2,
        !a.game_over,
        TetrisEngine::piece_moved(a, b, dx, dy),
        i32::MIN <= a.current_piece.x + dx <= i32::MAX,
        i32::MIN <= a.current_piece.y + dy <= i32::MAX,
    ensures
        b.fits_at(b.current_piece.shape, b.current_piece.x - dx, b.current_piece.y - dy),
        TetrisEngine::piece_moved(b, a, -dx, -dy),
{
}

/// Locking a piece never lowers the score, the line count or the level.
pub proof fn lemma_counters_grow(a: &TetrisEngine, b: &TetrisEngine)
    requires
        a.level == 1 + a.lines / 10,
        TetrisEngine::lock_result(a, b),
    ensures
        b.score >= a.score,
        b.lines >= a.lines,
        b.level >= a.level,
{
    let n = full_count(a.locked_board());
    assert(line_points(n as int) * a.level >= 0) by (nonlinear_arith)
        requires
            line_points(n as int) >= 0,
    ;
}

/// In a game in order whose counters can take a four-line clear, locking the falling
/// piece, dropping it, and moving it by one column and at most one row down are in
/// bounds and overflow nothing.
pub proof fn lemma_wf_room_can_lock(e: &TetrisEngine, dx: int, dy: int)
    requires
        e.wf(),
        e.counters_room(),
        -1 <= dx <= 1,
        0 <= dy <= 1,
    ensures
        e.lock_ok(),
        e.drop_ok(),
        e.move_ok(dx, dy),
{
    let p = e.current_piece;
    let g = e.board();
    let w = e.width as int;
    let h = e.height as int;
    crate::pieces::lemma_count_has_block(p.shape);
    let (r0, c0) = choose|r: int, c: int| 0 <= r < 4 && 0 <= c < 4 && #[trigger] p.shape[r][c] != 0;
    lemma_lock_fills_at_most_four(g, p.shape, p.shape_id, p.x as int, p.y as int);
    let n = e.lock_lines(p);
    assert(line_points(n as int) * e.level <= 800 * e.level) by (nonlinear_arith)
        requires
            line_points(n as int) <= 800,
    ;
    crate::grid::lemma_landing_bounds(g, w, h, p.shape, p.x as int, p.y as int);
    let l = e.landed_piece();
    lemma_lock_fills_at_most_four(g, l.shape, l.shape_id, l.x as int, l.y as int);
    let m = e.lock_lines(l);
    assert(line_points(m as int) * e.level <= 800 * e.level) by (nonlinear_arith)
        requires
            line_points(m as int) <= 800,
    ;
    if e.fits_at(p.shape, p.x + dx, p.y + dy) {
        assert(crate::grid::cell_free(g, w, h, p.x + dx + c0, p.y + dy + r0));
    }
}

/// Two spawned pieces with the same shape id on boards of the same width are the same.
pub proof fn lemma_spawned_same(p1: Piece, p2: Piece, w: int)
    requires
        spawned(p1, w),
        spawned(p2, w),
        p1.shape_id == p2.shape_id,
    ensures
        p1 == p2,
{
    assert forall|r: int, c: int| 0 <= r < 4 && 0 <= c < 4 implies #[trigger] p1.shape[r][c] == p2.shape[r][c] by {}
    lemma_shape_ext(p1.shape, p2.shape);
}

/// A fixed seed replays the same game: two new games of the same size and seed are
/// the same.
pub proof fn lemma_new_game_replays(e1: &TetrisEngine, e2: &TetrisEngine, w: int, h: int, seed: u64)
    requires
        TetrisEngine::is_new_game(e1, w, h, seed),
        TetrisEngine::is_new_game(e2, w, h, seed),
    ensures
        e1.same_state(e2),
{
    lemma_spawned_same(e1.current_piece, e2.current_piece, w);
    lemma_spawned_same(e1.next_piece, e2.next_piece, w);
}

/// Locking replays: locking the falling piece of two equal games gives equal games.
pub proof fn lemma_lock_replays(a1: &TetrisEngine, a2: &TetrisEngine, b1: &TetrisEngine, b2: &TetrisEngine)
    requires
        a1.same_state(a2),
        TetrisEngine::lock_result(a1, b1),
        TetrisEngine::lock_result(a2, b2),
    ensures
        b1.same_state(b2),
{
    lemma_spawned_same(b1.next_piece, b2.next_piece, a1.width as int);
}

/// Moves replay: moving the falling piece of two equal games by the same offset gives
/// equal games and the same answer.
pub proof fn lemma_move_replays(
    a1: &TetrisEngine,
    a2: &TetrisEngine,
    b1: &TetrisEngine,
    b2: &TetrisEngine,
    dx: int,
    dy: int,
    m1: bool,
    m2: bool,
)
    requires
        a1.same_state(a2),
        TetrisEngine::move_result(a1, b1, dx, dy, m1),
        TetrisEngine::move_result(a2, b2, dx, dy, m2),
    ensures
        b1.same_state(b2),
        m1 == m2,
{
    let p = a1.current_piece;
    if !a1.game_over && !a1.paused && !a1.fits_at(p.shape, p.x + dx, p.y + dy) && dy > 0 {
        lemma_lock_replays(a1, a2, b1, b2);
    }
}

/// Turns replay: turning the falling piece of two equal games gives equal games.
pub proof fn lemma_rotate_replays(a1: &TetrisEngine, a2: &TetrisEngine, b1: &TetrisEngine, b2: &TetrisEngine)
    requires
        a1.same_state(a2),
        TetrisEngine::rotate_result(a1, b1),
        TetrisEngine::rotate_result(a2, b2),
    ensures
        b1.same_state(b2),
{
    if a1.can_turn() {
        let p = a1.current_piece;
        lemma_rotation_unique(b1.current_piece.shape, b2.current_piece.shape, p.shape, p.shape_id);
    }
}

/// Hard drops replay: dropping the falling piece of two equal games gives equal games.
pub proof fn lemma_drop_replays(a1: &TetrisEngine, a2: &TetrisEngine, b1: &TetrisEngine, b2: &TetrisEngine)
    requires
        a1.same_state(a2),
        TetrisEngine::drop_result(a1, b1),
        TetrisEngine::drop_result(a2, b2),
    ensures
        b1.same_state(b2),
{
    if !a1.game_over && !a1.paused {
        let l1 = TetrisEngine { current_piece: a1.landed_piece(), ..*a1 };
        let l2 = TetrisEngine { current_piece: a2.landed_piece(), ..*a2 };
        lemma_lock_replays(&l1, &l2, b1, b2);
    }
}

/// The engine and a simulator on the same board agree on every collision test.
pub proof fn lemma_engine_matches_simulator(e: &TetrisEngine, sim: &crate::simulator::Simulator, s: Shape, x: int, y: int)
    requires
        sim.width == e.width,
        sim.height == e.height,
        sim.board() == e.board(),
    ensures
        e.fits_at(s, x, y) == fits(sim.board(), sim.width as int, sim.height as int, s, x, y),
{
}

/// A finished game stays finished: no move, turn, pause, hard drop or lock resumes it.
pub proof fn lemma_game_over_stays(a: &TetrisEngine, b: &TetrisEngine, dx: int, dy: int, moved: bool)
    requires
        a.game_over,
    ensures
        TetrisEngine::move_result(a, b, dx, dy, moved) ==> b.game_over,
        TetrisEngine::rotate_result(a, b) ==> b.game_over,
        TetrisEngine::pause_toggled(a, b) ==> b.game_over,
        TetrisEngine::drop_result(a, b) ==> b.game_over,
        TetrisEngine::lock_result(a, b) ==> b.game_over,
{
}

/// Moves never lower the score, the line count or the level.
pub proof fn lemma_move_counters_grow(a: &TetrisEngine, b: &TetrisEngine, dx: int, dy: int, moved: bool)
    requires
        a.level == 1 + a.lines / 10,
        TetrisEngine::move_result(a, b, dx, dy, moved),
    ensures
        b.score >= a.score,
        b.lines >= a.lines,
        b.level >= a.level,
{
    let p = a.current_piece;
    if !a.game_over && !a.paused && !a.fits_at(p.shape, p.x + dx, p.y + dy) && dy > 0 {
        lemma_counters_grow(a, b);
    }
}

/// Clearing lines at once scores 100 points for one line, 300 for two, 500 for three
/// and 800 for four, times the level before the lock, and nothing when no line is
/// cleared; the line count grows by the lines cleared.
pub proof fn lemma_line_scores(a: &TetrisEngine, b: &TetrisEngine)
    requires
        TetrisEngine::lock_result(a, b),
    ensures
        a.lock_lines(a.current_piece) == 0 ==> b.score == a.score,
        a.lock_lines(a.current_piece) == 1 ==> b.score == a.score + 100 * a.level,
        a.lock_lines(a.current_piece) == 2 ==> b.score == a.score + 300 * a.level,
        a.lock_lines(a.current_piece) == 3 ==> b.score == a.score + 500 * a.level,
        a.lock_lines(a.current_piece) == 4 ==> b.score == a.score + 800 * a.level,
        b.lines == a.lines + a.lock_lines(a.current_piece),
{
}

/// The `k + 1`-th game of `games` is the `k`-th after locking its falling piece.
pub open spec fn locks_into_next(games: Seq<TetrisEngine>, k: int) -> bool {
    TetrisEngine::lock_result(&games[k], &games[k + 1])
}

/// The pieces of a game are the seed's stream in order, one value per piece: in a game
/// started with `seed` and then locked `k` times, the falling piece is the `k`-th value
/// drawn for the seed, the preview piece the next one, and exactly `k + 2` values have
/// been drawn.
pub proof fn lemma_pieces_follow_seed(games: Seq<TetrisEngine>, w: int, h: int, seed: u64)
    requires
        games.len() >= 1,
        TetrisEngine::is_new_game(&games[0], w, h, seed),
        forall|k: int| 0 <= k < games.len() - 1 ==> #[trigger] locks_into_next(games, k),
    ensures
        forall|k: int|
            0 <= k < games.len() ==> {
                &&& (#[trigger] games[k]).current_piece.shape_id == drawn_id(seed, k as nat)
                &&& games[k].next_piece.shape_id == drawn_id(seed, (k + 1) as nat)
                &&& games[k].rng.seed() == seed
                &&& games[k].rng.draws() == k + 2
            },
    decreases games.len(),
{
    if games.len() > 1 {
        let prefix = games.drop_last();
        assert forall|k: int| 0 <= k < prefix.len() - 1 implies #[trigger] locks_into_next(prefix, k) by {
            assert(prefix[k] == games[k]);
            assert(prefix[k + 1] == games[k + 1]);
            assert(locks_into_next(games, k));
        }
        lemma_pieces_follow_seed(prefix, w, h, seed);
        let n = games.len() - 1;
        assert(prefix[n - 1] == games[n - 1]);
        assert(locks_into_next(games, n - 1));
        assert forall|k: int| 0 <= k < games.len() implies {
            &&& (#[trigger] games[k]).current_piece.shape_id == drawn_id(seed, k as nat)
            &&& games[k].next_piece.shape_id == drawn_id(seed, (k + 1) as nat)
            &&& games[k].rng.seed() == seed
            &&& games[k].rng.draws() == k + 2
        } by {
            if k < n {
                assert(prefix[k] == games[k]);
            }
        }
    }
}

} // verus!
