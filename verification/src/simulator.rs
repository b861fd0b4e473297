use vstd::prelude::*;

use crate::grid::{
    cells, cell_free, cleared_grid, covers, dims_ok, empty_rows, fits, full_count, has_block,
    kept_rows, landing_row, lemma_cleared_grid_shape, lemma_kept_rows, lockable, locked_grid, row_full,
};
use crate::pieces::{Piece, Shape};

verus! {

/// A scratch board on which placements are tried without touching the game's board.
pub struct Simulator {
    pub width: usize,
    pub height: usize,
    pub grid: Vec<Vec<u8>>,
}

/// A copy of `row`.
pub fn copy_row(row: &Vec<u8>) -> (out: Vec<u8>)
    ensures
        out@ == row@,
{
    let mut out: Vec<u8> = Vec::new();
    let mut i: usize = 0;
    while i < row.len()
        invariant
            i <= row.len(),
            out@ == row@.take(i as int),
        decreases row.len() - i,
    {
        out.push(row[i]);
        i += 1;
        assert(out@ =~= row@.take(i as int));
    }
    assert(out@ =~= row@);
    out
}

/// A row of `w` free cells.
pub fn empty_row(w: usize) -> (out: Vec<u8>)
    ensures
        out@ == Seq::new(w as nat, |j: int| 0u8),
{
    let mut out: Vec<u8> = Vec::new();
    let mut i: usize = 0;
    while i < w
        invariant
            i <= w,
            out@ == Seq::new(i as nat, |j: int| 0u8),
        decreases w - i,
    {
        out.push(0);
        i += 1;
        assert(out@ =~= Seq::new(i as nat, |j: int| 0u8));
    }
    out
}

/// A copy of the board `grid`.
pub fn copy_grid(grid: &Vec<Vec<u8>>) -> (out: Vec<Vec<u8>>)
    ensures
        cells(&out) == cells(grid),
{
    let mut out: Vec<Vec<u8>> = Vec::new();
    let mut i: usize = 0;
    while i < grid.len()
        invariant
            i <= grid.len(),
            out@.len() == i,
            forall|j: int| 0 <= j < i ==> (#[trigger] out@[j])@ == grid@[j]@,
        decreases grid.len() - i,
    {
        let row = copy_row(&grid[i]);
        out.push(row);
        i += 1;
    }
    assert(cells(&out) =~= cells(grid));
    out
}

/// Every cell of `row` holds a block.
pub fn is_row_full(row: &Vec<u8>) -> (full: bool)
    ensures
        full == row_full(row@),
{
    let mut i: usize = 0;
    while i < row.len()
        invariant
            i <= row.len(),
            forall|c: int| 0 <= c < i ==> #[trigger] row@[c] != 0,
        decreases row.len() - i,
    {
        if row[i] == 0 {
            return false;
        }
        i += 1;
    }
    true
}

/// Whether shape `s` with its top-left corner at `(x, y)` collides with neither the
/// walls, the floor nor a block of `grid`; cells above the top edge are free.
pub fn shape_fits(grid: &Vec<Vec<u8>>, width: usize, height: usize, s: &Shape, x: i64, y: i64) -> (ok: bool)
    requires
        width <= i32::MAX,
        height <= i32::MAX,
        dims_ok(cells(grid), width as int, height as int),
        -0x1_0000_0000 <= x <= 0x1_0000_0000,
        -0x1_0000_0000 <= y <= 0x1_0000_0000,
    ensures
        ok == fits(cells(grid), width as int, height as int, *s, x as int, y as int),
{
    let ghost g = cells(grid);
    let ghost w = width as int;
    let ghost h = height as int;
    let mut r: usize = 0;
    while r < 4
        invariant
            g == cells(grid),
            dims_ok(g, w, h),
            w == width,
            h == height,
            width <= i32::MAX,
            height <= i32::MAX,
            -0x1_0000_0000 <= x <= 0x1_0000_0000,
            -0x1_0000_0000 <= y <= 0x1_0000_0000,
            r <= 4,
            forall|r2: int, c2: int|
                0 <= r2 < r && 0 <= c2 < 4 && #[trigger] s[r2][c2] != 0 ==> cell_free(g, w, h, x + c2, y + r2),
        decreases 4 - r,
    {
        let mut c: usize = 0;
        while c < 4
            invariant
                g == cells(grid),
                dims_ok(g, w, h),
                w == width,
                h == height,
                width <= i32::MAX,
                height <= i32::MAX,
                -0x1_0000_0000 <= x <= 0x1_0000_0000,
                -0x1_0000_0000 <= y <= 0x1_0000_0000,
                r < 4,
                c <= 4,
                forall|r2: int, c2: int|
                    ((0 <= r2 < r && 0 <= c2 < 4) || (r2 == r && 0 <= c2 < c)) && #[trigger] s[r2][c2] != 0
                        ==> cell_free(g, w, h, x + c2, y + r2),
            decreases 4 - c,
        {
            if s[r][c] != 0 {
                let px: i64 = x + c as i64;
                let py: i64 = y + r as i64;
                if px < 0 || px >= width as i64 || py >= height as i64 {
                    assert(!cell_free(g, w, h, x + c, y + r));
                    return false;
                }
                if py >= 0 {
                    assert(g[py as int].len() == w);
                    if grid[py as usize][px as usize] != 0 {
                        assert(!cell_free(g, w, h, x + c, y + r));
                        return false;
                    }
                }
            }
            c += 1;
        }
        r += 1;
    }
    true
}

/// Writes `id` into every cell of `grid` that shape `s` covers at `(x, y)`; blocks
/// above the top edge are dropped.
pub fn write_shape(grid: &mut Vec<Vec<u8>>, width: usize, height: usize, s: &Shape, id: u8, x: i64, y: i64)
    requires
        width <= i32::MAX,
        height <= i32::MAX,
        dims_ok(cells(old(grid)), width as int, height as int),
        -0x1_0000_0000 <= x <= 0x1_0000_0000,
        -0x1_0000_0000 <= y <= 0x1_0000_0000,
        lockable(width as int, height as int, *s, x as int, y as int),
    ensures
        dims_ok(cells(final(grid)), width as int, height as int),
        cells(final(grid)) == locked_grid(cells(old(grid)), *s, id, x as int, y as int),
{
    let ghost g = cells(grid);
    let ghost w = width as int;
    let ghost h = height as int;
    let mut r: usize = 0;
    while r < 4
        invariant
            w == width,
            h == height,
            width <= i32::MAX,
            height <= i32::MAX,
            -0x1_0000_0000 <= x <= 0x1_0000_0000,
            -0x1_0000_0000 <= y <= 0x1_0000_0000,
            dims_ok(g, w, h),
            dims_ok(cells(grid), w, h),
            lockable(w, h, *s, x as int, y as int),
            r <= 4,
            forall|row: int, col: int|
                0 <= row < h && 0 <= col < w ==> #[trigger] cells(grid)[row][col] == if covers(*s, x as int, y as int, row, col) && row - y < r {
                    id
                } else {
                    g[row][col]
                },
        decreases 4 - r,
    {
        let mut c: usize = 0;
        while c < 4
            invariant
                w == width,
                h == height,
                width <= i32::MAX,
                height <= i32::MAX,
                -0x1_0000_0000 <= x <= 0x1_0000_0000,
                -0x1_0000_0000 <= y <= 0x1_0000_0000,
                dims_ok(g, w, h),
                dims_ok(cells(grid), w, h),
                lockable(w, h, *s, x as int, y as int),
                r < 4,
                c <= 4,
                forall|row: int, col: int|
                    0 <= row < h && 0 <= col < w ==> #[trigger] cells(grid)[row][col] == if covers(*s, x as int, y as int, row, col) && (row - y < r || (row - y == r && col - x < c)) {
                        id
                    } else {
                        g[row][col]
                    },
            decreases 4 - c,
        {
            if s[r][c] != 0 {
                let py: i64 = y + r as i64;
                let px: i64 = x + c as i64;
                if py >= 0 && py < height as i64 {
                    let ghost before = cells(grid);
                    let ghost old_grid = grid@;
                    assert(0 <= x + c < w);
                    assert(before[py as int].len() == w);
                    assert(old_grid[py as int]@ == before[py as int]);
                    grid[py as usize][px as usize] = id;
                    assert(grid@.len() == old_grid.len());
                    assert(grid@[py as int]@ == old_grid[py as int]@.update(px as int, id));
                    assert forall|row: int| 0 <= row < h && row != py implies grid@[row] == old_grid[row] by {}
                    assert forall|row: int, col: int| 0 <= row < h && 0 <= col < w implies
                        #[trigger] cells(grid)[row][col] == if row == py && col == px {
                            id
                        } else {
                            before[row][col]
                        } by {
                        assert(cells(grid)[row] == grid@[row]@);
                        assert(before[row] == old_grid[row]@);
                    }
                    assert forall|row: int| 0 <= row < h implies #[trigger] cells(grid)[row].len() == w by {
                        assert(cells(grid)[row] == grid@[row]@);
                        assert(before[row] == old_grid[row]@);
                    }
                    assert(cells(grid).len() == h);
                }
            }
            c += 1;
        }
        r += 1;
    }
    assert(cells(grid) =~~= locked_grid(g, *s, id, x as int, y as int));
}

/// Whether every block of `s` at `(x, y)` that falls on one of the board's rows lies
/// inside its width.
pub fn shape_lockable(width: usize, height: usize, s: &Shape, x: i64, y: i64) -> (ok: bool)
    requires
        width <= i32::MAX,
        height <= i32::MAX,
        -0x1_0000_0000 <= x <= 0x1_0000_0000,
        -0x1_0000_0000 <= y <= 0x1_0000_0000,
    ensures
        ok == lockable(width as int, height as int, *s, x as int, y as int),
{
    let mut r: usize = 0;
    while r < 4
        invariant
            width <= i32::MAX,
            height <= i32::MAX,
            -0x1_0000_0000 <= x <= 0x1_0000_0000,
            -0x1_0000_0000 <= y <= 0x1_0000_0000,
            r <= 4,
            forall|r2: int, c2: int|
                0 <= r2 < r && 0 <= c2 < 4 && #[trigger] s[r2][c2] != 0 && 0 <= y + r2 < height ==> 0 <= x + c2 < width,
        decreases 4 - r,
    {
        let mut c: usize = 0;
        while c < 4
            invariant
                width <= i32::MAX,
                height <= i32::MAX,
                -0x1_0000_0000 <= x <= 0x1_0000_0000,
                -0x1_0000_0000 <= y <= 0x1_0000_0000,
                r < 4,
                c <= 4,
                forall|r2: int, c2: int|
                    ((0 <= r2 < r && 0 <= c2 < 4) || (r2 == r && 0 <= c2 < c)) && #[trigger] s[r2][c2] != 0 && 0 <= y + r2 < height
                        ==> 0 <= x + c2 < width,
            decreases 4 - c,
        {
            if s[r][c] != 0 {
                let py: i64 = y + r as i64;
                let px: i64 = x + c as i64;
                if py >= 0 && py < height as i64 && (px < 0 || px >= width as i64) {
                    return false;
                }
            }
            c += 1;
        }
        r += 1;
    }
    true
}

/// Whether `s` has a block.
pub fn shape_has_block(s: &Shape) -> (b: bool)
    ensures
        b == has_block(*s),
{
    let mut r: usize = 0;
    while r < 4
        invariant
            r <= 4,
            forall|r2: int, c2: int| 0 <= r2 < r && 0 <= c2 < 4 ==> #[trigger] s[r2][c2] == 0,
        decreases 4 - r,
    {
        let mut c: usize = 0;
        while c < 4
            invariant
                r < 4,
                c <= 4,
                forall|r2: int, c2: int|
                    ((0 <= r2 < r && 0 <= c2 < 4) || (r2 == r && 0 <= c2 < c)) ==> #[trigger] s[r2][c2] == 0,
            decreases 4 - c,
        {
            if s[r][c] != 0 {
                assert(s[r as int][c as int] != 0);
                return true;
            }
            c += 1;
        }
        r += 1;
    }
    false
}

impl Simulator {
    /// The board has `height` rows of `width` cells, both within `i32`.
    pub open spec fn wf(&self) -> bool {
        &&& self.width <= i32::MAX
        &&& self.height <= i32::MAX
        &&& dims_ok(cells(&self.grid), self.width as int, self.height as int)
    }

    /// The board's cells.
    pub open spec fn board(&self) -> Seq<Seq<u8>> {
        cells(&self.grid)
    }

    /// A simulator on a copy of `grid`.
    pub fn new(width: usize, height: usize, grid: &Vec<Vec<u8>>) -> (sim: Self)
        ensures
            sim.width == width,
            sim.height == height,
            sim.board() == cells(grid),
    {
        Simulator { width, height, grid: copy_grid(grid) }
    }

    /// Whether `piece`'s shape placed with its top-left corner at `(x, y)` collides
    /// with neither the walls, the floor nor a block; cells above the top edge are free.
    pub fn is_valid_position(&self, piece: &Piece, x: i32, y: i32) -> (ok: bool)
        requires
            self.wf(),
        ensures
            ok == fits(self.board(), self.width as int, self.height as int, piece.shape, x as int, y as int),
    {
        shape_fits(&self.grid, self.width, self.height, &piece.shape, x as i64, y as i64)
    }

    /// The row where `piece`, falling straight down from `(x, y)`, comes to rest: the
    /// last row reached while every row passed on the way down was free.
    pub fn drop_piece(&self, piece: &Piece, x: i32, y: i32) -> (d: i32)
        requires
            self.wf(),
            has_block(piece.shape),
        ensures
            d >= y,
            forall|k: int|
                y < k <= d ==> fits(self.board(), self.width as int, self.height as int, piece.shape, x as int, k),
            !fits(self.board(), self.width as int, self.height as int, piece.shape, x as int, d + 1),
            d == landing_row(self.board(), self.width as int, self.height as int, piece.shape, x as int, y as int),
    {
        let ghost g = self.board();
        let ghost w = self.width as int;
        let ghost h = self.height as int;
        let ghost (r0, c0) = choose|r: int, c: int| 0 <= r < 4 && 0 <= c < 4 && #[trigger] piece.shape[r][c] != 0;
        let mut drop_y: i32 = y;
        if y >= self.height as i32 {
            assert(!cell_free(g, w, h, x + c0, y + 1 + r0));
            return drop_y;
        }
        while self.is_valid_position(piece, x, drop_y + 1)
            invariant
                self.wf(),
                g == self.board(),
                w == self.width,
                h == self.height,
                0 <= r0 < 4 && 0 <= c0 < 4 && piece.shape[r0][c0] != 0,
                y <= drop_y < h,
                forall|k: int| y < k <= drop_y ==> fits(g, w, h, piece.shape, x as int, k),
                landing_row(g, w, h, piece.shape, x as int, y as int) == landing_row(g, w, h, piece.shape, x as int, drop_y as int),
            decreases h - drop_y,
        {
            assert(cell_free(g, w, h, x + c0, drop_y + 1 + r0));
            drop_y += 1;
        }
        drop_y
    }

    /// Writes `piece`'s shape id into every board cell that its shape covers at
    /// `(x, y)`; blocks above the top edge are dropped.
    pub fn lock_piece(&mut self, piece: &Piece, x: i32, y: i32)
        requires
            old(self).wf(),
            lockable(old(self).width as int, old(self).height as int, piece.shape, x as int, y as int),
        ensures
            final(self).wf(),
            final(self).width == old(self).width,
            final(self).height == old(self).height,
            final(self).board() == locked_grid(old(self).board(), piece.shape, piece.shape_id, x as int, y as int),
    {
        write_shape(&mut self.grid, self.width, self.height, &piece.shape, piece.shape_id, x as i64, y as i64);
    }

    /// Removes the full rows, keeps the others in order and adds as many empty rows on
    /// top; returns the number of rows removed.
    pub fn clear_lines(&mut self) -> (cleared: u32)
        requires
            old(self).wf(),
        ensures
            final(self).wf(),
            final(self).width == old(self).width,
            final(self).height == old(self).height,
            cleared == full_count(old(self).board()),
            final(self).board() == cleared_grid(old(self).board(), old(self).width as nat),
    {
        let ghost g = self.board();
        let (grid, cleared) = cleared_rows(&self.grid, self.width, self.height);
        self.grid = grid;
        proof {
            lemma_cleared_grid_shape(g, self.width as nat, self.height as int);
        }
        cleared
    }
}

/// The board `grid` with its full rows removed and as many rows of `width` free cells
/// added on top, and the number of rows removed.
pub fn cleared_rows(grid: &Vec<Vec<u8>>, width: usize, height: usize) -> (out: (Vec<Vec<u8>>, u32))
    requires
        height <= i32::MAX,
        dims_ok(cells(grid), width as int, height as int),
    ensures
        out.1 == full_count(cells(grid)),
        cells(&out.0) == cleared_grid(cells(grid), width as nat),
{
    let ghost g = cells(grid);
    let mut new_grid: Vec<Vec<u8>> = Vec::new();
    let mut cleared: u32 = 0;
    let mut i: usize = 0;
    while i < grid.len()
        invariant
            g == cells(grid),
            g.len() <= i32::MAX,
            i <= g.len(),
            cells(&new_grid) == kept_rows(g.take(i as int)),
            cleared == full_count(g.take(i as int)),
        decreases g.len() - i,
    {
        proof {
            assert(g.take(i + 1).drop_last() =~= g.take(i as int));
            assert(g.take(i + 1).last() == g[i as int]);
            lemma_kept_rows(g.take(i as int));
        }
        if is_row_full(&grid[i]) {
            cleared += 1;
        } else {
            let ghost before = cells(&new_grid);
            new_grid.push(copy_row(&grid[i]));
            assert(cells(&new_grid) =~= before.push(g[i as int]));
        }
        i += 1;
    }
    assert(g.take(g.len() as int) =~= g);
    let mut k: u32 = 0;
    while k < cleared
        invariant
            k <= cleared,
            cells(&new_grid) == empty_rows(k as nat, width as nat) + kept_rows(g),
        decreases cleared - k,
    {
        let ghost before = cells(&new_grid);
        let ghost bv = new_grid@;
        let row = empty_row(width);
        new_grid.insert(0, row);
        assert(new_grid@ == bv.insert(0, row));
        assert(before.len() == bv.len());
        assert(before.len() == k + kept_rows(g).len());
        let ghost target = empty_rows((k + 1) as nat, width as nat) + kept_rows(g);
        assert forall|j: int| 0 <= j < new_grid@.len() implies #[trigger] cells(&new_grid)[j] == target[j] by {
            assert(cells(&new_grid)[j] == new_grid@[j]@);
            if j > 0 {
                assert(new_grid@[j] == bv[j - 1]);
                assert(before[j - 1] == bv[j - 1]@);
                if j <= k {
                    assert(target[j] == empty_rows((k + 1) as nat, width as nat)[j]);
                    assert(before[j - 1] == empty_rows(k as nat, width as nat)[j - 1]);
                } else {
                    assert(target[j] == kept_rows(g)[j - k - 1]);
                    assert(before[j - 1] == kept_rows(g)[j - 1 - k]);
                }
            } else {
                assert(new_grid@[0] == row);
                assert(target[0] == empty_rows((k + 1) as nat, width as nat)[0]);
            }
        }
        k += 1;
        assert(cells(&new_grid) =~= empty_rows(k as nat, width as nat) + kept_rows(g));
    }
    (new_grid, cleared)
}
} // verus!
