use vstd::prelude::*;

use crate::pieces::Shape;

verus! {

/// The board as rows of cells, row 0 on top; a cell is free when it is 0.
pub open spec fn cells(grid: &Vec<Vec<u8>>) -> Seq<Seq<u8>> {
    grid@.map_values(|row: Vec<u8>| row@)
}

/// `g` has `h` rows of `w` cells each.
pub open spec fn dims_ok(g: Seq<Seq<u8>>, w: int, h: int) -> bool {
    g.len() == h && forall|y: int| 0 <= y < h ==> #[trigger] g[y].len() == w
}

/// The cell `(px, py)` can take a block: it lies inside the board's width, above
/// its floor, and is either above the top edge or free.
pub open spec fn cell_free(g: Seq<Seq<u8>>, w: int, h: int, px: int, py: int) -> bool {
    0 <= px < w && py < h && (py < 0 || g[py][px] == 0)
}

/// Shape `s` placed with its top-left corner at `(x, y)` collides with nothing.
pub open spec fn fits(g: Seq<Seq<u8>>, w: int, h: int, s: Shape, x: int, y: int) -> bool {
    forall|r: int, c: int|
        0 <= r < 4 && 0 <= c < 4 && #[trigger] s[r][c] != 0 ==> cell_free(g, w, h, x + c, y + r)
}

/// The row where shape `s`, falling straight down from row `y` in column `x`, comes to
/// rest: it keeps falling while the next row down is free.
pub open spec fn landing_row(g: Seq<Seq<u8>>, w: int, h: int, s: Shape, x: int, y: int) -> int
    decreases h - y,
{
    if y < h && fits(g, w, h, s, x, y + 1) {
        landing_row(g, w, h, s, x, y + 1)
    } else {
        y
    }
}

/// Every block of `s` at `(x, y)` that falls on one of the board's rows falls inside
/// the board's width, so that writing the shape into the board stays in bounds.
pub open spec fn lockable(w: int, h: int, s: Shape, x: int, y: int) -> bool {
    forall|r: int, c: int|
        0 <= r < 4 && 0 <= c < 4 && #[trigger] s[r][c] != 0 && 0 <= y + r < h ==> 0 <= x + c < w
}

/// `s` has at least one filled cell.
pub open spec fn has_block(s: Shape) -> bool {
    exists|r: int, c: int| 0 <= r < 4 && 0 <= c < 4 && #[trigger] s[r][c] != 0
}

/// Shape `s` at `(x, y)` puts a block on the board cell `(col, row)`.
pub open spec fn covers(s: Shape, x: int, y: int, row: int, col: int) -> bool {
    0 <= row - y < 4 && 0 <= col - x < 4 && s[row - y][col - x] != 0
}

/// The board after writing `id` into every board cell that `s` at `(x, y)` covers.
pub open spec fn locked_grid(g: Seq<Seq<u8>>, s: Shape, id: u8, x: int, y: int) -> Seq<Seq<u8>> {
    Seq::new(
        g.len(),
        |row: int|
            Seq::new(g[row].len(), |col: int| if covers(s, x, y, row, col) { id } else { g[row][col] }),
    )
}

/// Every cell of the row holds a block.
pub open spec fn row_full(row: Seq<u8>) -> bool {
    forall|c: int| 0 <= c < row.len() ==> #[trigger] row[c] != 0
}

/// The rows of `g` that are not full, in their order.
pub open spec fn kept_rows(g: Seq<Seq<u8>>) -> Seq<Seq<u8>>
    decreases g.len(),
{
    if g.len() == 0 {
        g
    } else if row_full(g.last()) {
        kept_rows(g.drop_last())
    } else {
        kept_rows(g.drop_last()).push(g.last())
    }
}

/// The number of full rows of `g`.
pub open spec fn full_count(g: Seq<Seq<u8>>) -> nat
    decreases g.len(),
{
    if g.len() == 0 {
        0
    } else if row_full(g.last()) {
        full_count(g.drop_last()) + 1
    } else {
        full_count(g.drop_last())
    }
}

/// `n` empty rows of width `w`.
pub open spec fn empty_rows(n: nat, w: nat) -> Seq<Seq<u8>> {
    Seq::new(n, |i: int| Seq::new(w, |j: int| 0u8))
}

/// The board after removing its full rows and adding as many empty rows on top.
pub open spec fn cleared_grid(g: Seq<Seq<u8>>, w: nat) -> Seq<Seq<u8>> {
    empty_rows(full_count(g), w) + kept_rows(g)
}

/// No row of the board is full.
pub open spec fn no_full_rows(g: Seq<Seq<u8>>) -> bool {
    forall|y: int| 0 <= y < g.len() ==> !row_full(#[trigger] g[y])
}

/// The kept rows and the full rows together make up the board; the kept rows are rows
/// of the board, none of them full.
pub proof fn lemma_kept_rows(g: Seq<Seq<u8>>)
    ensures
        kept_rows(g).len() + full_count(g) == g.len(),
        forall|i: int|
            0 <= i < kept_rows(g).len() ==> !row_full(#[trigger] kept_rows(g)[i]) && exists|y: int|
                0 <= y < g.len() && g[y] == kept_rows(g)[i],
    decreases g.len(),
{
    if g.len() > 0 {
        lemma_kept_rows(g.drop_last());
        let k = kept_rows(g.drop_last());
        assert forall|i: int| 0 <= i < kept_rows(g).len() implies !row_full(
            #[trigger] kept_rows(g)[i],
        ) && exists|y: int| 0 <= y < g.len() && g[y] == kept_rows(g)[i] by {
            if i < k.len() {
                assert(kept_rows(g)[i] == k[i]);
                let y = choose|y: int| 0 <= y < g.drop_last().len() && g.drop_last()[y] == k[i];
                assert(g[y] == kept_rows(g)[i]);
            } else {
                assert(kept_rows(g)[i] == g.last());
                assert(g[g.len() - 1] == kept_rows(g)[i]);
            }
        }
    }
}

/// Clearing a board whose rows are `w` wide keeps its size, and when `w > 0` no row of
/// the result is full.
pub proof fn lemma_cleared_grid_shape(g: Seq<Seq<u8>>, w: nat, h: int)
    requires
        dims_ok(g, w as int, h),
    ensures
        dims_ok(cleared_grid(g, w), w as int, h),
        w > 0 ==> no_full_rows(cleared_grid(g, w)),
        full_count(g) <= g.len(),
{
    lemma_kept_rows(g);
    let c = cleared_grid(g, w);
    let n = full_count(g);
    assert forall|y: int| 0 <= y < h implies (#[trigger] c[y]).len() == w && (w > 0 ==> !row_full(c[y])) by {
        if y < n {
            assert(c[y] == Seq::new(w, |j: int| 0u8));
            if w > 0 {
                assert(c[y][0] == 0);
            }
        } else {
            assert(c[y] == kept_rows(g)[y - n]);
            let z = choose|z: int| 0 <= z < g.len() && g[z] == kept_rows(g)[y - n];
            assert(g[z].len() == w);
        }
    }
}

/// The number of rows `y < n` with `a <= y < a + 4`.
pub open spec fn window_rows(n: int, a: int) -> int {
    let lo = if a > 0 { a } else { 0 };
    let hi = if n < a + 4 { n } else { a + 4 };
    if hi > lo { hi - lo } else { 0 }
}

/// When every full row of `g` lies among the four rows from `a` on, `g` has at most
/// that many full rows.
pub proof fn lemma_full_rows_in_window(g: Seq<Seq<u8>>, a: int)
    requires
        forall|y: int| 0 <= y < g.len() && row_full(#[trigger] g[y]) ==> a <= y < a + 4,
    ensures
        full_count(g) <= window_rows(g.len() as int, a),
        full_count(g) <= 4,
    decreases g.len(),
{
    if g.len() > 0 {
        let d = g.drop_last();
        assert forall|y: int| 0 <= y < d.len() && row_full(#[trigger] d[y]) implies a <= y < a + 4 by {
            assert(d[y] == g[y]);
        }
        lemma_full_rows_in_window(d, a);
        if row_full(g.last()) {
            assert(g[g.len() - 1] == g.last());
        }
    }
}

/// Locking a shape at `(x, y)` into a board with no full row leaves at most four full
/// rows, all among the rows the shape covers.
pub proof fn lemma_lock_fills_at_most_four(g: Seq<Seq<u8>>, s: Shape, id: u8, x: int, y: int)
    requires
        no_full_rows(g),
    ensures
        full_count(locked_grid(g, s, id, x, y)) <= 4,
{
    let l = locked_grid(g, s, id, x, y);
    assert forall|row: int| 0 <= row < l.len() && row_full(#[trigger] l[row]) implies y <= row < y + 4 by {
        if !(y <= row < y + 4) {
            assert(l[row] =~= g[row]);
            assert(!row_full(g[row]));
        }
    }
    lemma_full_rows_in_window(l, y);
}

/// A shape that fits at a position can be written into the board there.
pub proof fn lemma_fits_lockable(g: Seq<Seq<u8>>, w: int, h: int, s: Shape, x: int, y: int)
    requires
        fits(g, w, h, s, x, y),
    ensures
        lockable(w, h, s, x, y),
{
}

/// A shape that fits at row `y` and falls from there lands on a row where it fits and
/// below which it does not: it rests on a block or on the floor.
pub proof fn lemma_landing_rests(g: Seq<Seq<u8>>, w: int, h: int, s: Shape, x: int, y: int)
    requires
        fits(g, w, h, s, x, y),
        has_block(s),
    ensures
        landing_row(g, w, h, s, x, y) >= y,
        fits(g, w, h, s, x, landing_row(g, w, h, s, x, y)),
        !fits(g, w, h, s, x, landing_row(g, w, h, s, x, y) + 1),
    decreases h - y,
{
    let (r0, c0) = choose|r: int, c: int| 0 <= r < 4 && 0 <= c < 4 && #[trigger] s[r][c] != 0;
    assert(cell_free(g, w, h, x + c0, y + r0));
    if y < h && fits(g, w, h, s, x, y + 1) {
        lemma_landing_rests(g, w, h, s, x, y + 1);
    } else if y >= h {
        assert(false);
    }
}

/// A board without full rows is left as it is by clearing: clearing twice in a row
/// removes nothing the second time.
pub proof fn lemma_clear_idempotent(g: Seq<Seq<u8>>, w: nat)
    requires
        no_full_rows(g),
    ensures
        full_count(g) == 0,
        kept_rows(g) == g,
        cleared_grid(g, w) == g,
    decreases g.len(),
{
    if g.len() > 0 {
        let d = g.drop_last();
        assert forall|y: int| 0 <= y < d.len() implies !row_full(#[trigger] d[y]) by {
            assert(d[y] == g[y]);
        }
        lemma_clear_idempotent(d, w);
        assert(!row_full(g[g.len() - 1]));
        assert(d.push(g.last()) =~= g);
    } else {
        assert(g =~= Seq::empty());
    }
    assert(empty_rows(0, w) =~= Seq::empty());
    assert(cleared_grid(g, w) =~= g);
}

/// A falling shape lands at or below its start, and no lower than the floor unless it
/// starts below it; it can be written into the board where it lands when it can where
/// it starts.
pub proof fn lemma_landing_bounds(g: Seq<Seq<u8>>, w: int, h: int, s: Shape, x: int, y: int)
    ensures
        y <= landing_row(g, w, h, s, x, y) <= if y > h { y } else { h },
        lockable(w, h, s, x, y) ==> lockable(w, h, s, x, landing_row(g, w, h, s, x, y)),
    decreases h - y,
{
    if y < h && fits(g, w, h, s, x, y + 1) {
        lemma_landing_bounds(g, w, h, s, x, y + 1);
        lemma_fits_lockable(g, w, h, s, x, y + 1);
    }
}

} // verus!
