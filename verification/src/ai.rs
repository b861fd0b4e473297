use rayon::iter::IntoParallelRefMutIterator;
use rayon::iter::ParallelIterator;
use vstd::prelude::*;

use crate::board::{lemma_rotation_unique, TetrisEngine};
use crate::grid::{
    cells, cleared_grid, dims_ok, fits, full_count, has_block, landing_row, lemma_cleared_grid_shape,
    lemma_fits_lockable, locked_grid,
};
use crate::pieces::{is_rotation_of, lemma_shape_ext, Piece, Shape};
use crate::simulator::Simulator;

verus! {

/// The board is non-empty, no row is shorter than the first (whose length is the
/// board's width), and the board is small enough for its column statistics to fit in
/// an `i32`.
pub open spec fn eval_ok(g: Seq<Seq<u8>>) -> bool {
    &&& g.len() >= 1
    &&& g[0].len() >= 1
    &&& forall|y: int| 0 <= y < g.len() ==> #[trigger] g[y].len() >= g[0].len()
    &&& g.len() * g[0].len() <= i32::MAX
}

/// The first row at or below `y` whose cell in column `x` holds a block, or the
/// board's height when there is none.
pub open spec fn top_row(g: Seq<Seq<u8>>, x: int, y: int) -> int
    decreases g.len() - y,
{
    if y >= g.len() || y < 0 {
        g.len() as int
    } else if g[y][x] != 0 {
        y
    } else {
        top_row(g, x, y + 1)
    }
}

/// The height of column `x`: the number of rows from its highest block down to the
/// floor, 0 for an empty column.
pub open spec fn col_height(g: Seq<Seq<u8>>, x: int) -> int {
    g.len() - top_row(g, x, 0)
}

/// The number of free cells of column `x` from row `y` down to the floor.
pub open spec fn free_below(g: Seq<Seq<u8>>, x: int, y: int) -> int
    decreases g.len() - y,
{
    if y >= g.len() || y < 0 {
        0
    } else {
        (if g[y][x] == 0 { 1int } else { 0 }) + free_below(g, x, y + 1)
    }
}

/// The holes of column `x`: its free cells under its highest block.
pub open spec fn col_holes(g: Seq<Seq<u8>>, x: int) -> int {
    free_below(g, x, top_row(g, x, 0))
}

/// The sum of the heights of the first `n` columns.
pub open spec fn sum_heights(g: Seq<Seq<u8>>, n: int) -> int
    decreases n,
{
    if n <= 0 {
        0
    } else {
        sum_heights(g, n - 1) + col_height(g, n - 1)
    }
}

/// The number of holes in the first `n` columns.
pub open spec fn sum_holes(g: Seq<Seq<u8>>, n: int) -> int
    decreases n,
{
    if n <= 0 {
        0
    } else {
        sum_holes(g, n - 1) + col_holes(g, n - 1)
    }
}

/// The absolute value of `v`.
pub open spec fn abs(v: int) -> int {
    if v < 0 {
        -v
    } else {
        v
    }
}

/// The sum of the height differences between columns `i` and `i + 1` for `i < n`.
pub open spec fn sum_bumps(g: Seq<Seq<u8>>, n: int) -> int
    decreases n,
{
    if n <= 0 {
        0
    } else {
        sum_bumps(g, n - 1) + abs(col_height(g, n - 1) - col_height(g, n))
    }
}

/// The aggregate height of the board.
pub open spec fn agg_height(g: Seq<Seq<u8>>) -> int {
    sum_heights(g, g[0].len() as int)
}

/// The number of holes of the board.
pub open spec fn holes(g: Seq<Seq<u8>>) -> int {
    sum_holes(g, g[0].len() as int)
}

/// The bumpiness of the board: the sum of the height differences of neighbouring
/// columns.
pub open spec fn bumpiness(g: Seq<Seq<u8>>) -> int {
    sum_bumps(g, g[0].len() - 1)
}

/// The heuristic value of a board after clearing `lines` lines, in hundredths:
/// -0.51 per unit of aggregate height, +0.76 per line, -0.36 per hole and -0.18 per
/// unit of bumpiness.
pub open spec fn board_score(g: Seq<Seq<u8>>, lines: int) -> int {
    -51 * agg_height(g) + 76 * lines - 36 * holes(g) - 18 * bumpiness(g)
}

/// The column height lies between 0 and the board's height.
pub proof fn lemma_col_height_bounds(g: Seq<Seq<u8>>, x: int, y: int)
    requires
        0 <= y <= g.len(),
    ensures
        y <= top_row(g, x, y) <= g.len(),
        0 <= free_below(g, x, y) <= g.len() - y,
    decreases g.len() - y,
{
    if y < g.len() {
        lemma_col_height_bounds(g, x, y + 1);
    }
}

/// The sums over `n` columns stay within `n` times the board's height.
pub proof fn lemma_sums_bounded(g: Seq<Seq<u8>>, n: int)
    requires
        0 <= n,
    ensures
        0 <= sum_heights(g, n) <= n * g.len(),
        0 <= sum_holes(g, n) <= n * g.len(),
        0 <= sum_bumps(g, n) <= n * g.len(),
    decreases n,
{
    if n > 0 {
        lemma_sums_bounded(g, n - 1);
        lemma_col_height_bounds(g, n - 1, 0);
        lemma_col_height_bounds(g, n, 0);
        lemma_col_height_bounds(g, n - 1, top_row(g, n - 1, 0));
        assert((n - 1) * g.len() + g.len() == n * g.len()) by (nonlinear_arith);
    }
}

/// The sum of `f(i)` for `0 <= i < n`.
pub open spec fn sum_f(f: spec_fn(int) -> int, n: int) -> int
    decreases n,
{
    if n <= 0 {
        0
    } else {
        sum_f(f, n - 1) + f(n - 1)
    }
}

/// Sums of functions that agree below `n` agree.
pub proof fn lemma_sum_congr(f: spec_fn(int) -> int, g: spec_fn(int) -> int, n: int)
    requires
        forall|i: int| 0 <= i < n ==> #[trigger] f(i) == g(i),
    ensures
        sum_f(f, n) == sum_f(g, n),
    decreases n,
{
    if n > 0 {
        lemma_sum_congr(f, g, n - 1);
    }
}

/// A sum is its first term plus the sum of the rest.
pub proof fn lemma_sum_front(f: spec_fn(int) -> int, n: int)
    requires
        n > 0,
    ensures
        sum_f(f, n) == f(0) + sum_f(|i: int| f(i + 1), n - 1),
    decreases n,
{
    let g = |i: int| f(i + 1);
    if n > 1 {
        lemma_sum_front(f, n - 1);
        assert(sum_f(g, n - 1) == sum_f(g, n - 2) + g(n - 2));
    } else {
        assert(sum_f(g, 0) == 0);
        assert(sum_f(f, 1) == sum_f(f, 0) + f(0));
    }
}

/// Summing in reverse order gives the same sum.
pub proof fn lemma_sum_reverse(f: spec_fn(int) -> int, n: int)
    ensures
        sum_f(|i: int| f(n - 1 - i), n) == sum_f(f, n),
    decreases n,
{
    if n > 0 {
        let g = |i: int| f(i + 1);
        lemma_sum_reverse(g, n - 1);
        lemma_sum_congr(|i: int| f(n - 1 - i), |i: int| g(n - 1 - 1 - i), n - 1);
        lemma_sum_front(f, n);
    }
}

/// The per-column sums written as sums of column functions.
pub proof fn lemma_sums_as_sum_f(g: Seq<Seq<u8>>, n: int)
    ensures
        sum_heights(g, n) == sum_f(|x: int| col_height(g, x), n),
        sum_holes(g, n) == sum_f(|x: int| col_holes(g, x), n),
        sum_bumps(g, n) == sum_f(|x: int| abs(col_height(g, x) - col_height(g, x + 1)), n),
    decreases n,
{
    if n > 0 {
        lemma_sums_as_sum_f(g, n - 1);
    }
}

/// `g2` is the board `g`, `w` columns wide, mirrored left to right.
pub open spec fn mirrored(g2: Seq<Seq<u8>>, g: Seq<Seq<u8>>, w: int) -> bool {
    &&& g2.len() == g.len()
    &&& forall|y: int| 0 <= y < g.len() ==> (#[trigger] g2[y]).len() == w && g[y].len() == w
    &&& forall|y: int, x: int| 0 <= y < g.len() && 0 <= x < w ==> #[trigger] g2[y][x] == g[y][w - 1 - x]
}

/// A column of the mirrored board has the top and the free cells of the matching
/// column of the board.
pub proof fn lemma_mirror_column(g2: Seq<Seq<u8>>, g: Seq<Seq<u8>>, w: int, x: int, y: int)
    requires
        mirrored(g2, g, w),
        0 <= x < w,
        0 <= y,
    ensures
        top_row(g2, x, y) == top_row(g, w - 1 - x, y),
        free_below(g2, x, y) == free_below(g, w - 1 - x, y),
    decreases g.len() - y,
{
    if y < g.len() {
        assert(g2[y][x] == g[y][w - 1 - x]);
        lemma_mirror_column(g2, g, w, x, y + 1);
    }
}

/// Mirroring the board left to right keeps its aggregate height, holes and bumpiness,
/// so it keeps its value.
pub proof fn lemma_mirror_score(g2: Seq<Seq<u8>>, g: Seq<Seq<u8>>, lines: int)
    requires
        eval_ok(g),
        mirrored(g2, g, g[0].len() as int),
    ensures
        eval_ok(g2),
        agg_height(g2) == agg_height(g),
        holes(g2) == holes(g),
        bumpiness(g2) == bumpiness(g),
        board_score(g2, lines) == board_score(g, lines),
{
    let w = g[0].len() as int;
    assert(g2[0].len() == w);
    assert forall|x: int| 0 <= x < w implies col_height(g2, x) == col_height(g, w - 1 - x) && col_holes(g2, x) == col_holes(g, w - 1 - x) by {
        lemma_mirror_column(g2, g, w, x, 0);
        lemma_col_height_bounds(g2, x, 0);
        lemma_mirror_column(g2, g, w, x, top_row(g2, x, 0));
    }
    lemma_sums_as_sum_f(g2, w);
    lemma_sums_as_sum_f(g, w);
    lemma_sums_as_sum_f(g2, w - 1);
    lemma_sums_as_sum_f(g, w - 1);
    let hf = |x: int| col_height(g, x);
    let of = |x: int| col_holes(g, x);
    let bf = |x: int| abs(col_height(g, x) - col_height(g, x + 1));
    lemma_sum_congr(|x: int| col_height(g2, x), |i: int| hf(w - 1 - i), w);
    lemma_sum_reverse(hf, w);
    lemma_sum_congr(|x: int| col_holes(g2, x), |i: int| of(w - 1 - i), w);
    lemma_sum_reverse(of, w);
    lemma_sum_congr(|x: int| abs(col_height(g2, x) - col_height(g2, x + 1)), |i: int| bf(w - 1 - 1 - i), w - 1);
    lemma_sum_reverse(bf, w - 1);
}

/// On the same board, more cleared lines never lower the value.
pub proof fn lemma_more_lines_score(g: Seq<Seq<u8>>, c1: int, c2: int)
    requires
        c1 <= c2,
    ensures
        board_score(g, c1) <= board_score(g, c2),
{
}

/// The four features of a board and its heuristic value, in hundredths.
#[derive(Clone, Copy, Debug)]
pub struct EvalDetails {
    pub agg_height: i32,
    pub cleared_lines: u32,
    pub holes: i32,
    pub bumpiness: i32,
    pub score: i64,
}

/// The board heuristic.
pub struct Evaluator;

impl Evaluator {
    /// The features of `grid` after clearing `cleared_lines` lines, and its value.
    pub fn evaluate_details(grid: &Vec<Vec<u8>>, cleared_lines: u32) -> (d: EvalDetails)
        requires
            eval_ok(cells(grid)),
        ensures
            d.agg_height == agg_height(cells(grid)),
            d.cleared_lines == cleared_lines,
            d.holes == holes(cells(grid)),
            d.bumpiness == bumpiness(cells(grid)),
            d.score == board_score(cells(grid), cleared_lines as int),
    {
        let ghost g = cells(grid);
        let width = grid[0].len();
        let height = grid.len();
        proof {
            assert(g[0].len() == width);
            lemma_sums_bounded(g, width as int);
            lemma_sums_bounded(g, width - 1);
            assert((width - 1) * height <= width * height) by (nonlinear_arith)
                requires width >= 1;
            assert(width * height == height * width) by (nonlinear_arith);
            assert(height <= width * height && width <= width * height) by (nonlinear_arith)
                requires width >= 1, height >= 1;
        }
        let mut heights: Vec<i64> = Vec::new();
        let mut x: usize = 0;
        while x < width
            invariant
                g == cells(grid),
                eval_ok(g),
                width == g[0].len(),
                height == g.len(),
                width <= i32::MAX,
                height <= i32::MAX,
                x <= width,
                heights@.len() == x,
                forall|i: int| 0 <= i < x ==> #[trigger] heights@[i] == col_height(g, i),
            decreases width - x,
        {
            let mut y: usize = 0;
            while y < height && grid[y][x] == 0
                invariant
                    g == cells(grid),
                    eval_ok(g),
                    width == g[0].len(),
                    height == g.len(),
                    width <= i32::MAX,
                    height <= i32::MAX,
                    x < width,
                    y <= height,
                    top_row(g, x as int, 0) == top_row(g, x as int, y as int),
                decreases height - y,
            {
                assert(g[y as int].len() >= width);
                y += 1;
            }
            proof {
                lemma_col_height_bounds(g, x as int, 0);
                assert(top_row(g, x as int, y as int) == y);
            }
            heights.push((height - y) as i64);
            x += 1;
        }
        let mut agg: i64 = 0;
        let mut i: usize = 0;
        while i < width
            invariant
                g == cells(grid),
                eval_ok(g),
                width == g[0].len(),
                height == g.len(),
                width <= i32::MAX,
                height <= i32::MAX,
                i <= width,
                heights@.len() == width,
                forall|k: int| 0 <= k < width ==> #[trigger] heights@[k] == col_height(g, k),
                agg == sum_heights(g, i as int),
                sum_heights(g, width as int) <= i32::MAX,
            decreases width - i,
        {
            proof {
                lemma_sums_bounded(g, i as int);
                lemma_sums_bounded(g, i + 1);
                assert(sum_heights(g, i + 1) <= sum_heights(g, width as int)) by {
                    lemma_sum_heights_mono(g, i + 1, width as int);
                }
            }
            agg = agg + heights[i];
            i += 1;
        }
        let mut holes_count: i64 = 0;
        let mut x: usize = 0;
        while x < width
            invariant
                g == cells(grid),
                eval_ok(g),
                width == g[0].len(),
                height == g.len(),
                width <= i32::MAX,
                height <= i32::MAX,
                x <= width,
                heights@.len() == width,
                forall|k: int| 0 <= k < width ==> #[trigger] heights@[k] == col_height(g, k),
                holes_count == sum_holes(g, x as int),
                sum_holes(g, width as int) <= i32::MAX,
            decreases width - x,
        {
            proof {
                lemma_col_height_bounds(g, x as int, 0);
            }
            let top: usize = height - heights[x] as usize;
            let mut y: usize = top;
            let mut col: i64 = 0;
            proof {
                lemma_sums_bounded(g, x as int);
                lemma_sum_holes_mono(g, x + 1, width as int);
            }
            while y < height
                invariant
                    g == cells(grid),
                    eval_ok(g),
                    width == g[0].len(),
                    height == g.len(),
                    width <= i32::MAX,
                    height <= i32::MAX,
                    x < width,
                    top <= y <= height,
                    top == top_row(g, x as int, 0),
                    col + free_below(g, x as int, y as int) == col_holes(g, x as int),
                    0 <= col <= y - top,
                decreases height - y,
            {
                assert(g[y as int].len() >= width);
                if grid[y][x] == 0 {
                    col += 1;
                }
                y += 1;
            }
            holes_count = holes_count + col;
            x += 1;
        }
        let mut bump: i64 = 0;
        let mut i: usize = 0;
        while i < width - 1
            invariant
                g == cells(grid),
                eval_ok(g),
                width == g[0].len(),
                height == g.len(),
                width <= i32::MAX,
                height <= i32::MAX,
                i <= width - 1,
                heights@.len() == width,
                forall|k: int| 0 <= k < width ==> #[trigger] heights@[k] == col_height(g, k),
                bump == sum_bumps(g, i as int),
                sum_bumps(g, width - 1) <= i32::MAX,
            decreases width - 1 - i,
        {
            proof {
                lemma_sum_bumps_mono(g, i + 1, width - 1);
                lemma_sums_bounded(g, i as int);
            }
            let d = heights[i] - heights[i + 1];
            bump = bump + if d < 0 { -d } else { d };
            i += 1;
        }
        let score: i64 = -51 * agg + 76 * (cleared_lines as i64) - 36 * holes_count - 18 * bump;
        EvalDetails {
            agg_height: agg as i32,
            cleared_lines,
            holes: holes_count as i32,
            bumpiness: bump as i32,
            score,
        }
    }

    /// The heuristic value of `grid` after clearing `cleared_lines` lines, in hundredths.
    pub fn evaluate(grid: &Vec<Vec<u8>>, cleared_lines: u32) -> (score: i64)
        requires
            eval_ok(cells(grid)),
        ensures
            score == board_score(cells(grid), cleared_lines as int),
    {
        Self::evaluate_details(grid, cleared_lines).score
    }
}

/// The sums over columns grow with the number of columns.
pub proof fn lemma_sum_heights_mono(g: Seq<Seq<u8>>, m: int, n: int)
    requires
        0 <= m <= n,
    ensures
        sum_heights(g, m) <= sum_heights(g, n),
    decreases n - m,
{
    if m < n {
        lemma_sum_heights_mono(g, m, n - 1);
        lemma_col_height_bounds(g, n - 1, 0);
    }
}

/// The number of holes grows with the number of columns.
pub proof fn lemma_sum_holes_mono(g: Seq<Seq<u8>>, m: int, n: int)
    requires
        0 <= m <= n,
    ensures
        sum_holes(g, m) <= sum_holes(g, n),
    decreases n - m,
{
    if m < n {
        lemma_sum_holes_mono(g, m, n - 1);
        lemma_col_height_bounds(g, n - 1, 0);
        lemma_col_height_bounds(g, n - 1, top_row(g, n - 1, 0));
    }
}

/// The bumpiness sum grows with the number of columns.
pub proof fn lemma_sum_bumps_mono(g: Seq<Seq<u8>>, m: int, n: int)
    requires
        0 <= m <= n,
    ensures
        sum_bumps(g, m) <= sum_bumps(g, n),
    decreases n - m,
{
    if m < n {
        lemma_sum_bumps_mono(g, m, n - 1);
    }
}

/// The quarter turn of `s` for shape id `id` (each shape has exactly one).
pub open spec fn turned(s: Shape, id: u8) -> Shape {
    choose|t: Shape| is_rotation_of(t, s, id)
}

/// `s` after `k` quarter turns.
pub open spec fn turn_n(s: Shape, id: u8, k: nat) -> Shape
    decreases k,
{
    if k == 0 {
        s
    } else {
        turned(turn_n(s, id, (k - 1) as nat), id)
    }
}

/// The `k`-th turn of `s` differs from every earlier one.
pub open spec fn is_new_turn(s: Shape, id: u8, k: nat) -> bool {
    forall|j: nat| j < k ==> turn_n(s, id, j) != #[trigger] turn_n(s, id, k)
}

/// Column `c` of `s` holds a block.
pub open spec fn col_filled(s: Shape, c: int) -> bool {
    s[0][c] != 0 || s[1][c] != 0 || s[2][c] != 0 || s[3][c] != 0
}

/// The leftmost column of `s` that holds a block, 4 when there is none.
pub open spec fn min_col(s: Shape) -> int {
    if col_filled(s, 0) {
        0
    } else if col_filled(s, 1) {
        1
    } else if col_filled(s, 2) {
        2
    } else if col_filled(s, 3) {
        3
    } else {
        4
    }
}

/// The rightmost column of `s` that holds a block, -1 when there is none.
pub open spec fn max_col(s: Shape) -> int {
    if col_filled(s, 3) {
        3
    } else if col_filled(s, 2) {
        2
    } else if col_filled(s, 1) {
        1
    } else if col_filled(s, 0) {
        0
    } else {
        -1
    }
}

/// The columns `x` among `lo .. lo + n`, in increasing order, where `s` fits in the top
/// row.
pub open spec fn fitting_xs(g: Seq<Seq<u8>>, w: int, h: int, s: Shape, lo: int, n: nat) -> Seq<int>
    decreases n,
{
    if n == 0 {
        Seq::empty()
    } else if fits(g, w, h, s, lo + n - 1, 0) {
        fitting_xs(g, w, h, s, lo, (n - 1) as nat).push(lo + n - 1)
    } else {
        fitting_xs(g, w, h, s, lo, (n - 1) as nat)
    }
}

/// The columns tried for the `k`-th turn of `s`: none when that turn repeats an
/// earlier one or is empty, else every column that keeps the shape inside the walls
/// and where it fits in the top row.
pub open spec fn turn_xs(g: Seq<Seq<u8>>, w: int, h: int, s0: Shape, id: u8, k: nat) -> Seq<int> {
    let s = turn_n(s0, id, k);
    if is_new_turn(s0, id, k) && min_col(s) <= max_col(s) {
        let lo = -min_col(s);
        let hi = w - max_col(s);
        fitting_xs(g, w, h, s, lo, if hi > lo { (hi - lo) as nat } else { 0 })
    } else {
        Seq::empty()
    }
}

/// The (turn, column) pairs of the placements for the first `k` turns, in the order
/// they are generated.
pub open spec fn candidates(g: Seq<Seq<u8>>, w: int, h: int, s0: Shape, id: u8, k: nat) -> Seq<(nat, int)>
    decreases k,
{
    if k == 0 {
        Seq::empty()
    } else {
        candidates(g, w, h, s0, id, (k - 1) as nat) + turn_xs(g, w, h, s0, id, (k - 1) as nat).map_values(
            |x: int| ((k - 1) as nat, x),
        )
    }
}

/// The (turn, column) pairs of all placements of a piece with shape `s0`.
pub open spec fn all_candidates(g: Seq<Seq<u8>>, w: int, h: int, s0: Shape, id: u8) -> Seq<(nat, int)> {
    candidates(g, w, h, s0, id, 4)
}

/// The board with `s` dropped from the top row in column `x` and written in.
pub open spec fn landed_grid(g: Seq<Seq<u8>>, w: int, h: int, s: Shape, id: u8, x: int) -> Seq<Seq<u8>> {
    locked_grid(g, s, id, x, landing_row(g, w, h, s, x, 0))
}

/// The number of lines that dropping `s` in column `x` completes.
pub open spec fn placed_cleared(g: Seq<Seq<u8>>, w: int, h: int, s: Shape, id: u8, x: int) -> nat {
    full_count(landed_grid(g, w, h, s, id, x))
}

/// The board after dropping `s` in column `x` and clearing the completed lines.
pub open spec fn placed_grid(g: Seq<Seq<u8>>, w: int, h: int, s: Shape, id: u8, x: int) -> Seq<Seq<u8>> {
    cleared_grid(landed_grid(g, w, h, s, id, x), w as nat)
}

/// `m` is the placement of the `k`-th turn of `s0` dropped in column `x` on `g`, not
/// yet scored against the next piece.
pub open spec fn is_placement(m: Move, g: Seq<Seq<u8>>, w: int, h: int, s0: Shape, id: u8, k: nat, x: int) -> bool {
    let s = turn_n(s0, id, k);
    &&& m.rotation == k
    &&& m.x == x
    &&& m.drop_y == landing_row(g, w, h, s, x, 0)
    &&& m.shape == s
    &&& m.score is None
    &&& cells(&m.sim_grid) == placed_grid(g, w, h, s, id, x)
    &&& m.cleared_lines == placed_cleared(g, w, h, s, id, x)
    &&& m.ply1_score == board_score(placed_grid(g, w, h, s, id, x), placed_cleared(g, w, h, s, id, x) as int)
}

/// A placement of the falling piece: its turn and column, the row it lands on, its
/// shape there, the board it leaves and the lines it clears, its one-ply value and
/// its two-ply value (both in hundredths; `None` when no placement of the next piece
/// fits on the board it leaves).
#[derive(Clone, Debug)]
pub struct Move {
    pub rotation: u8,
    pub x: i32,
    pub drop_y: i32,
    pub shape: Shape,
    pub score: Option<i64>,
    pub ply1_score: i64,
    pub sim_grid: Vec<Vec<u8>>,
    pub cleared_lines: u32,
}

/// Whether `a` and `b` are the same shape.
pub fn same_shape(a: &Shape, b: &Shape) -> (eq: bool)
    ensures
        eq == (*a == *b),
{
    let mut r: usize = 0;
    while r < 4
        invariant
            r <= 4,
            forall|i: int, j: int| 0 <= i < r && 0 <= j < 4 ==> #[trigger] a[i][j] == b[i][j],
        decreases 4 - r,
    {
        let mut c: usize = 0;
        while c < 4
            invariant
                r < 4,
                c <= 4,
                forall|i: int, j: int|
                    ((0 <= i < r && 0 <= j < 4) || (i == r && 0 <= j < c)) ==> #[trigger] a[i][j] == b[i][j],
            decreases 4 - c,
        {
            if a[r][c] != b[r][c] {
                return false;
            }
            c += 1;
        }
        r += 1;
    }
    proof {
        lemma_shape_ext(*a, *b);
    }
    true
}

/// Whether `s` is among `seen`.
pub fn shape_listed(seen: &Vec<Shape>, s: &Shape) -> (found: bool)
    ensures
        found == seen@.contains(*s),
{
    let mut i: usize = 0;
    while i < seen.len()
        invariant
            i <= seen.len(),
            forall|j: int| 0 <= j < i ==> seen@[j] != *s,
        decreases seen.len() - i,
    {
        if same_shape(&seen[i], s) {
            assert(seen@[i as int] == *s);
            return true;
        }
        i += 1;
    }
    false
}

/// Whether column `c` of `s` holds a block.
fn column_filled(s: &Shape, c: usize) -> (f: bool)
    requires
        c < 4,
    ensures
        f == col_filled(*s, c as int),
{
    s[0][c] != 0 || s[1][c] != 0 || s[2][c] != 0 || s[3][c] != 0
}

/// The leftmost and rightmost columns of `s` that hold a block.
fn column_span(s: &Shape) -> (span: (i32, i32))
    ensures
        span.0 == min_col(*s),
        span.1 == max_col(*s),
{
    let min_c: i32 = if column_filled(s, 0) {
        0
    } else if column_filled(s, 1) {
        1
    } else if column_filled(s, 2) {
        2
    } else if column_filled(s, 3) {
        3
    } else {
        4
    };
    let max_c: i32 = if column_filled(s, 3) {
        3
    } else if column_filled(s, 2) {
        2
    } else if column_filled(s, 1) {
        1
    } else if column_filled(s, 0) {
        0
    } else {
        -1
    };
    (min_c, max_c)
}

/// A shape with a block in some column has a block.
pub proof fn lemma_span_has_block(s: Shape)
    requires
        min_col(s) <= max_col(s),
    ensures
        has_block(s),
{
    let c = min_col(s);
    if s[0][c] != 0 {
        assert(s[0][c] != 0);
    } else if s[1][c] != 0 {
        assert(s[1][c] != 0);
    } else if s[2][c] != 0 {
        assert(s[2][c] != 0);
    } else {
        assert(s[3][c] != 0);
    }
}

/// A shape with a block that fits somewhere at or below the top row needs a board at
/// least one cell wide and one row high.
pub proof fn lemma_fit_needs_room(g: Seq<Seq<u8>>, w: int, h: int, s: Shape, x: int, y: int)
    requires
        has_block(s),
        fits(g, w, h, s, x, y),
        y >= 0,
    ensures
        w >= 1,
        h >= 1,
{
    let (r, c) = choose|r: int, c: int| 0 <= r < 4 && 0 <= c < 4 && #[trigger] s[r][c] != 0;
    assert(s[r][c] != 0);
}

/// The generator of all placements of a piece.
pub struct MoveGenerator;

impl MoveGenerator {
    /// Every placement of `piece` on `base_grid`: for each of its four turns that
    /// differs from the earlier ones, each column where the turned shape fits in the
    /// top row, the shape dropped straight down, written in and its lines cleared, with
    /// its one-ply value.
    pub fn get_possible_moves(piece: &Piece, width: usize, height: usize, base_grid: &Vec<Vec<u8>>) -> (moves: Vec<Move>)
        requires
            width <= i32::MAX,
            height <= i32::MAX,
            width * height <= i32::MAX,
            dims_ok(cells(base_grid), width as int, height as int),
        ensures
            moves@.len() == all_candidates(cells(base_grid), width as int, height as int, piece.shape, piece.shape_id).len(),
            forall|i: int|
                0 <= i < moves@.len() ==> {
                    let c = all_candidates(cells(base_grid), width as int, height as int, piece.shape, piece.shape_id)[i];
                    &&& is_placement(#[trigger] moves@[i], cells(base_grid), width as int, height as int, piece.shape, piece.shape_id, c.0, c.1)
                    &&& dims_ok(cells(&moves@[i].sim_grid), width as int, height as int)
                    &&& moves@[i].cleared_lines <= height
                },
            moves@.len() > 0 ==> width >= 1 && height >= 1,
    {
        let ghost g = cells(base_grid);
        let ghost w = width as int;
        let ghost h = height as int;
        let ghost s0 = piece.shape;
        let ghost id = piece.shape_id;
        let mut possible_moves: Vec<Move> = Vec::new();
        let mut test_piece = *piece;
        let mut seen_shapes: Vec<Shape> = Vec::new();
        let mut rot: u8 = 0;
        while rot < 4
            invariant
                g == cells(base_grid),
                w == width,
                h == height,
                width <= i32::MAX,
                height <= i32::MAX,
                width * height <= i32::MAX,
                dims_ok(g, w, h),
                s0 == piece.shape,
                id == piece.shape_id,
                rot <= 4,
                test_piece.shape_id == id,
                test_piece.shape == turn_n(s0, id, rot as nat),
                forall|j: nat| j < rot ==> seen_shapes@.contains(#[trigger] turn_n(s0, id, j)),
                forall|e: Shape| #[trigger] seen_shapes@.contains(e) ==> exists|j: nat| j < rot && e == turn_n(s0, id, j),
                possible_moves@.len() == candidates(g, w, h, s0, id, rot as nat).len(),
                forall|i: int|
                    0 <= i < possible_moves@.len() ==> {
                        let c = candidates(g, w, h, s0, id, rot as nat)[i];
                        &&& is_placement(#[trigger] possible_moves@[i], g, w, h, s0, id, c.0, c.1)
                        &&& dims_ok(cells(&possible_moves@[i].sim_grid), w, h)
                        &&& possible_moves@[i].cleared_lines <= h
                    },
                possible_moves@.len() > 0 ==> w >= 1 && h >= 1,
            decreases 4 - rot,
        {
            let ghost k = rot as nat;
            let ghost s = turn_n(s0, id, k);
            let ghost before = candidates(g, w, h, s0, id, k);
            let ghost seen_before = seen_shapes@;
            let listed = shape_listed(&seen_shapes, &test_piece.shape);
            proof {
                if listed {
                    let j = choose|j: nat| j < rot && s == turn_n(s0, id, j);
                    assert(!is_new_turn(s0, id, k));
                } else {
                    assert forall|j: nat| j < k implies turn_n(s0, id, j) != #[trigger] turn_n(s0, id, k) by {
                        assert(seen_shapes@.contains(turn_n(s0, id, j)));
                    }
                }
            }
            if !listed {
                seen_shapes.push(test_piece.shape);
                let (min_c, max_c) = column_span(&test_piece.shape);
                if min_c <= max_c {
                    proof {
                        lemma_span_has_block(s);
                    }
                    let start_x: i32 = -min_c;
                    let end_x: i32 = width as i32 - max_c;
                    let mut x: i32 = start_x;
                    while x < end_x
                        invariant
                            g == cells(base_grid),
                            w == width,
                            h == height,
                            width <= i32::MAX,
                            height <= i32::MAX,
                            width * height <= i32::MAX,
                            dims_ok(g, w, h),
                            test_piece.shape == s,
                            test_piece.shape_id == id,
                            k == rot as nat,
                            rot < 4,
                            s == turn_n(s0, id, k),
                            has_block(s),
                            start_x <= x,
                            start_x <= end_x ==> x <= end_x,
                            end_x < start_x ==> x == start_x,
                            possible_moves@.len() == before.len() + fitting_xs(g, w, h, s, start_x as int, (x - start_x) as nat).len(),
                            forall|i: int|
                                0 <= i < possible_moves@.len() ==> {
                                    let c = (before + fitting_xs(g, w, h, s, start_x as int, (x - start_x) as nat).map_values(|x: int| (k, x)))[i];
                                    &&& is_placement(#[trigger] possible_moves@[i], g, w, h, s0, id, c.0, c.1)
                                    &&& dims_ok(cells(&possible_moves@[i].sim_grid), w, h)
                                    &&& possible_moves@[i].cleared_lines <= h
                                },
                            possible_moves@.len() > 0 ==> w >= 1 && h >= 1,
                        decreases end_x - x,
                    {
                        let ghost xs = fitting_xs(g, w, h, s, start_x as int, (x - start_x) as nat);
                        let ghost old_len = possible_moves@.len();
                        let mut sim = Simulator::new(width, height, base_grid);
                        if sim.is_valid_position(&test_piece, x, 0) {
                            let drop_y = sim.drop_piece(&test_piece, x, 0);
                            proof {
                                lemma_fits_lockable(g, w, h, s, x as int, drop_y as int);
                                lemma_fit_needs_room(g, w, h, s, x as int, 0);
                            }
                            sim.lock_piece(&test_piece, x, drop_y);
                            let cleared = sim.clear_lines();
                            proof {
                                let l = landed_grid(g, w, h, s, id, x as int);
                                lemma_cleared_grid_shape(l, w as nat, h);
                                assert(cells(&sim.grid).len() == h);
                                assert(cells(&sim.grid)[0].len() == w);
                                assert(h * w == w * h) by (nonlinear_arith);
                            }
                            let score = Evaluator::evaluate(&sim.grid, cleared);
                            let m = Move {
                                rotation: rot,
                                x,
                                drop_y,
                                shape: test_piece.shape,
                                score: None,
                                ply1_score: score,
                                sim_grid: sim.grid,
                                cleared_lines: cleared,
                            };
                            possible_moves.push(m);
                            proof {
                                assert(possible_moves@[old_len as int] == m);
                                assert(is_placement(possible_moves@[old_len as int], g, w, h, s0, id, k, x as int));
                                assert(dims_ok(cells(&possible_moves@[old_len as int].sim_grid), w, h));
                                assert(possible_moves@[old_len as int].cleared_lines <= h);
                            }
                        }
                        proof {
                            let n = (x - start_x) as nat;
                            assert(fitting_xs(g, w, h, s, start_x as int, n + 1) == if fits(g, w, h, s, x as int, 0) {
                                xs.push(x as int)
                            } else {
                                xs
                            });
                        }
                        x += 1;
                        proof {
                            let xs2 = fitting_xs(g, w, h, s, start_x as int, (x - start_x) as nat);
                            assert forall|i: int| 0 <= i < possible_moves@.len() implies {
                                let c = (before + xs2.map_values(|x: int| (k, x)))[i];
                                &&& is_placement(#[trigger] possible_moves@[i], g, w, h, s0, id, c.0, c.1)
                                &&& dims_ok(cells(&possible_moves@[i].sim_grid), w, h)
                                &&& possible_moves@[i].cleared_lines <= h
                            } by {
                                if i < old_len {
                                    if i < before.len() {
                                        assert((before + xs2.map_values(|x: int| (k, x)))[i] == before[i]);
                                        assert((before + xs.map_values(|x: int| (k, x)))[i] == before[i]);
                                    } else {
                                        assert(xs2[i - before.len()] == xs[i - before.len()]);
                                        assert((before + xs2.map_values(|x: int| (k, x)))[i] == xs2.map_values(|x: int| (k, x))[i - before.len()]);
                                        assert((before + xs.map_values(|x: int| (k, x)))[i] == xs.map_values(|x: int| (k, x))[i - before.len()]);
                                    }
                                } else {
                                    assert(xs2 == xs.push((x - 1) as int));
                                    assert(xs2[i - before.len()] == (x - 1) as int);
                                    assert((before + xs2.map_values(|x: int| (k, x)))[i] == xs2.map_values(|x: int| (k, x))[i - before.len()]);
                                }
                            }
                        }
                    }
                    proof {
                        let n: nat = if end_x > start_x { (end_x - start_x) as nat } else { 0 };
                        assert(turn_xs(g, w, h, s0, id, k) == fitting_xs(g, w, h, s, start_x as int, n));
                        assert(candidates(g, w, h, s0, id, k + 1) == before + fitting_xs(g, w, h, s, start_x as int, n).map_values(|x: int| (k, x)));
                    }
                } else {
                    proof {
                        assert(turn_xs(g, w, h, s0, id, k) =~= Seq::empty());
                        assert(candidates(g, w, h, s0, id, k + 1) =~= before);
                    }
                }
            } else {
                proof {
                    assert(turn_xs(g, w, h, s0, id, k) =~= Seq::empty());
                    assert(candidates(g, w, h, s0, id, k + 1) =~= before);
                }
            }
            let ghost prev = test_piece.shape;
            test_piece.rotate();
            proof {
                assert(is_rotation_of(test_piece.shape, prev, id));
                lemma_rotation_unique(turned(prev, id), test_piece.shape, prev, id);
                assert(test_piece.shape == turn_n(s0, id, k + 1));
            }
            rot += 1;
            proof {
                assert(seen_shapes@ == seen_before || seen_shapes@ == seen_before.push(s));
                assert forall|e: Shape| #[trigger] seen_shapes@.contains(e) implies exists|j: nat| j < rot && e == turn_n(s0, id, j) by {
                    let idx = choose|idx: int| 0 <= idx < seen_shapes@.len() && seen_shapes@[idx] == e;
                    if idx < seen_before.len() {
                        assert(seen_before[idx] == e);
                        assert(seen_before.contains(e));
                    } else {
                        assert(e == turn_n(s0, id, k));
                    }
                }
                assert forall|j: nat| j < rot implies seen_shapes@.contains(#[trigger] turn_n(s0, id, j)) by {
                    if j < k {
                        assert(seen_before.contains(turn_n(s0, id, j)));
                        let idx = choose|idx: int| 0 <= idx < seen_before.len() && seen_before[idx] == turn_n(s0, id, j);
                        assert(seen_shapes@[idx] == turn_n(s0, id, j));
                    } else if !listed {
                        assert(seen_shapes@[seen_shapes@.len() - 1] == s);
                    }
                }
            }
        }
        possible_moves
    }
}

/// The values of the placements of `p2` on the board `g1`, each counting the lines
/// `c1` cleared before it together with its own.
pub open spec fn reply_values(g1: Seq<Seq<u8>>, c1: int, w: int, h: int, p2: Piece) -> Seq<int> {
    all_candidates(g1, w, h, p2.shape, p2.shape_id).map_values(
        |c: (nat, int)|
            board_score(
                placed_grid(g1, w, h, turn_n(p2.shape, p2.shape_id, c.0), p2.shape_id, c.1),
                c1 + placed_cleared(g1, w, h, turn_n(p2.shape, p2.shape_id, c.0), p2.shape_id, c.1),
            ),
    )
}

/// The largest value of `v`, `None` when `v` is empty.
pub open spec fn seq_max(v: Seq<int>) -> Option<int>
    decreases v.len(),
{
    if v.len() == 0 {
        None
    } else {
        match seq_max(v.drop_last()) {
            None => Some(v.last()),
            Some(a) => Some(if v.last() > a { v.last() } else { a }),
        }
    }
}

/// The value of the best placement of `p2` on the board `g1`, counting the lines `c1`
/// cleared to reach it; `None` when `p2` fits nowhere.
pub open spec fn best_reply(g1: Seq<Seq<u8>>, c1: int, w: int, h: int, p2: Piece) -> Option<int> {
    seq_max(reply_values(g1, c1, w, h, p2))
}

/// An optional `i64` as an optional integer.
pub open spec fn opt_int(o: Option<i64>) -> Option<int> {
    match o {
        Some(v) => Some(v as int),
        None => None,
    }
}

/// The two-ply value of `m`: the best reply of `next` on the board `m` leaves.
pub open spec fn reply_value(m: Move, next: Piece, w: int, h: int) -> Option<int> {
    best_reply(cells(&m.sim_grid), m.cleared_lines as int, w, h, next)
}

/// `new` is `old` with its two-ply value against `next` filled in.
pub open spec fn scored(new: Move, old: Move, next: Piece, w: int, h: int) -> bool {
    &&& new == (Move { score: new.score, ..old })
    &&& opt_int(new.score) == reply_value(old, next, w, h)
}

/// `m` leaves a board of the right size and clears no more lines than it has rows.
pub open spec fn reply_ok(m: Move, w: int, h: int) -> bool {
    &&& dims_ok(cells(&m.sim_grid), w, h)
    &&& m.cleared_lines <= h
}

/// `rayon`'s `par_iter_mut().for_each` over `moves`, each item handed to
/// `AIBot::score_reply`: the crate calls the closure once on every item, possibly on
/// several threads, and keeps the items in place, so each item ends up as that
/// function leaves it.
#[verifier::external_body]
fn score_replies_in_parallel(moves: &mut Vec<Move>, next: &Piece, width: usize, height: usize)
    requires
        width <= i32::MAX,
        height <= i32::MAX,
        width * height <= i32::MAX,
        forall|i: int| 0 <= i < old(moves)@.len() ==> reply_ok(#[trigger] old(moves)@[i], width as int, height as int),
    ensures
        final(moves)@.len() == old(moves)@.len(),
        forall|i: int|
            0 <= i < old(moves)@.len() ==> scored(#[trigger] final(moves)@[i], old(moves)@[i], *next, width as int, height as int),
{
    moves.par_iter_mut().for_each(|m1| AIBot::score_reply(m1, next, width, height));
}

/// The `i`-th placement of the falling piece of `e`.
pub open spec fn ply1_candidate(e: &TetrisEngine, i: int) -> (nat, int) {
    all_candidates(e.board(), e.width as int, e.height as int, e.current_piece.shape, e.current_piece.shape_id)[i]
}

/// The board that the `i`-th placement of the falling piece leaves.
pub open spec fn ply1_grid(e: &TetrisEngine, i: int) -> Seq<Seq<u8>> {
    let c = ply1_candidate(e, i);
    placed_grid(e.board(), e.width as int, e.height as int, turn_n(e.current_piece.shape, e.current_piece.shape_id, c.0), e.current_piece.shape_id, c.1)
}

/// The lines that the `i`-th placement of the falling piece clears.
pub open spec fn ply1_cleared(e: &TetrisEngine, i: int) -> int {
    let c = ply1_candidate(e, i);
    placed_cleared(e.board(), e.width as int, e.height as int, turn_n(e.current_piece.shape, e.current_piece.shape_id, c.0), e.current_piece.shape_id, c.1) as int
}

/// The one-ply value of the `i`-th placement of the falling piece.
pub open spec fn one_ply(e: &TetrisEngine, i: int) -> int {
    board_score(ply1_grid(e, i), ply1_cleared(e, i))
}

/// The two-ply value of the `i`-th placement of the falling piece: the best value
/// the preview piece can reach after it, `None` when the preview piece fits nowhere.
pub open spec fn two_ply(e: &TetrisEngine, i: int) -> Option<int> {
    best_reply(ply1_grid(e, i), ply1_cleared(e, i), e.width as int, e.height as int, e.next_piece)
}

/// `v[i]` holds a value, no value of `v` is larger, and every value before it is
/// smaller: `i` is the first position of the largest value.
pub open spec fn first_max_opt(v: Seq<Option<int>>, i: int) -> bool {
    &&& 0 <= i < v.len()
    &&& v[i] is Some
    &&& forall|j: int| 0 <= j < v.len() && (#[trigger] v[j]) is Some ==> v[j]->0 <= v[i]->0
    &&& forall|j: int| 0 <= j < i && (#[trigger] v[j]) is Some ==> v[j]->0 < v[i]->0
}

/// `i` is the first position of the largest value of `v`.
pub open spec fn first_max(v: Seq<int>, i: int) -> bool {
    &&& 0 <= i < v.len()
    &&& forall|j: int| 0 <= j < v.len() ==> #[trigger] v[j] <= v[i]
    &&& forall|j: int| 0 <= j < i ==> #[trigger] v[j] < v[i]
}

/// The number of placements of the falling piece of `e`.
pub open spec fn ply1_count(e: &TetrisEngine) -> nat {
    all_candidates(e.board(), e.width as int, e.height as int, e.current_piece.shape, e.current_piece.shape_id).len()
}

/// The two-ply values of the placements of the falling piece, in order.
pub open spec fn two_ply_values(e: &TetrisEngine) -> Seq<Option<int>> {
    Seq::new(ply1_count(e), |j: int| two_ply(e, j))
}

/// The one-ply values of the placements of the falling piece, in order.
pub open spec fn one_ply_values(e: &TetrisEngine) -> Seq<int> {
    Seq::new(ply1_count(e), |j: int| one_ply(e, j))
}

/// The `i`-th placement is the first of those with the best two-ply value, or, when
/// no placement has a two-ply value, the first of those with the best one-ply value.
pub open spec fn is_first_best(e: &TetrisEngine, i: int) -> bool {
    if exists|j: int| 0 <= j < ply1_count(e) && (#[trigger] two_ply(e, j)) is Some {
        first_max_opt(two_ply_values(e), i)
    } else {
        first_max(one_ply_values(e), i)
    }
}

/// The first position of the largest two-ply value among `moves`, `None` when none of
/// them has one.
pub fn pick_best_two_ply(moves: &Vec<Move>) -> (best: Option<usize>)
    ensures
        best is None <==> forall|j: int| 0 <= j < moves@.len() ==> (#[trigger] moves@[j]).score is None,
        best matches Some(i) ==> first_max_opt(moves@.map_values(|m: Move| opt_int(m.score)), i as int),
{
    let ghost v = moves@.map_values(|m: Move| opt_int(m.score));
    let mut found = false;
    let mut best_score: i64 = 0;
    let mut best_idx: usize = 0;
    let mut i: usize = 0;
    while i < moves.len()
        invariant
            v == moves@.map_values(|m: Move| opt_int(m.score)),
            i <= moves@.len(),
            !found <==> forall|j: int| 0 <= j < i ==> (#[trigger] moves@[j]).score is None,
            found ==> best_idx < i && v[best_idx as int] == Some(best_score as int),
            found ==> forall|j: int| 0 <= j < i && (#[trigger] v[j]) is Some ==> v[j]->0 <= best_score,
            found ==> forall|j: int| 0 <= j < best_idx && (#[trigger] v[j]) is Some ==> v[j]->0 < best_score,
        decreases moves@.len() - i,
    {
        assert(v[i as int] == opt_int(moves@[i as int].score));
        match moves[i].score {
            Some(s) => {
                if !found || s > best_score {
                    found = true;
                    best_score = s;
                    best_idx = i;
                }
            },
            None => {},
        }
        i += 1;
    }
    if found {
        assert forall|j: int| 0 <= j < v.len() && (#[trigger] v[j]) is Some implies v[j]->0 <= v[best_idx as int]->0 by {}
        Some(best_idx)
    } else {
        None
    }
}

/// The first position of the largest one-ply value among `moves`.
pub fn pick_best_one_ply(moves: &Vec<Move>) -> (best: usize)
    requires
        moves@.len() > 0,
    ensures
        first_max(moves@.map_values(|m: Move| m.ply1_score as int), best as int),
{
    let ghost v = moves@.map_values(|m: Move| m.ply1_score as int);
    let mut best_ply1: i64 = moves[0].ply1_score;
    let mut best_idx: usize = 0;
    let mut i: usize = 1;
    assert(v[0] == moves@[0].ply1_score);
    while i < moves.len()
        invariant
            v == moves@.map_values(|m: Move| m.ply1_score as int),
            1 <= i <= moves@.len(),
            best_idx < i,
            best_ply1 == v[best_idx as int],
            forall|j: int| 0 <= j < i ==> #[trigger] v[j] <= best_ply1,
            forall|j: int| 0 <= j < best_idx ==> #[trigger] v[j] < best_ply1,
        decreases moves@.len() - i,
    {
        assert(v[i as int] == moves@[i as int].ply1_score);
        if moves[i].ply1_score > best_ply1 {
            best_ply1 = moves[i].ply1_score;
            best_idx = i;
        }
        i += 1;
    }
    best_idx
}

/// `m` is the `i`-th placement of the falling piece of `e`, with its two-ply value.
pub open spec fn is_scored_placement(e: &TetrisEngine, m: Move, i: int) -> bool {
    let c = ply1_candidate(e, i);
    &&& is_placement(Move { score: None, ..m }, e.board(), e.width as int, e.height as int, e.current_piece.shape, e.current_piece.shape_id, c.0, c.1)
    &&& opt_int(m.score) == two_ply(e, i)
}

/// `best` is what the search returns for `e`: nothing when the falling piece fits
/// nowhere, else the first placement with the best two-ply value (or, when no
/// placement has one, with the best one-ply value), scored.
pub open spec fn is_best_move(e: &TetrisEngine, best: Option<Move>) -> bool {
    &&& best is None <==> ply1_count(e) == 0
    &&& best matches Some(m) ==> exists|i: int|
        0 <= i < ply1_count(e) && #[trigger] is_first_best(e, i) && is_scored_placement(e, m, i)
}

/// The two-ply placement search.
pub struct AIBot;

impl AIBot {
    /// Scores `m1` against the preview piece `next`: the best value over the placements
    /// of `next` on the board `m1` leaves, counting the lines of both; `None` when
    /// `next` fits nowhere there.
    pub fn score_reply(m1: &mut Move, next: &Piece, width: usize, height: usize)
        requires
            width <= i32::MAX,
            height <= i32::MAX,
            width * height <= i32::MAX,
            reply_ok(*old(m1), width as int, height as int),
        ensures
            scored(*final(m1), *old(m1), *next, width as int, height as int),
    {
        let ghost g1 = cells(&m1.sim_grid);
        let ghost w = width as int;
        let ghost h = height as int;
        let ghost vals = reply_values(g1, m1.cleared_lines as int, w, h, *next);
        let moves_ply2 = MoveGenerator::get_possible_moves(next, width, height, &m1.sim_grid);
        if moves_ply2.len() == 0 {
            m1.score = None;
            return ;
        }
        let mut best: Option<i64> = None;
        let mut i: usize = 0;
        while i < moves_ply2.len()
            invariant
                g1 == cells(&m1.sim_grid),
                w == width,
                h == height,
                width <= i32::MAX,
                height <= i32::MAX,
                width * height <= i32::MAX,
                m1.cleared_lines <= h,
                vals == reply_values(g1, m1.cleared_lines as int, w, h, *next),
                moves_ply2@.len() == vals.len(),
                moves_ply2@.len() > 0 ==> width >= 1 && height >= 1,
                forall|j: int|
                    0 <= j < moves_ply2@.len() ==> {
                        let c = all_candidates(g1, w, h, next.shape, next.shape_id)[j];
                        &&& is_placement(#[trigger] moves_ply2@[j], g1, w, h, next.shape, next.shape_id, c.0, c.1)
                        &&& dims_ok(cells(&moves_ply2@[j].sim_grid), w, h)
                        &&& moves_ply2@[j].cleared_lines <= h
                    },
                i <= moves_ply2@.len(),
                opt_int(best) == seq_max(vals.take(i as int)),
            decreases moves_ply2@.len() - i,
        {
            let m2 = &moves_ply2[i];
            proof {
                assert(cells(&m2.sim_grid).len() == h);
                assert(cells(&m2.sim_grid)[0].len() == w);
                assert(h * w == w * h) by (nonlinear_arith);
            }
            let eval_score = Evaluator::evaluate(&m2.sim_grid, m1.cleared_lines + m2.cleared_lines);
            proof {
                assert(vals[i as int] == eval_score);
                assert(vals.take(i + 1).drop_last() =~= vals.take(i as int));
                assert(vals.take(i + 1).last() == vals[i as int]);
            }
            match best {
                Some(b) => {
                    if eval_score > b {
                        best = Some(eval_score);
                    }
                },
                None => {
                    best = Some(eval_score);
                },
            }
            i += 1;
        }
        proof {
            assert(vals.take(vals.len() as int) =~= vals);
        }
        m1.score = best;
    }

    /// The placement of the falling piece with the best two-ply value, the first one
    /// on ties; when the preview piece fits after none of them, the placement with the
    /// best one-ply value, again the first on ties; `None` when the falling piece fits
    /// nowhere.
    pub fn get_best_move(engine: &TetrisEngine) -> (best: Option<Move>)
        requires
            engine.grid_wf(),
            engine.width * engine.height <= i32::MAX,
        ensures
            is_best_move(engine, best),
    {
        let current_piece = &engine.current_piece;
        let next_piece = &engine.next_piece;
        let width = engine.width;
        let height = engine.height;
        let base_grid = &engine.grid;
        let ghost g = engine.board();
        let ghost w = width as int;
        let ghost h = height as int;
        let ghost cands = all_candidates(g, w, h, current_piece.shape, current_piece.shape_id);

        let mut moves_ply1 = MoveGenerator::get_possible_moves(current_piece, width, height, base_grid);
        if moves_ply1.len() == 0 {
            return None;
        }
        let ghost unscored = moves_ply1@;
        score_replies_in_parallel(&mut moves_ply1, next_piece, width, height);
        let n = moves_ply1.len();
        proof {
            assert forall|j: int| 0 <= j < n implies {
                &&& opt_int((#[trigger] moves_ply1@[j]).score) == two_ply(engine, j)
                &&& moves_ply1@[j].ply1_score == one_ply(engine, j)
                &&& is_placement(Move { score: None, ..moves_ply1@[j] }, g, w, h, current_piece.shape, current_piece.shape_id, cands[j].0, cands[j].1)
            } by {
                assert(unscored[j] == Move { score: None, ..moves_ply1@[j] });
            }
        }

        let best_idx: usize = match pick_best_two_ply(&moves_ply1) {
            Some(i) => i,
            None => pick_best_one_ply(&moves_ply1),
        };
        proof {
            assert(moves_ply1@.map_values(|m: Move| opt_int(m.score)) =~= two_ply_values(engine));
            assert(moves_ply1@.map_values(|m: Move| m.ply1_score as int) =~= one_ply_values(engine));
            if exists|j: int| 0 <= j < ply1_count(engine) && (#[trigger] two_ply(engine, j)) is Some {
                let j = choose|j: int| 0 <= j < ply1_count(engine) && (#[trigger] two_ply(engine, j)) is Some;
                assert(moves_ply1@[j].score is Some);
            } else {
                assert forall|j: int| 0 <= j < moves_ply1@.len() implies (#[trigger] moves_ply1@[j]).score is None by {
                    assert(two_ply(engine, j) is None);
                }
            }
        }
        let ghost chosen = moves_ply1@[best_idx as int];
        let m = moves_ply1.swap_remove(best_idx);
        proof {
            assert(m == chosen);
            assert(is_first_best(engine, best_idx as int));
        }
        Some(m)
    }
}

/// Every column listed by `fitting_xs` is one where the shape fits in the top row.
pub proof fn lemma_fitting_xs_fit(g: Seq<Seq<u8>>, w: int, h: int, s: Shape, lo: int, n: nat)
    ensures
        forall|i: int| 0 <= i < fitting_xs(g, w, h, s, lo, n).len() ==> fits(g, w, h, s, #[trigger] fitting_xs(g, w, h, s, lo, n)[i], 0),
    decreases n,
{
    if n > 0 {
        let prev = fitting_xs(g, w, h, s, lo, (n - 1) as nat);
        lemma_fitting_xs_fit(g, w, h, s, lo, (n - 1) as nat);
        assert forall|i: int| 0 <= i < fitting_xs(g, w, h, s, lo, n).len() implies fits(g, w, h, s, #[trigger] fitting_xs(g, w, h, s, lo, n)[i], 0) by {
            if i < prev.len() {
                assert(fitting_xs(g, w, h, s, lo, n)[i] == prev[i]);
            }
        }
    }
}

/// Every candidate placement is of a turn with a block, in a column where that turn
/// fits in the top row.
pub proof fn lemma_candidates_fit(g: Seq<Seq<u8>>, w: int, h: int, s0: Shape, id: u8, k: nat)
    ensures
        forall|i: int|
            0 <= i < candidates(g, w, h, s0, id, k).len() ==> {
                let c = #[trigger] candidates(g, w, h, s0, id, k)[i];
                &&& has_block(turn_n(s0, id, c.0))
                &&& fits(g, w, h, turn_n(s0, id, c.0), c.1, 0)
            },
    decreases k,
{
    if k > 0 {
        let k1 = (k - 1) as nat;
        lemma_candidates_fit(g, w, h, s0, id, k1);
        let prev = candidates(g, w, h, s0, id, k1);
        let xs = turn_xs(g, w, h, s0, id, k1);
        let s = turn_n(s0, id, k1);
        if is_new_turn(s0, id, k1) && min_col(s) <= max_col(s) {
            lemma_span_has_block(s);
            let lo = -min_col(s);
            let hi = w - max_col(s);
            lemma_fitting_xs_fit(g, w, h, s, lo, if hi > lo { (hi - lo) as nat } else { 0 });
        }
        assert forall|i: int| 0 <= i < candidates(g, w, h, s0, id, k).len() implies {
            let c = #[trigger] candidates(g, w, h, s0, id, k)[i];
            &&& has_block(turn_n(s0, id, c.0))
            &&& fits(g, w, h, turn_n(s0, id, c.0), c.1, 0)
        } by {
            if i < prev.len() {
                assert(candidates(g, w, h, s0, id, k)[i] == prev[i]);
            } else {
                assert(candidates(g, w, h, s0, id, k)[i] == (k1, xs[i - prev.len()]));
            }
        }
    }
}

/// Every placement the generator lists rests where it lands: the turned shape fits on
/// its landing row and would collide one row lower.
pub proof fn lemma_placement_rests(g: Seq<Seq<u8>>, w: int, h: int, s0: Shape, id: u8, i: int)
    requires
        0 <= i < all_candidates(g, w, h, s0, id).len(),
    ensures
        ({
            let c = all_candidates(g, w, h, s0, id)[i];
            let s = turn_n(s0, id, c.0);
            &&& fits(g, w, h, s, c.1, landing_row(g, w, h, s, c.1, 0))
            &&& !fits(g, w, h, s, c.1, landing_row(g, w, h, s, c.1, 0) + 1)
        }),
{
    lemma_candidates_fit(g, w, h, s0, id, 4);
    let c = all_candidates(g, w, h, s0, id)[i];
    crate::grid::lemma_landing_rests(g, w, h, turn_n(s0, id, c.0), c.1, 0);
}

/// What one step of the autopilot did.
#[derive(Clone, Copy, Debug, PartialEq, Eq, Structural)]
pub enum AiStep {
    Turned,
    Shifted,
    Dropped,
    Waited,
}

/// One autopilot step toward `target` can run: a shift that succeeds stays within
/// `i32`, and a hard drop (in fast mode, once shape and column match) ends in bounds.
pub open spec fn ai_step_ok(e: &TetrisEngine, target: Move, fast: bool) -> bool {
    let p = e.current_piece;
    if p.shape != target.shape {
        true
    } else if p.x < target.x {
        e.move_ok(1, 0)
    } else if p.x > target.x {
        e.move_ok(-1, 0)
    } else if fast {
        e.drop_ok()
    } else {
        true
    }
}

/// `new` and `step` are what one autopilot step toward `target` makes of `old`: turn
/// while the shape differs from the target's, then shift one column toward the
/// target's column, then, in fast mode, drop the piece and lock it; otherwise wait.
pub open spec fn ai_step_result(old: &TetrisEngine, new: &TetrisEngine, target: Move, fast: bool, step: AiStep) -> bool {
    let p = old.current_piece;
    if p.shape != target.shape {
        step == AiStep::Turned && TetrisEngine::rotate_result(old, new)
    } else if p.x < target.x {
        step == AiStep::Shifted && TetrisEngine::move_result(old, new, 1, 0, new.current_piece.x != p.x)
    } else if p.x > target.x {
        step == AiStep::Shifted && TetrisEngine::move_result(old, new, -1, 0, new.current_piece.x != p.x)
    } else if fast {
        step == AiStep::Dropped && TetrisEngine::drop_result(old, new)
    } else {
        step == AiStep::Waited && new.same_state(old)
    }
}

impl TetrisEngine {
    /// One step of the autopilot toward the placement `target`: turns the piece while
    /// its shape differs from the target's, then shifts it one column toward the
    /// target's column, then, in fast mode, drops it; in slow mode it waits for the
    /// piece to fall on its own.
    pub fn ai_step(&mut self, target: &Move, fast: bool) -> (step: AiStep)
        requires
            old(self).grid_wf(),
            ai_step_ok(old(self), *target, fast),
        ensures
            ai_step_result(old(self), final(self), *target, fast, step),
            old(self).wf() ==> final(self).wf(),
    {
        if !same_shape(&self.current_piece.shape, &target.shape) {
            self.rotate_piece();
            AiStep::Turned
        } else if self.current_piece.x < target.x {
            self.move_piece(1, 0);
            AiStep::Shifted
        } else if self.current_piece.x > target.x {
            self.move_piece(-1, 0);
            AiStep::Shifted
        } else if fast {
            self.hard_drop();
            AiStep::Dropped
        } else {
            AiStep::Waited
        }
    }
}

/// In a game in order whose counters can take a four-line clear, every autopilot step
/// can run.
pub proof fn lemma_ai_step_ok(e: &TetrisEngine, target: Move, fast: bool)
    requires
        e.wf(),
        e.counters_room(),
    ensures
        ai_step_ok(e, target, fast),
{
    crate::board::lemma_wf_room_can_lock(e, 1, 0);
    crate::board::lemma_wf_room_can_lock(e, -1, 0);
}

/// Only one placement is the first best.
pub proof fn lemma_first_best_unique(e: &TetrisEngine, i: int, j: int)
    requires
        0 <= i < ply1_count(e),
        0 <= j < ply1_count(e),
        is_first_best(e, i),
        is_first_best(e, j),
    ensures
        i == j,
{
    let v = two_ply_values(e);
    let u = one_ply_values(e);
    if exists|k: int| 0 <= k < ply1_count(e) && (#[trigger] two_ply(e, k)) is Some {
        assert(v[i] == two_ply(e, i) && v[j] == two_ply(e, j));
    } else {
        assert(u[i] == one_ply(e, i) && u[j] == one_ply(e, j));
    }
}

/// The search is a function of the game: whatever order the second ply runs in, any
/// two results for the same game are the same placement with the same values.
pub proof fn lemma_best_move_unique(e: &TetrisEngine, b1: Option<Move>, b2: Option<Move>)
    requires
        is_best_move(e, b1),
        is_best_move(e, b2),
    ensures
        b1 is None <==> b2 is None,
        b1 matches Some(m1) ==> b2 matches Some(m2) && {
            &&& m1.rotation == m2.rotation
            &&& m1.x == m2.x
            &&& m1.drop_y == m2.drop_y
            &&& m1.shape == m2.shape
            &&& m1.score == m2.score
            &&& m1.ply1_score == m2.ply1_score
            &&& cells(&m1.sim_grid) == cells(&m2.sim_grid)
            &&& m1.cleared_lines == m2.cleared_lines
        },
{
    if let Some(m1) = b1 {
        let m2 = b2->0;
        let i = choose|i: int| 0 <= i < ply1_count(e) && #[trigger] is_first_best(e, i) && is_scored_placement(e, m1, i);
        let j = choose|j: int| 0 <= j < ply1_count(e) && #[trigger] is_first_best(e, j) && is_scored_placement(e, m2, j);
        lemma_first_best_unique(e, i, j);
        assert(Move { score: None, ..m1 }.rotation == m1.rotation);
        match (m1.score, m2.score) {
            (Some(a), Some(b)) => {
                assert(opt_int(m1.score) == opt_int(m2.score));
            },
            _ => {},
        }
    }
}

/// Scoring the second ply item by item gives one result whatever order the items are
/// scored in: any two scorings of the same placements agree.
pub proof fn lemma_scoring_unique(a: Seq<Move>, b: Seq<Move>, start: Seq<Move>, next: Piece, w: int, h: int)
    requires
        a.len() == start.len(),
        b.len() == start.len(),
        forall|i: int| 0 <= i < start.len() ==> scored(#[trigger] a[i], start[i], next, w, h),
        forall|i: int| 0 <= i < start.len() ==> scored(#[trigger] b[i], start[i], next, w, h),
    ensures
        a == b,
{
    assert forall|i: int| 0 <= i < start.len() implies #[trigger] a[i] == b[i] by {
        assert(scored(a[i], start[i], next, w, h));
        assert(scored(b[i], start[i], next, w, h));
        match (a[i].score, b[i].score) {
            (Some(x), Some(y)) => {
                assert(opt_int(a[i].score) == opt_int(b[i].score));
            },
            _ => {},
        }
    }
    assert(a =~= b);
}

/// The board the falling piece of `e` leaves when dropped straight down from where it
/// stands and written in, before its full rows are cleared.
pub open spec fn landed_board(e: &TetrisEngine) -> Seq<Seq<u8>> {
    let l = e.landed_piece();
    locked_grid(e.board(), l.shape, l.shape_id, l.x as int, l.y as int)
}

/// The features and value of the board that dropping the falling piece straight down
/// from where it stands, writing it in and clearing the full rows would leave, counting
/// the lines it clears; `None` when the piece collides where it stands.
pub fn landing_details(e: &TetrisEngine) -> (d: Option<EvalDetails>)
    requires
        e.grid_wf(),
        e.width * e.height <= i32::MAX,
        e.fits_at(e.current_piece.shape, e.current_piece.x as int, e.current_piece.y as int) ==> has_block(e.current_piece.shape) && e.height >= 1,
    ensures
        d is Some <==> e.fits_at(e.current_piece.shape, e.current_piece.x as int, e.current_piece.y as int),
        d matches Some(v) ==> {
            let l = landed_board(e);
            let g = cleared_grid(l, e.width as nat);
            &&& v.agg_height == agg_height(g)
            &&& v.holes == holes(g)
            &&& v.bumpiness == bumpiness(g)
            &&& v.cleared_lines == full_count(l)
            &&& v.score == board_score(g, full_count(l) as int)
        },
{
    let ghost b = e.board();
    let ghost w = e.width as int;
    let ghost h = e.height as int;
    let p = e.current_piece;
    let mut sim = Simulator::new(e.width, e.height, &e.grid);
    if !sim.is_valid_position(&p, p.x, p.y) {
        return None;
    }
    let drop_y = sim.drop_piece(&p, p.x, p.y);
    proof {
        assert(sim.board() == b);
        if drop_y > p.y {
            assert(fits(b, w, h, p.shape, p.x as int, drop_y as int));
        }
        assert(fits(b, w, h, p.shape, p.x as int, drop_y as int));
        lemma_fits_lockable(b, w, h, p.shape, p.x as int, drop_y as int);
        let (r0, c0) = choose|r: int, c: int| 0 <= r < 4 && 0 <= c < 4 && #[trigger] p.shape[r][c] != 0;
        assert(crate::grid::cell_free(b, w, h, p.x + c0, drop_y + r0));
    }
    sim.lock_piece(&p, p.x, drop_y);
    let cleared = sim.clear_lines();
    proof {
        lemma_cleared_grid_shape(landed_board(e), w as nat, h);
        assert(cells(&sim.grid).len() == h);
        assert(cells(&sim.grid)[0].len() == w);
        assert(h * w == w * h) by (nonlinear_arith);
    }
    Some(Evaluator::evaluate_details(&sim.grid, cleared))
}

} // verus!
