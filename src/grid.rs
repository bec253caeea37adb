//! The grid of slots, its view as rows of grains, and the grain count.
use vstd::prelude::*;
use crate::grain::{Grain, Rgba};

verus! {

/// The sand grid, indexed `[row][col]`; row 0 is the top, the last row the floor.
pub type SandGrid = Vec<Vec<Grain>>;

/// The grid as a sequence of rows of grains.
pub open spec fn cells(sand: &SandGrid) -> Seq<Seq<Grain>> {
    Seq::new(sand@.len(), |i: int| sand@[i]@)
}

/// Every row has `cols` grains.
pub open spec fn rectangular(g: Seq<Seq<Grain>>, cols: int) -> bool {
    forall|i: int| 0 <= i < g.len() ==> #[trigger] g[i].len() == cols
}

/// The number of columns of a grid (that of its first row).
pub open spec fn width(g: Seq<Seq<Grain>>) -> int {
    if g.len() == 0 { 0 } else { g[0].len() as int }
}

/// A grid that the update rule accepts: at least two rows, all of one length.
pub open spec fn well_formed(g: Seq<Seq<Grain>>) -> bool {
    g.len() >= 2 && rectangular(g, width(g))
}

/// `g` with the cell at `(y, x)` replaced by `c`.
pub open spec fn with_cell(g: Seq<Seq<Grain>>, y: int, x: int, c: Grain) -> Seq<Seq<Grain>> {
    g.update(y, g[y].update(x, c))
}

/// The number of full grains in a row.
pub open spec fn row_count(r: Seq<Grain>) -> nat
    decreases r.len(),
{
    if r.len() == 0 {
        0
    } else {
        row_count(r.drop_last()) + if r.last().full { 1nat } else { 0nat }
    }
}

/// The number of full grains in a grid.
pub open spec fn grid_count(g: Seq<Seq<Grain>>) -> nat
    decreases g.len(),
{
    if g.len() == 0 {
        0
    } else {
        grid_count(g.drop_last()) + row_count(g.last())
    }
}

/// 1 for a full grain, 0 for an empty slot.
pub open spec fn weight(c: Grain) -> int {
    if c.full { 1 } else { 0 }
}

/// Replacing one grain of a row changes its count by the difference of weights.
pub proof fn lemma_row_count_update(r: Seq<Grain>, x: int, c: Grain)
    requires
        0 <= x < r.len(),
    ensures
        row_count(r.update(x, c)) == row_count(r) - weight(r[x]) + weight(c),
    decreases r.len(),
{
    let u = r.update(x, c);
    if x == r.len() - 1 {
        assert(u.drop_last() =~= r.drop_last());
    } else {
        lemma_row_count_update(r.drop_last(), x, c);
        assert(u.drop_last() =~= r.drop_last().update(x, c));
    }
}

/// Replacing one cell of a grid changes its count by the difference of weights.
pub proof fn lemma_count_with_cell(g: Seq<Seq<Grain>>, y: int, x: int, c: Grain)
    requires
        0 <= y < g.len(),
        0 <= x < g[y].len(),
    ensures
        grid_count(with_cell(g, y, x, c)) == grid_count(g) - weight(g[y][x]) + weight(c),
    decreases g.len(),
{
    let u = with_cell(g, y, x, c);
    lemma_row_count_update(g[y], x, c);
    if y == g.len() - 1 {
        assert(u.drop_last() =~= g.drop_last());
    } else {
        lemma_count_with_cell(g.drop_last(), y, x, c);
        assert(u.drop_last() =~= with_cell(g.drop_last(), y, x, c));
    }
}

/// Replacing one cell keeps the grid's shape.
pub proof fn lemma_with_cell_shape(g: Seq<Seq<Grain>>, cols: int, y: int, x: int, c: Grain)
    requires
        rectangular(g, cols),
        0 <= y < g.len(),
        0 <= x < cols,
    ensures
        with_cell(g, y, x, c).len() == g.len(),
        rectangular(with_cell(g, y, x, c), cols),
        with_cell(g, y, x, c)[y][x] == c,
{
    let u = with_cell(g, y, x, c);
    assert forall|i: int| 0 <= i < u.len() implies #[trigger] u[i].len() == cols by {
        if i != y {
            assert(u[i] == g[i]);
        }
    }
}

/// The cell at `(y, x)`.
pub fn get_cell(sand: &SandGrid, y: usize, x: usize) -> (c: Grain)
    requires
        y < cells(sand).len(),
        x < cells(sand)[y as int].len(),
    ensures
        c == cells(sand)[y as int][x as int],
{
    sand[y][x]
}

/// Writes `c` into the cell at `(y, x)`.
pub fn set_cell(sand: &mut SandGrid, y: usize, x: usize, c: Grain)
    requires
        y < cells(old(sand)).len(),
        x < cells(old(sand))[y as int].len(),
    ensures
        cells(final(sand)) == with_cell(cells(old(sand)), y as int, x as int, c),
{
    sand[y][x] = c;
    assert(cells(sand) =~= with_cell(cells(old(sand)), y as int, x as int, c));
}

/// A row holds no more grains than slots.
pub proof fn lemma_row_count_bound(r: Seq<Grain>)
    ensures
        row_count(r) <= r.len(),
    decreases r.len(),
{
    if r.len() > 0 {
        lemma_row_count_bound(r.drop_last());
    }
}

/// The number of full grains of a grid; the grid must be rectangular, with a
/// number of slots that fits in `usize`.
pub fn get_count(sand: &SandGrid) -> (n: usize)
    requires
        rectangular(cells(sand), width(cells(sand))),
        cells(sand).len() * width(cells(sand)) <= usize::MAX,
    ensures
        n == grid_count(cells(sand)),
{
    let ghost g = cells(sand);
    let ghost cols = width(g);
    let rows = sand.len();
    let mut total: usize = 0;
    let mut y: usize = 0;
    while y < rows
        invariant
            g == cells(sand),
            cols == width(g),
            rectangular(g, cols),
            rows == g.len(),
            rows * cols <= usize::MAX,
            y <= rows,
            total == grid_count(g.take(y as int)),
            total <= y * cols,
        decreases rows - y,
    {
        let row = &sand[y];
        assert(row@ == g[y as int]);
        let mut k: usize = 0;
        let mut x: usize = 0;
        while x < row.len()
            invariant
                x <= row@.len(),
                k == row_count(row@.take(x as int)),
                k <= x,
            decreases row@.len() - x,
        {
            assert(row@.take(x + 1).drop_last() =~= row@.take(x as int));
            if row[x].full {
                k = k + 1;
            }
            x = x + 1;
        }
        assert(row@.take(x as int) =~= row@);
        assert(g.take(y + 1).drop_last() =~= g.take(y as int));
        assert(k <= cols);
        assert((y + 1) * cols <= rows * cols) by (nonlinear_arith)
            requires
                y + 1 <= rows,
                cols >= 0,
        ;
        assert(y * cols + cols == (y + 1) * cols) by (nonlinear_arith);
        total = total + k;
        y = y + 1;
    }
    assert(g.take(rows as int) =~= g);
    total
}

/// Sets the first `grid_shape.0` rows and `grid_shape.1` columns to empty
/// white slots.
pub fn init_sand(sand: &mut SandGrid, grid_shape: &(usize, usize))
    requires
        grid_shape.0 <= cells(old(sand)).len(),
        forall|y: int| 0 <= y < grid_shape.0 ==> grid_shape.1 <= #[trigger] cells(old(sand))[y].len(),
    ensures
        cells(final(sand)).len() == cells(old(sand)).len(),
        forall|y: int|
            0 <= y < cells(old(sand)).len() ==> (#[trigger] cells(final(sand))[y]).len() == cells(
                old(sand),
            )[y].len(),
        forall|y: int, x: int|
            0 <= y < cells(old(sand)).len() && 0 <= x < cells(old(sand))[y].len() ==> #[trigger] cells(
                final(sand),
            )[y][x] == if y < grid_shape.0 && x < grid_shape.1 {
                Grain { color: Rgba::white_spec(), full: false }
            } else {
                cells(old(sand))[y][x]
            },
{
    let ghost g0 = cells(sand);
    let mut y: usize = 0;
    while y < grid_shape.0
        invariant
            y <= grid_shape.0,
            grid_shape.0 <= g0.len(),
            forall|i: int| 0 <= i < grid_shape.0 ==> grid_shape.1 <= #[trigger] g0[i].len(),
            cells(sand).len() == g0.len(),
            forall|i: int| 0 <= i < g0.len() ==> (#[trigger] cells(sand)[i]).len() == g0[i].len(),
            forall|i: int, j: int|
                0 <= i < g0.len() && 0 <= j < g0[i].len() ==> #[trigger] cells(sand)[i][j] == if i < y
                    && j < grid_shape.1 {
                    Grain { color: Rgba::white_spec(), full: false }
                } else {
                    g0[i][j]
                },
        decreases grid_shape.0 - y,
    {
        let mut x: usize = 0;
        while x < grid_shape.1
            invariant
                y < grid_shape.0,
                x <= grid_shape.1,
                grid_shape.0 <= g0.len(),
                grid_shape.1 <= g0[y as int].len(),
                cells(sand).len() == g0.len(),
                forall|i: int| 0 <= i < g0.len() ==> (#[trigger] cells(sand)[i]).len() == g0[i].len(),
                forall|i: int, j: int|
                    0 <= i < g0.len() && 0 <= j < g0[i].len() ==> #[trigger] cells(sand)[i][j] == if (i
                        < y && j < grid_shape.1) || (i == y && j < x) {
                        Grain { color: Rgba::white_spec(), full: false }
                    } else {
                        g0[i][j]
                    },
            decreases grid_shape.1 - x,
        {
            set_cell(sand, y, x, Grain::new(Rgba::white(), false));
            x = x + 1;
        }
        y = y + 1;
    }
}

} // verus!
