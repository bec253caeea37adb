//! The update rule. A tick first lets every grain just above an empty floor
//! slot drop into it, then scans the rows from the one above the floor up to
//! row 1, each left to right; at `(y, x)` the grain above either falls
//! straight, slides to a free side when `(y, x)` is taken, or stays. Scanning
//! bottom-up means no grain moves twice in one tick.
//!
//! When a grain slides, the straight fall into `(y, x)` still runs after it:
//! that slot was already full, so the only effect is that its grain takes the
//! colour of the one that slid. No grain is made or lost.
use vstd::prelude::*;
use crate::chance::chance;
use crate::grain::{Grain, Rgba};
use crate::grid::{
    SandGrid, cells, rectangular, well_formed, width, with_cell, set_cell, grid_count, weight,
    lemma_with_cell_shape, lemma_count_with_cell,
};

verus! {

/// What happens, during one pass of the scan, to the grain above the cell `(y, x)`.
#[derive(Debug, Clone, Copy, PartialEq, Eq, Structural)]
pub enum Motion {
    /// Nothing moves.
    Stay,
    /// The grain above falls straight into `(y, x)`.
    Fall,
    /// `(y, x)` is occupied; the grain goes to `(y, x - 1)`.
    SlideLeft,
    /// `(y, x)` is occupied; the grain goes to `(y, x + 1)`.
    SlideRight,
}

/// The coin flips as a sequence of rows.
pub open spec fn coin_cells(coins: &Vec<Vec<bool>>) -> Seq<Seq<bool>> {
    Seq::new(coins@.len(), |i: int| coins@[i]@)
}

/// The slot `c` after its grain has left (the colour is kept).
pub open spec fn cleared(c: Grain) -> Grain {
    Grain { color: c.color, full: false }
}

/// A full slot of colour `color`.
pub open spec fn filled(color: Rgba) -> Grain {
    Grain { color, full: true }
}

/// Columns 0, 1, `cols - 2` and `cols - 1` never let a grain slide.
pub open spec fn edge_column(x: int, cols: int) -> bool {
    x <= 1 || x + 2 >= cols
}

/// The decision taken at `(y, x)`; `coin` breaks a tie between two free sides
/// (`true` sends the grain right).
pub open spec fn motion(g: Seq<Seq<Grain>>, y: int, x: int, coin: bool) -> Motion {
    if !g[y - 1][x].full {
        Motion::Stay
    } else if !g[y][x].full {
        Motion::Fall
    } else if edge_column(x, g[y].len() as int) {
        Motion::Stay
    } else {
        let left = !g[y][x - 1].full;
        let right = !g[y][x + 1].full;
        if left && right {
            if coin { Motion::SlideRight } else { Motion::SlideLeft }
        } else if left {
            Motion::SlideLeft
        } else if right {
            Motion::SlideRight
        } else {
            Motion::Stay
        }
    }
}

/// The grain above `(y, x)` leaves its slot and `(y, x)` takes its colour, full.
pub open spec fn fall(g: Seq<Seq<Grain>>, y: int, x: int) -> Seq<Seq<Grain>> {
    let src = g[y - 1][x];
    with_cell(with_cell(g, y - 1, x, cleared(src)), y, x, filled(src.color))
}

/// One step of the scan at `(y, x)`. A slide fills the free side and then
/// still runs the straight fall, which leaves `(y, x)` full with the colour of
/// the grain that slid.
pub open spec fn scan_cell(g: Seq<Seq<Grain>>, y: int, x: int, coin: bool) -> Seq<Seq<Grain>> {
    let src = g[y - 1][x];
    match motion(g, y, x, coin) {
        Motion::Stay => g,
        Motion::Fall => fall(g, y, x),
        Motion::SlideLeft => fall(with_cell(g, y, x - 1, filled(src.color)), y, x),
        Motion::SlideRight => fall(with_cell(g, y, x + 1, filled(src.color)), y, x),
    }
}

/// The scan of row `y` after its first `n` columns, left to right.
pub open spec fn scan_row(g: Seq<Seq<Grain>>, y: int, n: int, coins: Seq<Seq<bool>>) -> Seq<
    Seq<Grain>,
>
    decreases n,
{
    if n <= 0 {
        g
    } else {
        let h = scan_row(g, y, n - 1, coins);
        scan_cell(h, y, n - 1, coins[y][n - 1])
    }
}

/// The scan of rows `y`, `y - 1`, ..., 1, in that order.
pub open spec fn scan_rows(g: Seq<Seq<Grain>>, y: int, cols: int, coins: Seq<Seq<bool>>) -> Seq<
    Seq<Grain>,
>
    decreases y,
{
    if y <= 0 {
        g
    } else {
        scan_rows(scan_row(g, y, cols, coins), y - 1, cols, coins)
    }
}

/// Floor absorption in column `x`: a grain just above an empty floor slot drops into it.
pub open spec fn absorb_column(g: Seq<Seq<Grain>>, x: int) -> Seq<Seq<Grain>> {
    let f = g.len() - 1;
    if g[f - 1][x].full && !g[f][x].full {
        with_cell(with_cell(g, f, x, g[f - 1][x]), f - 1, x, cleared(g[f - 1][x]))
    } else {
        g
    }
}

/// Floor absorption over the first `n` columns.
pub open spec fn absorb_floor(g: Seq<Seq<Grain>>, n: int) -> Seq<Seq<Grain>>
    decreases n,
{
    if n <= 0 {
        g
    } else {
        absorb_column(absorb_floor(g, n - 1), n - 1)
    }
}

/// One tick: floor absorption, then the scan from the row above the floor up to row 1.
pub open spec fn step(g: Seq<Seq<Grain>>, coins: Seq<Seq<bool>>) -> Seq<Seq<Grain>> {
    scan_rows(absorb_floor(g, width(g)), g.len() - 2, width(g), coins)
}

/// Coins shaped like the grid `g`.
pub open spec fn coins_fit(g: Seq<Seq<Grain>>, coins: Seq<Seq<bool>>) -> bool {
    coins.len() == g.len() && forall|i: int|
        0 <= i < coins.len() ==> #[trigger] coins[i].len() == width(g)
}

/// Decides the motion at `(y, x)` from the current grid.
pub fn decide(sand: &SandGrid, y: usize, x: usize, coin: bool) -> (m: Motion)
    requires
        1 <= y < cells(sand).len(),
        x < cells(sand)[y as int].len(),
        cells(sand)[y as int - 1].len() == cells(sand)[y as int].len(),
    ensures
        m == motion(cells(sand), y as int, x as int, coin),
{
    let cols = sand[y].len();
    if !sand[y - 1][x].full {
        Motion::Stay
    } else if !sand[y][x].full {
        Motion::Fall
    } else if x <= 1 || x >= cols - 2 {
        Motion::Stay
    } else {
        let left = !sand[y][x - 1].full;
        let right = !sand[y][x + 1].full;
        if left && right {
            if coin {
                Motion::SlideRight
            } else {
                Motion::SlideLeft
            }
        } else if left {
            Motion::SlideLeft
        } else if right {
            Motion::SlideRight
        } else {
            Motion::Stay
        }
    }
}

/// Carries out one step of the scan at `(y, x)`.
fn scan_at(sand: &mut SandGrid, y: usize, x: usize, coin: bool)
    requires
        1 <= y < cells(old(sand)).len(),
        x < width(cells(old(sand))),
        rectangular(cells(old(sand)), width(cells(old(sand)))),
    ensures
        cells(final(sand)) == scan_cell(cells(old(sand)), y as int, x as int, coin),
        cells(final(sand)).len() == cells(old(sand)).len(),
        rectangular(cells(final(sand)), width(cells(old(sand)))),
{
    let ghost g = cells(sand);
    let ghost cols = width(g);
    assert(g[y as int].len() == cols && g[y as int - 1].len() == cols);
    let m = decide(sand, y, x, coin);
    let src = sand[y - 1][x];
    let moved = Grain::new(src.color, true);
    let empty = Grain::new(src.color, false);
    match m {
        Motion::Stay => {},
        Motion::Fall => {
            set_cell(sand, y - 1, x, empty);
            proof { lemma_with_cell_shape(g, cols, y - 1, x as int, empty); }
            set_cell(sand, y, x, moved);
            proof { lemma_with_cell_shape(with_cell(g, y - 1, x as int, empty), cols, y as int, x as int, moved); }
        },
        Motion::SlideLeft | Motion::SlideRight => {
            assert(!edge_column(x as int, cols) && x + 2 < sand@[y as int].len());
            let side = if m == Motion::SlideLeft { x - 1 } else { x + 1 };
            set_cell(sand, y, side, moved);
            let ghost g1 = with_cell(g, y as int, side as int, moved);
            proof { lemma_with_cell_shape(g, cols, y as int, side as int, moved); }
            set_cell(sand, y - 1, x, empty);
            proof { lemma_with_cell_shape(g1, cols, y - 1, x as int, empty); }
            set_cell(sand, y, x, moved);
            proof { lemma_with_cell_shape(with_cell(g1, y - 1, x as int, empty), cols, y as int, x as int, moved); }
        },
    }
}

/// One tick of the update rule, with `coins[y][x]` breaking the tie when the
/// grain above `(y, x)` could slide either way (`true`: right).
pub fn update_sand_with(sand: &mut SandGrid, coins: &Vec<Vec<bool>>)
    requires
        well_formed(cells(old(sand))),
        coins_fit(cells(old(sand)), coin_cells(coins)),
    ensures
        cells(final(sand)) == step(cells(old(sand)), coin_cells(coins)),
{
    let ghost g0 = cells(sand);
    let ghost cols = width(g0);
    let rows = sand.len();
    let width_now = sand[rows - 1].len();
    assert(g0[rows - 1].len() == cols);
    let floor = rows - 1;
    let mut x: usize = 0;
    while x < width_now
        invariant
            rows == g0.len(),
            floor == rows - 1,
            width_now == cols,
            x <= cols,
            well_formed(g0),
            cells(sand) == absorb_floor(g0, x as int),
            cells(sand).len() == rows,
            rectangular(cells(sand), cols),
        decreases width_now - x,
    {
        let ghost g = cells(sand);
        assert(g[floor - 1].len() == cols && g[floor as int].len() == cols);
        let above = sand[floor - 1][x];
        if above.full && !sand[floor][x].full {
            set_cell(sand, floor, x, above);
            proof { lemma_with_cell_shape(g, cols, floor as int, x as int, above); }
            set_cell(sand, floor - 1, x, Grain::new(above.color, false));
            proof {
                lemma_with_cell_shape(
                    with_cell(g, floor as int, x as int, above),
                    cols,
                    floor - 1,
                    x as int,
                    cleared(above),
                );
            }
        }
        x = x + 1;
    }
    let mut y: usize = rows - 2;
    while y > 0
        invariant
            rows == g0.len(),
            cols == width(g0),
            width_now == cols,
            y <= rows - 2,
            well_formed(g0),
            coins_fit(g0, coin_cells(coins)),
            step(g0, coin_cells(coins)) == scan_rows(cells(sand), y as int, cols, coin_cells(coins)),
            cells(sand).len() == rows,
            rectangular(cells(sand), cols),
        decreases y,
    {
        let ghost start = cells(sand);
        let mut x: usize = 0;
        while x < width_now
            invariant
                rows == g0.len(),
                cols == width(g0),
                width_now == cols,
                1 <= y <= rows - 2,
                x <= cols,
                coins_fit(g0, coin_cells(coins)),
                cells(sand) == scan_row(start, y as int, x as int, coin_cells(coins)),
                cells(sand).len() == rows,
                rectangular(cells(sand), cols),
            decreases width_now - x,
        {
            assert(coin_cells(coins)[y as int].len() == cols);
            let coin = coins[y][x];
            scan_at(sand, y, x, coin);
            x = x + 1;
        }
        y = y - 1;
    }
}

/// One tick of the update rule, each tie between two free sides settled by a
/// fair coin.
pub fn update_sand(sand: &mut SandGrid)
    requires
        well_formed(cells(old(sand))),
    ensures
        exists|coins: Seq<Seq<bool>>|
            coins_fit(cells(old(sand)), coins) && cells(final(sand)) == #[trigger] step(
                cells(old(sand)),
                coins,
            ),
{
    let rows = sand.len();
    let cols = sand[0].len();
    let ghost g = cells(sand);
    let mut coins: Vec<Vec<bool>> = Vec::new();
    let mut y: usize = 0;
    while y < rows
        invariant
            rows == g.len(),
            cols == width(g),
            y <= rows,
            coin_cells(&coins).len() == y,
            forall|i: int| 0 <= i < y ==> #[trigger] coin_cells(&coins)[i].len() == cols,
        decreases rows - y,
    {
        let mut row: Vec<bool> = Vec::new();
        let mut x: usize = 0;
        while x < cols
            invariant
                x <= cols,
                row@.len() == x,
            decreases cols - x,
        {
            row.push(chance(1, 2));
            x = x + 1;
        }
        let ghost before = coin_cells(&coins);
        coins.push(row);
        assert(coin_cells(&coins) =~= before.push(row@));
        y = y + 1;
    }
    update_sand_with(sand, &coins);
}

/// `n` ticks, the `i`-th one with the coins `coins[i]`.
pub open spec fn ticks(g: Seq<Seq<Grain>>, coins: Seq<Seq<Seq<bool>>>, n: nat) -> Seq<Seq<Grain>>
    decreases n,
{
    if n == 0 {
        g
    } else {
        step(ticks(g, coins, (n - 1) as nat), coins[n - 1])
    }
}

/// Replacing one cell, with the shape and the count it leaves.
proof fn lemma_with_cell(g: Seq<Seq<Grain>>, cols: int, y: int, x: int, c: Grain)
    requires
        rectangular(g, cols),
        0 <= y < g.len(),
        0 <= x < cols,
    ensures
        with_cell(g, y, x, c).len() == g.len(),
        rectangular(with_cell(g, y, x, c), cols),
        grid_count(with_cell(g, y, x, c)) == grid_count(g) - weight(g[y][x]) + weight(c),
{
    lemma_with_cell_shape(g, cols, y, x, c);
    lemma_count_with_cell(g, y, x, c);
}

/// A step of the scan keeps the grid's shape and its number of grains, and
/// touches no row but `y - 1` and `y`.
proof fn lemma_scan_cell(g: Seq<Seq<Grain>>, cols: int, y: int, x: int, coin: bool)
    requires
        rectangular(g, cols),
        1 <= y < g.len(),
        0 <= x < cols,
    ensures
        scan_cell(g, y, x, coin).len() == g.len(),
        rectangular(scan_cell(g, y, x, coin), cols),
        grid_count(scan_cell(g, y, x, coin)) == grid_count(g),
        forall|r: int| 0 <= r < g.len() && r != y && r != y - 1 ==> #[trigger] scan_cell(g, y, x, coin)[r] == g[r],
{
    let src = g[y - 1][x];
    let m = motion(g, y, x, coin);
    let h = if m == Motion::SlideLeft {
        with_cell(g, y, x - 1, filled(src.color))
    } else if m == Motion::SlideRight {
        with_cell(g, y, x + 1, filled(src.color))
    } else {
        g
    };
    if m != Motion::Stay {
        if m != Motion::Fall {
            let side = if m == Motion::SlideLeft { x - 1 } else { x + 1 };
            lemma_with_cell(g, cols, y, side, filled(src.color));
        }
        assert(h[y - 1][x] == src);
        lemma_with_cell(h, cols, y - 1, x, cleared(src));
        let h1 = with_cell(h, y - 1, x, cleared(src));
        lemma_with_cell(h1, cols, y, x, filled(src.color));
    }
}

/// The scan of a row keeps the grid's shape and its number of grains, and
/// touches no row but `y - 1` and `y`.
proof fn lemma_scan_row(g: Seq<Seq<Grain>>, cols: int, y: int, n: int, coins: Seq<Seq<bool>>)
    requires
        rectangular(g, cols),
        1 <= y < g.len(),
        0 <= n <= cols,
    ensures
        scan_row(g, y, n, coins).len() == g.len(),
        rectangular(scan_row(g, y, n, coins), cols),
        grid_count(scan_row(g, y, n, coins)) == grid_count(g),
        forall|r: int| 0 <= r < g.len() && r != y && r != y - 1 ==> #[trigger] scan_row(g, y, n, coins)[r] == g[r],
    decreases n,
{
    if n > 0 {
        lemma_scan_row(g, cols, y, n - 1, coins);
        lemma_scan_cell(scan_row(g, y, n - 1, coins), cols, y, n - 1, coins[y][n - 1]);
    }
}

/// The scan of rows `y` down to 1 keeps the grid's shape and its number of
/// grains, and touches no row below `y`.
proof fn lemma_scan_rows(g: Seq<Seq<Grain>>, cols: int, y: int, coins: Seq<Seq<bool>>)
    requires
        rectangular(g, cols),
        0 <= y < g.len(),
    ensures
        scan_rows(g, y, cols, coins).len() == g.len(),
        rectangular(scan_rows(g, y, cols, coins), cols),
        grid_count(scan_rows(g, y, cols, coins)) == grid_count(g),
        forall|r: int| y < r < g.len() ==> #[trigger] scan_rows(g, y, cols, coins)[r] == g[r],
    decreases y,
{
    if y > 0 {
        assert(g[0].len() == cols);
        lemma_scan_row(g, cols, y, cols, coins);
        lemma_scan_rows(scan_row(g, y, cols, coins), cols, y - 1, coins);
    }
}

/// Floor absorption keeps the grid's shape and its number of grains, and
/// leaves every full floor slot as it was.
proof fn lemma_absorb_floor(g: Seq<Seq<Grain>>, cols: int, n: int)
    requires
        rectangular(g, cols),
        g.len() >= 2,
        0 <= n <= cols,
    ensures
        absorb_floor(g, n).len() == g.len(),
        rectangular(absorb_floor(g, n), cols),
        grid_count(absorb_floor(g, n)) == grid_count(g),
        forall|x: int|
            0 <= x < cols && (#[trigger] g[g.len() - 1][x]).full ==> absorb_floor(g, n)[g.len() - 1][x]
                == g[g.len() - 1][x],
    decreases n,
{
    if n > 0 {
        lemma_absorb_floor(g, cols, n - 1);
        let h = absorb_floor(g, n - 1);
        let f = g.len() - 1;
        let x = n - 1;
        if h[f - 1][x].full && !h[f][x].full {
            lemma_with_cell(h, cols, f, x, h[f - 1][x]);
            lemma_with_cell(with_cell(h, f, x, h[f - 1][x]), cols, f - 1, x, cleared(h[f - 1][x]));
        }
    }
}

/// A tick keeps the grid well formed and of the same width.
pub proof fn lemma_step_shape(g: Seq<Seq<Grain>>, coins: Seq<Seq<bool>>)
    requires
        well_formed(g),
    ensures
        step(g, coins).len() == g.len(),
        width(step(g, coins)) == width(g),
        well_formed(step(g, coins)),
{
    let cols = width(g);
    lemma_absorb_floor(g, cols, cols);
    lemma_scan_rows(absorb_floor(g, cols), cols, g.len() - 2, coins);
    assert(step(g, coins)[0].len() == cols);
}

/// Conservation: a tick only moves grains, so the number of full slots is the
/// same before and after it.
pub proof fn lemma_step_conserves(g: Seq<Seq<Grain>>, coins: Seq<Seq<bool>>)
    requires
        well_formed(g),
    ensures
        grid_count(step(g, coins)) == grid_count(g),
{
    let cols = width(g);
    lemma_absorb_floor(g, cols, cols);
    lemma_scan_rows(absorb_floor(g, cols), cols, g.len() - 2, coins);
}

/// Conservation over any number of ticks.
pub proof fn lemma_ticks_conserve(g: Seq<Seq<Grain>>, coins: Seq<Seq<Seq<bool>>>, n: nat)
    requires
        well_formed(g),
    ensures
        well_formed(ticks(g, coins, n)),
        width(ticks(g, coins, n)) == width(g),
        ticks(g, coins, n).len() == g.len(),
        grid_count(ticks(g, coins, n)) == grid_count(g),
    decreases n,
{
    if n > 0 {
        lemma_ticks_conserve(g, coins, (n - 1) as nat);
        let h = ticks(g, coins, (n - 1) as nat);
        lemma_step_shape(h, coins[n - 1]);
        lemma_step_conserves(h, coins[n - 1]);
    }
}

/// A grain on the floor row stays there, with its colour, through a tick.
pub proof fn lemma_floor_grain_stays(g: Seq<Seq<Grain>>, coins: Seq<Seq<bool>>, x: int)
    requires
        well_formed(g),
        0 <= x < width(g),
        g[g.len() - 1][x].full,
    ensures
        step(g, coins)[g.len() - 1][x] == g[g.len() - 1][x],
{
    let cols = width(g);
    lemma_absorb_floor(g, cols, cols);
    lemma_scan_rows(absorb_floor(g, cols), cols, g.len() - 2, coins);
}

/// A grain on the floor row stays there, with its colour, through any number of ticks.
pub proof fn lemma_floor_grain_stays_forever(
    g: Seq<Seq<Grain>>,
    coins: Seq<Seq<Seq<bool>>>,
    n: nat,
    x: int,
)
    requires
        well_formed(g),
        0 <= x < width(g),
        g[g.len() - 1][x].full,
    ensures
        ticks(g, coins, n)[g.len() - 1][x] == g[g.len() - 1][x],
    decreases n,
{
    if n > 0 {
        lemma_floor_grain_stays_forever(g, coins, (n - 1) as nat, x);
        lemma_ticks_conserve(g, coins, (n - 1) as nat);
        lemma_floor_grain_stays(ticks(g, coins, (n - 1) as nat), coins[n - 1], x);
    }
}

/// Edge exemption: in the two columns at each side, a grain whose way down is
/// blocked stays where it is, whatever the coin says; one whose way is free
/// falls straight.
pub proof fn lemma_edge_never_slides(g: Seq<Seq<Grain>>, y: int, x: int, coin: bool)
    requires
        1 <= y < g.len(),
        0 <= x < g[y].len(),
        edge_column(x, g[y].len() as int),
    ensures
        motion(g, y, x, coin) == (if !g[y - 1][x].full {
            Motion::Stay
        } else if g[y][x].full {
            Motion::Stay
        } else {
            Motion::Fall
        }),
{
}

/// Two coin grids that agree off the edge columns.
pub open spec fn agree_inside(c1: Seq<Seq<bool>>, c2: Seq<Seq<bool>>, rows: int, cols: int) -> bool {
    forall|y: int, x: int|
        0 <= y < rows && 0 <= x < cols && !edge_column(x, cols) ==> #[trigger] c1[y][x] == c2[y][x]
}

proof fn lemma_scan_row_edge_coins(
    g: Seq<Seq<Grain>>,
    cols: int,
    y: int,
    n: int,
    c1: Seq<Seq<bool>>,
    c2: Seq<Seq<bool>>,
)
    requires
        rectangular(g, cols),
        1 <= y < g.len(),
        0 <= n <= cols,
        agree_inside(c1, c2, g.len() as int, cols),
    ensures
        scan_row(g, y, n, c1) == scan_row(g, y, n, c2),
    decreases n,
{
    if n > 0 {
        lemma_scan_row_edge_coins(g, cols, y, n - 1, c1, c2);
        lemma_scan_row(g, cols, y, n - 1, c1);
        let h = scan_row(g, y, n - 1, c1);
        assert(h[y].len() == cols);
        if !edge_column(n - 1, cols) {
            assert(c1[y][n - 1] == c2[y][n - 1]);
        }
    }
}

proof fn lemma_scan_rows_edge_coins(
    g: Seq<Seq<Grain>>,
    cols: int,
    y: int,
    c1: Seq<Seq<bool>>,
    c2: Seq<Seq<bool>>,
)
    requires
        rectangular(g, cols),
        0 <= y < g.len(),
        agree_inside(c1, c2, g.len() as int, cols),
    ensures
        scan_rows(g, y, cols, c1) == scan_rows(g, y, cols, c2),
    decreases y,
{
    if y > 0 {
        assert(g[0].len() == cols);
        lemma_scan_row_edge_coins(g, cols, y, cols, c1, c2);
        lemma_scan_row(g, cols, y, cols, c1);
        lemma_scan_rows_edge_coins(scan_row(g, y, cols, c1), cols, y - 1, c1, c2);
    }
}

/// Edge exemption over a whole tick: no grain slides out of the two columns
/// at each side, so the coins there are never looked at and a tick comes out
/// the same whatever they say.
pub proof fn lemma_edge_coins_unused(g: Seq<Seq<Grain>>, c1: Seq<Seq<bool>>, c2: Seq<Seq<bool>>)
    requires
        well_formed(g),
        agree_inside(c1, c2, g.len() as int, width(g)),
    ensures
        step(g, c1) == step(g, c2),
{
    let cols = width(g);
    lemma_absorb_floor(g, cols, cols);
    lemma_scan_rows_edge_coins(absorb_floor(g, cols), cols, g.len() - 2, c1, c2);
}

/// Determinism: with the same coin flips, two runs from the same grid reach
/// the same grid after any number of ticks.
pub proof fn lemma_same_coins_same_run(
    g1: Seq<Seq<Grain>>,
    g2: Seq<Seq<Grain>>,
    coins: Seq<Seq<Seq<bool>>>,
    n: nat,
)
    requires
        g1 == g2,
    ensures
        ticks(g1, coins, n) == ticks(g2, coins, n),
{
}

} // verus!
