//! Stamping a fixed polyomino pattern into the grid.
use vstd::prelude::*;
use crate::chance::chance;
use crate::grain::{Grain, Rgba, ShapeType};
use crate::grid::{SandGrid, cells, row_count, grid_count, set_cell};

verus! {

/// Why a shape could not be stamped.
#[derive(Debug, Clone, Copy, PartialEq, Eq, Structural)]
pub enum ShapeError {
    /// The seeder has no pattern for this kind of shape.
    NotImplemented,
}

/// Whether `(y, x)` belongs to the S shape whose 10 x 15 box has its top-left
/// corner at row `oy`, column `ox`: a top bar over columns 5..15 of the box's
/// rows 0..5, and a bottom bar over columns 0..10 of its rows 5..10.
pub open spec fn in_s(ox: int, oy: int, y: int, x: int) -> bool {
    (oy <= y < oy + 5 && ox + 5 <= x < ox + 15) || (oy + 5 <= y < oy + 10 && ox <= x < ox + 10)
}

/// The 10 x 15 box of the S shape at `(ox, oy)` lies inside the grid.
pub open spec fn s_fits(g: Seq<Seq<Grain>>, ox: int, oy: int) -> bool {
    0 <= ox && 0 <= oy && oy + 10 <= g.len() && forall|y: int|
        oy <= y < oy + 10 ==> ox + 15 <= #[trigger] g[y].len()
}

/// `h` is `g` with the S shape at `(ox, oy)` stamped in: each of its slots is
/// full, of colour `color` or, where `variated`, possibly `shade`; every other
/// slot is untouched.
pub open spec fn s_stamped(
    g: Seq<Seq<Grain>>,
    h: Seq<Seq<Grain>>,
    ox: int,
    oy: int,
    color: Rgba,
    shade: Rgba,
    variated: bool,
) -> bool {
    &&& h.len() == g.len()
    &&& forall|y: int| 0 <= y < g.len() ==> (#[trigger] h[y]).len() == g[y].len()
    &&& forall|y: int, x: int|
        0 <= y < g.len() && 0 <= x < g[y].len() ==> {
            let c = #[trigger] h[y][x];
            if in_s(ox, oy, y, x) {
                c.full && (c.color == color || (variated && c.color == shade))
            } else {
                c == g[y][x]
            }
        }
}

/// Stamps the S shape with its box's top-left corner at column
/// `position[0]`, row `position[1]`. Where `variated`, each slot independently
/// takes `shade` with chance 1 in 20 instead of `color`.
pub fn put_s(position: &Vec<usize>, color: Rgba, shade: Rgba, sand: &mut SandGrid, variated: bool)
    requires
        position@.len() >= 2,
        s_fits(cells(old(sand)), position@[0] as int, position@[1] as int),
    ensures
        s_stamped(
            cells(old(sand)),
            cells(final(sand)),
            position@[0] as int,
            position@[1] as int,
            color,
            shade,
            variated,
        ),
{
    let ghost g0 = cells(sand);
    let o_x = position[0];
    let o_y = position[1];
    let mut y: usize = 0;
    while y < 10
        invariant
            y <= 10,
            s_fits(g0, o_x as int, o_y as int),
            cells(sand).len() == g0.len(),
            forall|i: int| 0 <= i < g0.len() ==> (#[trigger] cells(sand)[i]).len() == g0[i].len(),
            forall|i: int, j: int|
                0 <= i < g0.len() && 0 <= j < g0[i].len() ==> {
                    let c = #[trigger] cells(sand)[i][j];
                    if in_s(o_x as int, o_y as int, i, j) && i < o_y + y {
                        c.full && (c.color == color || (variated && c.color == shade))
                    } else {
                        c == g0[i][j]
                    }
                },
        decreases 10 - y,
    {
        let mut x: usize = 0;
        while x < 15
            invariant
                y < 10,
                x <= 15,
                s_fits(g0, o_x as int, o_y as int),
                cells(sand).len() == g0.len(),
                forall|i: int| 0 <= i < g0.len() ==> (#[trigger] cells(sand)[i]).len() == g0[i].len(),
                forall|i: int, j: int|
                    0 <= i < g0.len() && 0 <= j < g0[i].len() ==> {
                        let c = #[trigger] cells(sand)[i][j];
                        if in_s(o_x as int, o_y as int, i, j) && (i < o_y + y || (i == o_y + y && j
                            < o_x + x)) {
                            c.full && (c.color == color || (variated && c.color == shade))
                        } else {
                            c == g0[i][j]
                        }
                    },
            decreases 15 - x,
        {
            let dark = if variated {
                chance(1, 20)
            } else {
                false
            };
            let inside = if y < 5 {
                x >= 5
            } else {
                x <= 9
            };
            if inside {
                let tone = if dark {
                    shade
                } else {
                    color
                };
                assert(o_y + y < sand.len());
                let row = o_y + y;
                assert(cells(sand)[row as int].len() == g0[row as int].len());
                assert(o_x + x < sand@[row as int].len());
                set_cell(sand, row, o_x + x, Grain::new(tone, true));
            }
            x = x + 1;
        }
        y = y + 1;
    }
}

/// Stamps `shape` at `position` (column, row). Only the S shape has a
/// pattern; any other kind is refused with the grid untouched.
pub fn put_shape(
    shape: ShapeType,
    position: Vec<usize>,
    color: Rgba,
    shade: Rgba,
    sand: &mut SandGrid,
    variated: bool,
) -> (r: Result<(), ShapeError>)
    requires
        position@.len() >= 2,
        shape == ShapeType::S ==> s_fits(
            cells(old(sand)),
            position@[0] as int,
            position@[1] as int,
        ),
    ensures
        r is Err <==> shape != ShapeType::S,
        r is Err ==> r == Err::<(), ShapeError>(ShapeError::NotImplemented) && cells(final(sand))
            == cells(old(sand)),
        r is Ok ==> s_stamped(
            cells(old(sand)),
            cells(final(sand)),
            position@[0] as int,
            position@[1] as int,
            color,
            shade,
            variated,
        ),
{
    match shape {
        ShapeType::S => {
            put_s(&position, color, shade, sand, variated);
            Ok(())
        },
        _ => Err(ShapeError::NotImplemented),
    }
}

/// A row whose full slots are exactly those of columns `lo..hi` holds `hi - lo` grains.
proof fn lemma_row_count_band(r: Seq<Grain>, lo: int, hi: int)
    requires
        0 <= lo <= hi <= r.len(),
        forall|x: int| 0 <= x < r.len() ==> (#[trigger] r[x]).full == (lo <= x < hi),
    ensures
        row_count(r) == hi - lo,
    decreases r.len(),
{
    let n = r.len();
    if n > 0 {
        let p = r.drop_last();
        assert forall|x: int| 0 <= x < p.len() implies (#[trigger] p[x]).full == (lo <= x < hi) by {
            assert(p[x] == r[x]);
        }
        if hi == n && lo < n {
            lemma_row_count_band(p, lo, n - 1);
        } else if hi == n {
            lemma_row_count_band(p, n - 1, n - 1);
        } else {
            lemma_row_count_band(p, lo, hi);
        }
    }
}

/// The number of rows of the S shape's box at row `oy` that lie above row `k`.
spec fn box_rows_above(oy: int, k: int) -> int {
    if k <= oy {
        0
    } else if k >= oy + 10 {
        10
    } else {
        k - oy
    }
}

/// Counting the first `k` rows of a grid whose full slots are exactly the S
/// shape's: ten grains for each row of the shape's box.
proof fn lemma_count_s_rows(h: Seq<Seq<Grain>>, ox: int, oy: int, k: int)
    requires
        s_fits(h, ox, oy),
        0 <= k <= h.len(),
        forall|y: int, x: int|
            0 <= y < h.len() && 0 <= x < h[y].len() ==> (#[trigger] h[y][x]).full == in_s(ox, oy, y, x),
    ensures
        grid_count(h.take(k)) == 10 * box_rows_above(oy, k),
    decreases k,
{
    if k > 0 {
        let y = k - 1;
        lemma_count_s_rows(h, ox, oy, y);
        assert(h.take(k).drop_last() =~= h.take(y));
        let r = h[y];
        let (lo, hi) = if oy <= y < oy + 5 {
            (ox + 5, ox + 15)
        } else if oy + 5 <= y < oy + 10 {
            (ox, ox + 10)
        } else {
            (0, 0)
        };
        assert forall|x: int| 0 <= x < r.len() implies (#[trigger] r[x]).full == (lo <= x < hi) by {
            assert(h[y][x].full == in_s(ox, oy, y, x));
        }
        lemma_row_count_band(r, lo, hi);
    }
}

/// Seeding: stamping the S shape into a grid with no grain gives a grid whose
/// full slots are exactly the shape's, 100 of them.
pub proof fn lemma_seeding_count(
    g: Seq<Seq<Grain>>,
    h: Seq<Seq<Grain>>,
    ox: int,
    oy: int,
    color: Rgba,
    shade: Rgba,
    variated: bool,
)
    requires
        s_fits(g, ox, oy),
        forall|y: int, x: int| 0 <= y < g.len() && 0 <= x < g[y].len() ==> !(#[trigger] g[y][x]).full,
        s_stamped(g, h, ox, oy, color, shade, variated),
    ensures
        forall|y: int, x: int|
            0 <= y < h.len() && 0 <= x < h[y].len() ==> (#[trigger] h[y][x]).full == in_s(ox, oy, y, x),
        grid_count(h) == 100,
{
    assert forall|y: int, x: int| 0 <= y < h.len() && 0 <= x < h[y].len() implies (#[trigger] h[
        y
    ][x]).full == in_s(ox, oy, y, x) by {
        assert(h[y].len() == g[y].len());
        if !in_s(ox, oy, y, x) {
            assert(!g[y][x].full);
        }
    }
    assert forall|y: int| oy <= y < oy + 10 implies ox + 15 <= #[trigger] h[y].len() by {
        assert(h[y].len() == g[y].len());
    }
    lemma_count_s_rows(h, ox, oy, h.len() as int);
    assert(h.take(h.len() as int) =~= h);
}

} // verus!
