//! The mathematical model of a board and of one generation step.

use vstd::prelude::*;

verus! {

/// A board as rows of cells, `true` meaning alive.
pub type Grid = Seq<Seq<bool>>;

/// Number of rows of a grid.
pub open spec fn rows_of(g: Grid) -> int {
    g.len() as int
}

/// Number of columns of a grid (the length of its first row).
pub open spec fn cols_of(g: Grid) -> int {
    g[0].len() as int
}

/// A rectangular grid with at least one row and one column.
pub open spec fn grid_wf(g: Grid) -> bool {
    &&& g.len() >= 1
    &&& g[0].len() >= 1
    &&& forall|r: int| 0 <= r < g.len() ==> #[trigger] g[r].len() == g[0].len()
}

/// The index triple `(x-, x, x+)` along an axis of length `len` for
/// coordinate `x`: wrapping modulo `len`, or clamped to `x` at the edges.
/// On an axis of length one every neighbor index is `0` under either policy.
pub open spec fn axis_triple(len: int, x: int, wrap: bool) -> (int, int, int) {
    if wrap {
        if x == 0 {
            (len - 1, 0, if len > 1 { 1 } else { 0 })
        } else if x == len - 1 {
            (len - 2, len - 1, 0)
        } else {
            (x - 1, x, x + 1)
        }
    } else {
        if x == 0 {
            (0, 0, if len > 1 { 1 } else { 0 })
        } else if x == len - 1 {
            (len - 2, len - 1, len - 1)
        } else {
            (x - 1, x, x + 1)
        }
    }
}

/// What position `(i, j)` adds to the neighbor count of `(r, c)`: one when it
/// is alive and is not the center itself.
pub open spec fn counts(g: Grid, r: int, c: int, i: int, j: int) -> int {
    if (i == r && j == c) || !g[i][j] {
        0
    } else {
        1
    }
}

/// What row `i` adds over the column triple `cs`.
pub open spec fn row_count(g: Grid, r: int, c: int, i: int, cs: (int, int, int)) -> int {
    counts(g, r, c, i, cs.0) + counts(g, r, c, i, cs.1) + counts(g, r, c, i, cs.2)
}

/// The neighbor count of `(r, c)`: alive cells over the product of the row
/// triple and the column triple, the center excluded.
#[verifier::opaque]
pub open spec fn weight_of(g: Grid, wrap_rows: bool, wrap_cols: bool, r: int, c: int) -> int {
    let rs = axis_triple(rows_of(g), r, wrap_rows);
    let cs = axis_triple(cols_of(g), c, wrap_cols);
    row_count(g, r, c, rs.0, cs) + row_count(g, r, c, rs.1, cs) + row_count(g, r, c, rs.2, cs)
}

/// The B3/S23 rule for a cell that was `alive` and has `w` neighbors.
pub open spec fn next_alive(alive: bool, w: int) -> bool {
    if w == 3 {
        true
    } else if w < 2 || w > 3 {
        false
    } else {
        alive
    }
}

/// The grid one generation after `g`, every count taken from `g` itself.
pub open spec fn next_grid(g: Grid, wrap_rows: bool, wrap_cols: bool) -> Grid {
    Seq::new(
        g.len(),
        |r: int|
            Seq::new(
                g[r].len(),
                |c: int| next_alive(g[r][c], weight_of(g, wrap_rows, wrap_cols, r, c)),
            ),
    )
}

/// Coordinate `a` comes strictly before `b` in row-major order.
pub open spec fn row_major_before(a: (usize, usize), b: (usize, usize)) -> bool {
    a.0 < b.0 || (a.0 == b.0 && a.1 < b.1)
}

/// `d` lists exactly the positions where `before` and `after` differ, each
/// once, in ascending row-major order.
pub open spec fn is_delta(before: Grid, after: Grid, d: Seq<(usize, usize)>) -> bool {
    &&& forall|k: int|
        0 <= k < d.len() ==> {
            let (r, c) = #[trigger] d[k];
            &&& 0 <= r < before.len()
            &&& 0 <= c < before[r as int].len()
            &&& before[r as int][c as int] != after[r as int][c as int]
        }
    &&& forall|r: int, c: int|
        0 <= r < before.len() && 0 <= c < before[r].len() && before[r][c] != after[r][c] ==> exists|
            k: int,
        | 0 <= k < d.len() && #[trigger] d[k] == (r as usize, c as usize)
    &&& forall|k1: int, k2: int|
        0 <= k1 < k2 < d.len() ==> row_major_before(#[trigger] d[k1], #[trigger] d[k2])
}

} // verus!
