//! Properties of the generation step, stated over the model and proved.

use vstd::prelude::*;
use crate::model::{axis_triple, counts, grid_wf, is_delta, next_alive, next_grid, row_major_before, weight_of, Grid};

verus! {

/// Every neighbor count lies in `0..=8`.
pub proof fn lemma_weight_range(g: Grid, wrap_rows: bool, wrap_cols: bool, r: int, c: int)
    ensures
        0 <= weight_of(g, wrap_rows, wrap_cols, r, c) <= 8,
{
    reveal(weight_of);
    // The middle position of both triples is the center itself.
    let rs = axis_triple(g.len() as int, r, wrap_rows);
    let cs = axis_triple(g[0].len() as int, c, wrap_cols);
    assert(counts(g, r, c, rs.1, cs.1) == 0);
}

/// B3/S23: for every neighbor count `w` in `0..=8`, a cell is alive in the
/// next generation exactly when `w` is three, or `w` is two and the cell was
/// alive.
pub proof fn lemma_rule(alive: bool, w: int)
    requires
        0 <= w <= 8,
    ensures
        next_alive(alive, w) == (w == 3 || (w == 2 && alive)),
{
}

/// Rule correctness over a whole grid: every cell of the next generation is
/// alive exactly when its neighbor count in `g` is three, or is two and the
/// cell is alive in `g`.
pub proof fn lemma_next_grid_rule(g: Grid, wrap_rows: bool, wrap_cols: bool, r: int, c: int)
    requires
        grid_wf(g),
        0 <= r < g.len(),
        0 <= c < g[0].len(),
    ensures
        next_grid(g, wrap_rows, wrap_cols)[r][c] == ({
            let w = weight_of(g, wrap_rows, wrap_cols, r, c);
            w == 3 || (w == 2 && g[r][c])
        }),
{
    assert(g[r].len() == g[0].len());
    lemma_weight_range(g, wrap_rows, wrap_cols, r, c);
    lemma_rule(g[r][c], weight_of(g, wrap_rows, wrap_cols, r, c));
}

/// The grid after writing, in the order given, the next state of each listed
/// position into `live`, every state computed from the snapshot `snap`.
pub open spec fn apply_in_order(live: Grid, snap: Grid, wrap_rows: bool, wrap_cols: bool, order: Seq<(int, int)>) -> Grid
    decreases order.len(),
{
    if order.len() == 0 {
        live
    } else {
        let before = apply_in_order(live, snap, wrap_rows, wrap_cols, order.drop_last());
        let (r, c) = order.last();
        before.update(r, before[r].update(c, next_grid(snap, wrap_rows, wrap_cols)[r][c]))
    }
}

proof fn lemma_apply_prefix(g: Grid, wrap_rows: bool, wrap_cols: bool, order: Seq<(int, int)>)
    requires
        grid_wf(g),
        forall|k: int| 0 <= k < order.len() ==> 0 <= (#[trigger] order[k]).0 < g.len() && 0 <= order[k].1 < g[0].len(),
    ensures
        apply_in_order(g, g, wrap_rows, wrap_cols, order).len() == g.len(),
        forall|r: int|
            0 <= r < g.len() ==> (#[trigger] apply_in_order(g, g, wrap_rows, wrap_cols, order)[r]).len() == g[0].len(),
        forall|r: int, c: int|
            0 <= r < g.len() && 0 <= c < g[0].len() ==> #[trigger] apply_in_order(g, g, wrap_rows, wrap_cols, order)[r][c]
                == if order.contains((r, c)) {
                next_grid(g, wrap_rows, wrap_cols)[r][c]
            } else {
                g[r][c]
            },
    decreases order.len(),
{
    if order.len() > 0 {
        let prefix = order.drop_last();
        lemma_apply_prefix(g, wrap_rows, wrap_cols, prefix);
        let before = apply_in_order(g, g, wrap_rows, wrap_cols, prefix);
        let now = apply_in_order(g, g, wrap_rows, wrap_cols, order);
        let (lr, lc) = order.last();
        assert(before[lr].len() == g[0].len());
        assert forall|r: int, c: int| 0 <= r < g.len() && 0 <= c < g[0].len() implies #[trigger] now[r][c]
            == if order.contains((r, c)) {
            next_grid(g, wrap_rows, wrap_cols)[r][c]
        } else {
            g[r][c]
        } by {
            if (r, c) == order.last() {
                assert(order.contains((r, c)));
            } else if prefix.contains((r, c)) {
                let k = choose|k: int| 0 <= k < prefix.len() && prefix[k] == (r, c);
                assert(order[k] == (r, c));
            } else if order.contains((r, c)) {
                let k = choose|k: int| 0 <= k < order.len() && order[k] == (r, c);
                if k < prefix.len() {
                    assert(prefix[k] == (r, c));
                }
            }
        }
    }
}

/// Snapshot isolation: writing the next states into the board in any order
/// that visits every cell, each computed from the pre-step snapshot, gives
/// the next generation.
pub proof fn lemma_order_independent(g: Grid, wrap_rows: bool, wrap_cols: bool, order: Seq<(int, int)>)
    requires
        grid_wf(g),
        forall|k: int| 0 <= k < order.len() ==> 0 <= (#[trigger] order[k]).0 < g.len() && 0 <= order[k].1 < g[0].len(),
        forall|r: int, c: int| 0 <= r < g.len() && 0 <= c < g[0].len() ==> order.contains((r, c)),
    ensures
        apply_in_order(g, g, wrap_rows, wrap_cols, order) == next_grid(g, wrap_rows, wrap_cols),
{
    lemma_apply_prefix(g, wrap_rows, wrap_cols, order);
    let a = apply_in_order(g, g, wrap_rows, wrap_cols, order);
    let n = next_grid(g, wrap_rows, wrap_cols);
    assert forall|r: int| 0 <= r < g.len() implies #[trigger] a[r] =~= n[r] by {
        assert(g[r].len() == g[0].len());
        assert forall|c: int| 0 <= c < g[0].len() implies a[r][c] == n[r][c] by {
            assert(order.contains((r, c)));
        }
    }
    assert(a =~= n);
}

/// A `rows` x `cols` grid whose only alive cells form the 2x2 block with top
/// left corner `(r0, c0)`.
pub open spec fn block_grid(rows: int, cols: int, r0: int, c0: int) -> Grid {
    Seq::new(rows as nat, |r: int| Seq::new(cols as nat, |c: int| r0 <= r <= r0 + 1 && c0 <= c <= c0 + 1))
}

/// A grid that the step leaves unchanged has an empty delta.
pub proof fn lemma_fixed_point_empty_delta(g: Grid, d: Seq<(usize, usize)>)
    requires
        is_delta(g, g, d),
    ensures
        d.len() == 0,
{
    if d.len() > 0 {
        let (r, c) = d[0];
        assert(g[r as int][c as int] != g[r as int][c as int]);
    }
}

/// Still life: a 2x2 block with at least one dead row and column on every
/// side is a fixed point of the step under either edge policy, so every
/// step's delta on it is empty.
pub proof fn lemma_block_still_life(rows: int, cols: int, r0: int, c0: int, wrap_rows: bool, wrap_cols: bool)
    requires
        1 <= r0,
        r0 + 3 <= rows,
        1 <= c0,
        c0 + 3 <= cols,
    ensures
        next_grid(block_grid(rows, cols, r0, c0), wrap_rows, wrap_cols) == block_grid(rows, cols, r0, c0),
        forall|d: Seq<(usize, usize)>|
            is_delta(block_grid(rows, cols, r0, c0), next_grid(block_grid(rows, cols, r0, c0), wrap_rows, wrap_cols), d)
                ==> d.len() == 0,
{
    let b = block_grid(rows, cols, r0, c0);
    let n = next_grid(b, wrap_rows, wrap_cols);
    assert forall|r: int| 0 <= r < rows implies #[trigger] n[r] =~= b[r] by {
        assert forall|c: int| 0 <= c < cols implies n[r][c] == b[r][c] by {
            reveal(weight_of);
        }
    }
    assert(n =~= b);
    assert forall|d: Seq<(usize, usize)>| is_delta(b, n, d) implies d.len() == 0 by {
        lemma_fixed_point_empty_delta(b, d);
    }
}

/// The coordinates of `d` ascend strictly in row-major order.
pub open spec fn ascending(d: Seq<(usize, usize)>) -> bool {
    forall|k1: int, k2: int| 0 <= k1 < k2 < d.len() ==> row_major_before(#[trigger] d[k1], #[trigger] d[k2])
}

proof fn lemma_ascending_same_elements(a: Seq<(usize, usize)>, b: Seq<(usize, usize)>)
    requires
        ascending(a),
        ascending(b),
        forall|x: (usize, usize)| a.contains(x) <==> b.contains(x),
    ensures
        a == b,
    decreases a.len(),
{
    if a.len() == 0 {
        if b.len() > 0 {
            assert(b.contains(b[0]));
        }
        assert(b =~= a);
    } else {
        assert(a.contains(a[0]));
        assert(b.contains(b[0]));
        let j = choose|j: int| 0 <= j < b.len() && b[j] == a[0];
        let i = choose|i: int| 0 <= i < a.len() && a[i] == b[0];
        if j > 0 {
            assert(row_major_before(b[0], b[j]));
            if i > 0 {
                assert(row_major_before(a[0], a[i]));
            }
        }
        assert(a[0] == b[0]);
        let ta = a.subrange(1, a.len() as int);
        let tb = b.subrange(1, b.len() as int);
        assert forall|x: (usize, usize)| ta.contains(x) <==> tb.contains(x) by {
            if ta.contains(x) {
                let k = choose|k: int| 0 <= k < ta.len() && ta[k] == x;
                assert(a[k + 1] == x);
                assert(a.contains(x));
                let m = choose|m: int| 0 <= m < b.len() && b[m] == x;
                assert(row_major_before(a[0], a[k + 1]));
                assert(m != 0);
                assert(tb[m - 1] == x);
            }
            if tb.contains(x) {
                let k = choose|k: int| 0 <= k < tb.len() && tb[k] == x;
                assert(b[k + 1] == x);
                assert(b.contains(x));
                let m = choose|m: int| 0 <= m < a.len() && a[m] == x;
                assert(row_major_before(b[0], b[k + 1]));
                assert(m != 0);
                assert(ta[m - 1] == x);
            }
        }
        lemma_ascending_same_elements(ta, tb);
        assert(a =~= seq![a[0]] + ta);
        assert(b =~= seq![b[0]] + tb);
    }
}

/// The delta between two grids is unique: any two sequences that list
/// exactly the changed positions, each once, in row-major order, are equal.
pub proof fn lemma_delta_unique(before: Grid, after: Grid, d1: Seq<(usize, usize)>, d2: Seq<(usize, usize)>)
    requires
        is_delta(before, after, d1),
        is_delta(before, after, d2),
    ensures
        d1 == d2,
{
    assert forall|x: (usize, usize)| d1.contains(x) <==> d2.contains(x) by {
        if d1.contains(x) {
            let k = choose|k: int| 0 <= k < d1.len() && d1[k] == x;
            let (r, c) = d1[k];
            assert(before[r as int][c as int] != after[r as int][c as int]);
            let m = choose|m: int| 0 <= m < d2.len() && #[trigger] d2[m] == (r, c);
        }
        if d2.contains(x) {
            let k = choose|k: int| 0 <= k < d2.len() && d2[k] == x;
            let (r, c) = d2[k];
            assert(before[r as int][c as int] != after[r as int][c as int]);
            let m = choose|m: int| 0 <= m < d1.len() && #[trigger] d1[m] == (r, c);
        }
    }
    lemma_ascending_same_elements(d1, d2);
}

/// A `rows` x `cols` grid whose only alive cells are the three in row `r0`
/// at columns `c0`, `c0 + 1` and `c0 + 2`.
pub open spec fn row_blinker(rows: int, cols: int, r0: int, c0: int) -> Grid {
    Seq::new(rows as nat, |r: int| Seq::new(cols as nat, |c: int| r == r0 && c0 <= c <= c0 + 2))
}

/// The same three cells turned upright about the middle one: column
/// `c0 + 1`, rows `r0 - 1` to `r0 + 1`.
pub open spec fn column_blinker(rows: int, cols: int, r0: int, c0: int) -> Grid {
    Seq::new(rows as nat, |r: int| Seq::new(cols as nat, |c: int| c == c0 + 1 && r0 - 1 <= r <= r0 + 1))
}

/// The four cells that change in either phase of the blinker, in row-major
/// order.
pub open spec fn blinker_delta(r0: int, c0: int) -> Seq<(usize, usize)> {
    seq![
        ((r0 - 1) as usize, (c0 + 1) as usize),
        (r0 as usize, c0 as usize),
        (r0 as usize, (c0 + 2) as usize),
        ((r0 + 1) as usize, (c0 + 1) as usize),
    ]
}

proof fn lemma_blinker_delta(rows: int, cols: int, r0: int, c0: int, from: Grid, to: Grid)
    requires
        2 <= r0,
        r0 + 3 <= rows,
        1 <= c0,
        c0 + 4 <= cols,
        rows <= usize::MAX,
        cols <= usize::MAX,
        (from == row_blinker(rows, cols, r0, c0) && to == column_blinker(rows, cols, r0, c0)) || (from
            == column_blinker(rows, cols, r0, c0) && to == row_blinker(rows, cols, r0, c0)),
    ensures
        is_delta(from, to, blinker_delta(r0, c0)),
{
    let d = blinker_delta(r0, c0);
    assert forall|r: int, c: int|
        0 <= r < from.len() && 0 <= c < from[r].len() && from[r][c] != to[r][c] implies exists|k: int|
            0 <= k < d.len() && #[trigger] d[k] == (r as usize, c as usize) by {
        if r == r0 - 1 {
            assert(d[0] == (r as usize, c as usize));
        } else if r == r0 + 1 {
            assert(d[3] == (r as usize, c as usize));
        } else if c == c0 {
            assert(d[1] == (r as usize, c as usize));
        } else {
            assert(d[2] == (r as usize, c as usize));
        }
    }
}

/// Blinker: three cells in a row, with two dead rows above and below and
/// a dead column on each side, turn upright in one step and back in the
/// next. Both steps change the same four cells, so the deltas repeat with
/// period two.
pub proof fn lemma_blinker_period_two(rows: int, cols: int, r0: int, c0: int, wrap_rows: bool, wrap_cols: bool)
    requires
        2 <= r0,
        r0 + 3 <= rows,
        1 <= c0,
        c0 + 4 <= cols,
        rows <= usize::MAX,
        cols <= usize::MAX,
    ensures
        next_grid(row_blinker(rows, cols, r0, c0), wrap_rows, wrap_cols) == column_blinker(rows, cols, r0, c0),
        next_grid(column_blinker(rows, cols, r0, c0), wrap_rows, wrap_cols) == row_blinker(rows, cols, r0, c0),
        forall|d: Seq<(usize, usize)>|
            is_delta(row_blinker(rows, cols, r0, c0), column_blinker(rows, cols, r0, c0), d) ==> d == blinker_delta(r0, c0),
        forall|d: Seq<(usize, usize)>|
            is_delta(column_blinker(rows, cols, r0, c0), row_blinker(rows, cols, r0, c0), d) ==> d == blinker_delta(r0, c0),
        blinker_delta(r0, c0).len() == 4,
{
    let h = row_blinker(rows, cols, r0, c0);
    let v = column_blinker(rows, cols, r0, c0);
    let nh = next_grid(h, wrap_rows, wrap_cols);
    let nv = next_grid(v, wrap_rows, wrap_cols);
    assert forall|r: int| 0 <= r < rows implies #[trigger] nh[r] =~= v[r] by {
        assert forall|c: int| 0 <= c < cols implies nh[r][c] == v[r][c] by {
            reveal(weight_of);
        }
    }
    assert(nh =~= v);
    assert forall|r: int| 0 <= r < rows implies #[trigger] nv[r] =~= h[r] by {
        assert forall|c: int| 0 <= c < cols implies nv[r][c] == h[r][c] by {
            reveal(weight_of);
        }
    }
    assert(nv =~= h);
    lemma_blinker_delta(rows, cols, r0, c0, h, v);
    lemma_blinker_delta(rows, cols, r0, c0, v, h);
    assert forall|d: Seq<(usize, usize)>| is_delta(h, v, d) implies d == blinker_delta(r0, c0) by {
        lemma_delta_unique(h, v, d, blinker_delta(r0, c0));
    }
    assert forall|d: Seq<(usize, usize)>| is_delta(v, h, d) implies d == blinker_delta(r0, c0) by {
        lemma_delta_unique(v, h, d, blinker_delta(r0, c0));
    }
}

/// Wrap policy: the neighbor indices of `x` are `x - 1` and `x + 1` taken
/// modulo the axis length, as on a torus.
pub proof fn lemma_wrap_is_modular(len: int, x: int)
    requires
        0 <= x < len,
    ensures
        axis_triple(len, x, true) == ((x - 1) % len, x, (x + 1) % len),
{
    if x == 0 {
        vstd::arithmetic::div_mod::lemma_mod_add_multiples_vanish(-1, len);
        vstd::arithmetic::div_mod::lemma_small_mod((len - 1) as nat, len as nat);
        if len > 1 {
            vstd::arithmetic::div_mod::lemma_small_mod(1, len as nat);
        } else {
            vstd::arithmetic::div_mod::lemma_mod_self_0(len);
        }
    } else {
        vstd::arithmetic::div_mod::lemma_small_mod((x - 1) as nat, len as nat);
        if x == len - 1 {
            vstd::arithmetic::div_mod::lemma_mod_self_0(len);
        } else {
            vstd::arithmetic::div_mod::lemma_small_mod((x + 1) as nat, len as nat);
        }
    }
}

/// Clamp policy: a neighbor index that would leave the axis collapses to
/// the cell's own index.
pub proof fn lemma_clamp_collapses(len: int, x: int)
    requires
        0 <= x < len,
    ensures
        axis_triple(len, x, false) == (
            if x == 0 { x } else { x - 1 },
            x,
            if x == len - 1 { x } else { x + 1 },
        ),
{
}

/// A `rows` x `cols` grid whose only alive cells form the 2x2 block with top
/// left corner `(r0, c0)`, its rows and columns taken cyclically, so that
/// the block may straddle an edge.
pub open spec fn torus_block(rows: int, cols: int, r0: int, c0: int) -> Grid {
    Seq::new(rows as nat, |r: int| Seq::new(cols as nat, |c: int| (r - r0) % rows <= 1 && (c - c0) % cols <= 1))
}

/// Offset `v` of a wrapped neighbor index `x + dx` from `x0`, in terms of
/// the offset of `x` itself.
proof fn lemma_wrapped_offset(len: int, x: int, x0: int, dx: int)
    requires
        len >= 3,
        0 <= x < len,
        -1 <= dx <= 1,
    ensures
        ((x + dx) % len - x0) % len == (if (x - x0) % len + dx < 0 {
            len - 1
        } else if (x - x0) % len + dx >= len {
            0
        } else {
            (x - x0) % len + dx
        }),
{
    let v = (x - x0) % len;
    vstd::arithmetic::div_mod::lemma_add_mod_noop_right(-x0, x + dx, len);
    assert(((x + dx) % len - x0) % len == (x + dx - x0) % len);
    vstd::arithmetic::div_mod::lemma_add_mod_noop_right(dx, x - x0, len);
    assert((v + dx) % len == (x + dx - x0) % len);
    vstd::arithmetic::div_mod::lemma_mod_bound(x - x0, len);
    if v + dx < 0 {
        vstd::arithmetic::div_mod::lemma_mod_add_multiples_vanish(-1, len);
        vstd::arithmetic::div_mod::lemma_small_mod((len - 1) as nat, len as nat);
    } else if v + dx >= len {
        vstd::arithmetic::div_mod::lemma_mod_self_0(len);
    } else {
        vstd::arithmetic::div_mod::lemma_small_mod((v + dx) as nat, len as nat);
    }
}

/// Still life on a torus: with both axes wrapping and at least three rows
/// and columns, a 2x2 block anywhere, across the edges too, is a fixed
/// point of the step, so every step's delta on it is empty.
pub proof fn lemma_torus_block_still_life(rows: int, cols: int, r0: int, c0: int)
    requires
        rows >= 3,
        cols >= 3,
    ensures
        next_grid(torus_block(rows, cols, r0, c0), true, true) == torus_block(rows, cols, r0, c0),
        forall|d: Seq<(usize, usize)>|
            is_delta(torus_block(rows, cols, r0, c0), next_grid(torus_block(rows, cols, r0, c0), true, true), d)
                ==> d.len() == 0,
{
    let b = torus_block(rows, cols, r0, c0);
    let n = next_grid(b, true, true);
    assert forall|r: int| 0 <= r < rows implies #[trigger] n[r] =~= b[r] by {
        assert forall|c: int| 0 <= c < cols implies n[r][c] == b[r][c] by {
            reveal(weight_of);
            lemma_wrap_is_modular(rows, r);
            lemma_wrap_is_modular(cols, c);
            lemma_wrapped_offset(rows, r, r0, -1);
            lemma_wrapped_offset(rows, r, r0, 0);
            lemma_wrapped_offset(rows, r, r0, 1);
            lemma_wrapped_offset(cols, c, c0, -1);
            lemma_wrapped_offset(cols, c, c0, 0);
            lemma_wrapped_offset(cols, c, c0, 1);
            vstd::arithmetic::div_mod::lemma_small_mod(r as nat, rows as nat);
            vstd::arithmetic::div_mod::lemma_small_mod(c as nat, cols as nat);
            vstd::arithmetic::div_mod::lemma_mod_bound(r - 1, rows);
            vstd::arithmetic::div_mod::lemma_mod_bound(r + 1, rows);
            vstd::arithmetic::div_mod::lemma_mod_bound(c - 1, cols);
            vstd::arithmetic::div_mod::lemma_mod_bound(c + 1, cols);
        }
    }
    assert(n =~= b);
    assert forall|d: Seq<(usize, usize)>| is_delta(b, n, d) implies d.len() == 0 by {
        lemma_fixed_point_empty_delta(b, d);
    }
}

} // verus!
