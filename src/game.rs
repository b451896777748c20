//! The board, its neighbor count and the generation step.

use vstd::prelude::*;
use crate::model::{
    axis_triple, counts, grid_wf, is_delta, next_alive, next_grid, row_count, row_major_before,
    weight_of, Grid,
};

verus! {

/// The state of one cell.
#[derive(Clone, Copy, Debug, PartialEq, Eq, Structural)]
pub struct Cell {
    pub alive: bool,
}

impl From<bool> for Cell {
    fn from(value: bool) -> (r: Cell)
        ensures
            r.alive == value,
    {
        Cell { alive: value }
    }
}

impl vstd::std_specs::convert::FromSpecImpl<bool> for Cell {
    open spec fn obeys_from_spec() -> bool {
        true
    }

    open spec fn from_spec(v: bool) -> Cell {
        Cell { alive: v }
    }
}

impl From<usize> for Cell {
    /// Any non-zero state is alive.
    fn from(value: usize) -> (r: Cell)
        ensures
            r.alive == (value != 0),
    {
        Cell { alive: value != 0 }
    }
}

impl vstd::std_specs::convert::FromSpecImpl<usize> for Cell {
    open spec fn obeys_from_spec() -> bool {
        true
    }

    open spec fn from_spec(v: usize) -> Cell {
        Cell { alive: v != 0 }
    }
}

/// Edge policy of the board along each axis.
#[derive(Clone, Copy, Debug, PartialEq, Eq, Structural)]
pub struct Config {
    /// Row neighbors wrap modulo the row count; otherwise they are clamped.
    pub wrap_rows: bool,
    /// Column neighbors wrap modulo the column count; otherwise they are clamped.
    pub wrap_cols: bool,
}

/// A board of cells with fixed dimensions and its edge policy.
#[derive(Clone)]
pub struct Game {
    board: Vec<Vec<Cell>>,
    config: Config,
}

/// The abstract state of a game: its grid and its edge policy.
pub struct GameView {
    pub cells: Grid,
    pub wrap_rows: bool,
    pub wrap_cols: bool,
}

impl View for Game {
    type V = GameView;

    closed spec fn view(&self) -> GameView {
        GameView {
            cells: self.board@.map_values(|row: Vec<Cell>| row@.map_values(|c: Cell| c.alive)),
            wrap_rows: self.config.wrap_rows,
            wrap_cols: self.config.wrap_cols,
        }
    }
}

/// The all-dead grid of the given size.
pub open spec fn dead_grid(rows: int, cols: int) -> Grid {
    Seq::new(rows as nat, |r: int| Seq::new(cols as nat, |c: int| false))
}

/// A cell is seeded alive when its random byte is below this bound, that
/// is with probability 64/256.
pub const SEED_BOUND: u8 = 64;

/// The grid whose cell `(r, c)` is alive when `draws[r][c]` is below
/// `SEED_BOUND`.
pub open spec fn seeded_grid(draws: Seq<Seq<u8>>) -> Grid {
    Seq::new(draws.len(), |r: int| Seq::new(draws[r].len(), |c: int| draws[r][c] < SEED_BOUND))
}

/// Relies on rand::random::<u8>: draws a byte from the thread-local
/// generator. Nothing is known of its value.
#[verifier::external_body]
fn random_byte() -> u8 {
    rand::random::<u8>()
}

/// The B3/S23 rule on one cell: `alive` is its state, `w` its neighbor count.
pub fn next_cell(alive: bool, w: usize) -> (r: bool)
    ensures
        r == next_alive(alive, w as int),
{
    if w == 3 {
        true
    } else if w < 2 || w > 3 {
        false
    } else {
        alive
    }
}

/// The index triple of `x` on an axis of length `len`.
fn triple(len: usize, x: usize, wrap: bool) -> (t: (usize, usize, usize))
    requires
        x < len,
    ensures
        t.0 as int == axis_triple(len as int, x as int, wrap).0,
        t.1 as int == axis_triple(len as int, x as int, wrap).1,
        t.2 as int == axis_triple(len as int, x as int, wrap).2,
        t.0 < len,
        t.1 < len,
        t.2 < len,
{
    if wrap {
        if x == 0 {
            (len - 1, 0, if len > 1 { 1 } else { 0 })
        } else if x == len - 1 {
            (len - 2, len - 1, 0)
        } else {
            (x - 1, x, x + 1)
        }
    } else {
        if x == 0 {
            (0, 0, if len > 1 { 1 } else { 0 })
        } else if x == len - 1 {
            (len - 2, len - 1, len - 1)
        } else {
            (x - 1, x, x + 1)
        }
    }
}

impl Game {
    /// Relates the grid of the view to the stored board.
    proof fn lemma_view(&self)
        ensures
            self@.cells.len() == self.board@.len(),
            forall|r: int| 0 <= r < self.board@.len() ==> #[trigger] self@.cells[r].len() == self.board@[r]@.len(),
            forall|r: int, c: int|
                0 <= r < self.board@.len() && 0 <= c < self.board@[r]@.len() ==> #[trigger] self@.cells[r][c] == self.board@[r]@[c].alive,
    {
    }

    /// Well-formed: at least one row and one column, all rows of equal length.
    pub open spec fn wf(&self) -> bool {
        grid_wf(self@.cells)
    }

    /// An all-dead board of `rows` x `cols` cells.
    pub fn new(rows: usize, cols: usize, config: Config) -> (g: Game)
        requires
            rows >= 1,
            cols >= 1,
        ensures
            g.wf(),
            g@.cells == dead_grid(rows as int, cols as int),
            g@.wrap_rows == config.wrap_rows,
            g@.wrap_cols == config.wrap_cols,
    {
        let mut board: Vec<Vec<Cell>> = Vec::new();
        for r in 0..rows
            invariant
                board@.len() == r,
                forall|k: int| 0 <= k < r ==> #[trigger] board@[k]@ == Seq::new(cols as nat, |c: int| Cell { alive: false }),
        {
            let mut row: Vec<Cell> = Vec::new();
            for c in 0..cols
                invariant
                    row@ == Seq::new(c as nat, |i: int| Cell { alive: false }),
            {
                row.push(Cell { alive: false });
                assert(row@ =~= Seq::new((c + 1) as nat, |i: int| Cell { alive: false }));
            }
            board.push(row);
        }
        let g = Game { board, config };
        assert(g@.cells =~= dead_grid(rows as int, cols as int)) by {
            assert forall|r: int| 0 <= r < rows implies g@.cells[r] =~= dead_grid(rows as int, cols as int)[r] by {}
        }
        g
    }

    /// Number of rows.
    pub fn x_len(&self) -> (n: usize)
        requires
            self.wf(),
        ensures
            n == self@.cells.len(),
    {
        self.board.len()
    }

    /// Number of columns.
    pub fn y_len(&self) -> (n: usize)
        requires
            self.wf(),
        ensures
            n == self@.cells[0].len(),
    {
        self.board[0].len()
    }

    /// The edge policy.
    pub fn config(&self) -> (c: Config)
        ensures
            c.wrap_rows == self@.wrap_rows,
            c.wrap_cols == self@.wrap_cols,
    {
        self.config
    }

    /// The cell at row `r`, column `c`.
    pub fn at(&self, r: usize, c: usize) -> (cell: Cell)
        requires
            self.wf(),
            r < self@.cells.len(),
            c < self@.cells[0].len(),
        ensures
            cell.alive == self@.cells[r as int][c as int],
    {
        proof {
            self.lemma_view();
            assert(self@.cells[r as int].len() == self@.cells[0].len());
        }
        self.board[r][c]
    }

    /// Sets the cell at row `r`, column `c`; every other cell keeps its state.
    pub fn set(&mut self, r: usize, c: usize, cell: Cell)
        requires
            old(self).wf(),
            r < old(self)@.cells.len(),
            c < old(self)@.cells[0].len(),
        ensures
            final(self).wf(),
            final(self)@.cells == old(self)@.cells.update(r as int, old(self)@.cells[r as int].update(c as int, cell.alive)),
            final(self)@.wrap_rows == old(self)@.wrap_rows,
            final(self)@.wrap_cols == old(self)@.wrap_cols,
    {
        let ghost before = self@.cells;
        proof {
            self.lemma_view();
            assert(self@.cells[r as int].len() == self@.cells[0].len());
        }
        let mut row: Vec<Cell> = Vec::new();
        self.board.set_and_swap(r, &mut row);
        row.set(c, cell);
        self.board.set_and_swap(r, &mut row);
        assert(self@.cells =~= before.update(r as int, before[r as int].update(c as int, cell.alive))) by {
            assert(self@.cells[r as int] =~= before[r as int].update(c as int, cell.alive));
        }
    }

    /// One for an alive cell at `(i, j)` other than the center `(r, c)`.
    fn count_at(&self, r: usize, c: usize, i: usize, j: usize) -> (n: usize)
        requires
            self.wf(),
            i < self@.cells.len(),
            j < self@.cells[0].len(),
        ensures
            n as int == counts(self@.cells, r as int, c as int, i as int, j as int),
            n <= 1,
    {
        proof {
            self.lemma_view();
            assert(self@.cells[i as int].len() == self@.cells[0].len());
        }
        if (i == r && j == c) || !self.board[i][j].alive {
            0
        } else {
            1
        }
    }

    /// What row `i` adds to the count of `(r, c)` over the column triple `cs`.
    fn row_weight(&self, r: usize, c: usize, i: usize, cs: (usize, usize, usize)) -> (n: usize)
        requires
            self.wf(),
            i < self@.cells.len(),
            cs.0 < self@.cells[0].len(),
            cs.1 < self@.cells[0].len(),
            cs.2 < self@.cells[0].len(),
        ensures
            n as int == row_count(self@.cells, r as int, c as int, i as int, (cs.0 as int, cs.1 as int, cs.2 as int)),
            n <= 3,
    {
        self.count_at(r, c, i, cs.0) + self.count_at(r, c, i, cs.1) + self.count_at(r, c, i, cs.2)
    }

    /// The neighbor count of the cell at row `a`, column `b`.
    pub fn weight(&self, a: usize, b: usize) -> (n: usize)
        requires
            self.wf(),
            a < self@.cells.len(),
            b < self@.cells[0].len(),
        ensures
            n as int == weight_of(self@.cells, self@.wrap_rows, self@.wrap_cols, a as int, b as int),
            n <= 8,
    {
        proof {
            reveal(weight_of);
        }
        let rs = triple(self.x_len(), a, self.config.wrap_rows);
        let cs = triple(self.y_len(), b, self.config.wrap_cols);
        self.row_weight(a, b, rs.0, cs) + self.row_weight(a, b, rs.1, cs) + self.row_weight(a, b, rs.2, cs)
    }

    /// Advances the board by one generation and returns the coordinates of
    /// the cells that changed, in row-major order.
    pub fn tick(&mut self) -> (delta: Vec<(usize, usize)>)
        requires
            old(self).wf(),
        ensures
            final(self).wf(),
            final(self)@.cells == next_grid(old(self)@.cells, old(self)@.wrap_rows, old(self)@.wrap_cols),
            final(self)@.wrap_rows == old(self)@.wrap_rows,
            final(self)@.wrap_cols == old(self)@.wrap_cols,
            is_delta(old(self)@.cells, final(self)@.cells, delta@),
    {
        let ghost g = self@.cells;
        let ghost ng = next_grid(g, self@.wrap_rows, self@.wrap_cols);
        let rows = self.x_len();
        let cols = self.y_len();
        proof {
            self.lemma_view();
        }
        let mut frame: Vec<Vec<Cell>> = Vec::new();
        let mut delta: Vec<(usize, usize)> = Vec::new();
        for i in 0..rows
            invariant
                self.wf(),
                self@.cells == g,
                ng == next_grid(g, self@.wrap_rows, self@.wrap_cols),
                rows == g.len(),
                cols == g[0].len(),
                frame@.len() == i,
                forall|r: int| 0 <= r < i ==> (#[trigger] frame@[r])@.map_values(|c: Cell| c.alive) == ng[r],
                forall|k: int|
                    0 <= k < delta@.len() ==> {
                        let (r, c) = #[trigger] delta@[k];
                        &&& r < i
                        &&& c < cols
                        &&& g[r as int][c as int] != ng[r as int][c as int]
                    },
                forall|r: int, c: int|
                    0 <= r < i && 0 <= c < cols && g[r][c] != ng[r][c] ==> exists|k: int|
                        0 <= k < delta@.len() && #[trigger] delta@[k] == (r as usize, c as usize),
                forall|k1: int, k2: int|
                    0 <= k1 < k2 < delta@.len() ==> row_major_before(#[trigger] delta@[k1], #[trigger] delta@[k2]),
        {
            let mut line: Vec<Cell> = Vec::new();
            proof {
                assert(g[i as int].len() == cols);
            }
            for j in 0..cols
                invariant
                    self.wf(),
                    self@.cells == g,
                    ng == next_grid(g, self@.wrap_rows, self@.wrap_cols),
                    rows == g.len(),
                    cols == g[0].len(),
                    i < rows,
                    g[i as int].len() == cols,
                    line@.len() == j,
                    forall|c: int| 0 <= c < j ==> (#[trigger] line@[c]).alive == ng[i as int][c],
                    forall|k: int|
                        0 <= k < delta@.len() ==> {
                            let (r, c) = #[trigger] delta@[k];
                            &&& (r < i || (r == i && c < j))
                            &&& c < cols
                            &&& g[r as int][c as int] != ng[r as int][c as int]
                        },
                    forall|r: int, c: int|
                        0 <= r <= i && 0 <= c < cols && (r < i || c < j) && g[r][c] != ng[r][c] ==> exists|k: int|
                            0 <= k < delta@.len() && #[trigger] delta@[k] == (r as usize, c as usize),
                    forall|k1: int, k2: int|
                        0 <= k1 < k2 < delta@.len() ==> row_major_before(#[trigger] delta@[k1], #[trigger] delta@[k2]),
            {
                let w = self.weight(i, j);
                let was = self.board[i][j].alive;
                let now = next_cell(was, w);
                if now != was {
                    let ghost d0 = delta@;
                    delta.push((i, j));
                    proof {
                        assert forall|r: int, c: int|
                            0 <= r <= i && 0 <= c < cols && (r < i || c < j + 1) && g[r][c] != ng[r][c] implies exists|k: int|
                                0 <= k < delta@.len() && #[trigger] delta@[k] == (r as usize, c as usize) by {
                            if r == i && c == j {
                                assert(delta@[d0.len() as int] == (r as usize, c as usize));
                            } else {
                                let k = choose|k: int| 0 <= k < d0.len() && #[trigger] d0[k] == (r as usize, c as usize);
                                assert(delta@[k] == d0[k]);
                            }
                        }
                    }
                }
                line.push(Cell { alive: now });
            }
            proof {
                assert(line@.map_values(|c: Cell| c.alive) =~= ng[i as int]);
            }
            frame.push(line);
        }
        self.board = frame;
        proof {
            assert(self@.cells =~= ng);
        }
        delta
    }

    /// Sets every cell from its random byte: cell `(r, c)` becomes alive
    /// when `draws[r][c]` is below `SEED_BOUND`.
    pub fn seed_from_draws(&mut self, draws: &Vec<Vec<u8>>)
        requires
            old(self).wf(),
            draws@.len() == old(self)@.cells.len(),
            forall|r: int| 0 <= r < draws@.len() ==> (#[trigger] draws@[r])@.len() == old(self)@.cells[0].len(),
        ensures
            final(self).wf(),
            final(self)@.cells == seeded_grid(draws@.map_values(|row: Vec<u8>| row@)),
            final(self)@.wrap_rows == old(self)@.wrap_rows,
            final(self)@.wrap_cols == old(self)@.wrap_cols,
    {
        let ghost want = seeded_grid(draws@.map_values(|row: Vec<u8>| row@));
        let mut board: Vec<Vec<Cell>> = Vec::new();
        for r in 0..draws.len()
            invariant
                board@.len() == r,
                want == seeded_grid(draws@.map_values(|row: Vec<u8>| row@)),
                forall|k: int| 0 <= k < r ==> (#[trigger] board@[k])@.map_values(|c: Cell| c.alive) == want[k],
        {
            let src = &draws[r];
            let mut row: Vec<Cell> = Vec::new();
            for c in 0..src.len()
                invariant
                    row@.len() == c,
                    forall|k: int| 0 <= k < c ==> (#[trigger] row@[k]).alive == (src@[k] < SEED_BOUND),
            {
                row.push(Cell { alive: src[c] < SEED_BOUND });
            }
            assert(row@.map_values(|c: Cell| c.alive) =~= want[r as int]);
            board.push(row);
        }
        self.board = board;
        assert(self@.cells =~= want);
    }

    /// Seeds every cell independently from a fresh random byte, alive with
    /// probability 64/256. The dimensions and the edge policy are kept.
    pub fn randomize(&mut self)
        requires
            old(self).wf(),
        ensures
            final(self).wf(),
            final(self)@.cells.len() == old(self)@.cells.len(),
            final(self)@.cells[0].len() == old(self)@.cells[0].len(),
            final(self)@.wrap_rows == old(self)@.wrap_rows,
            final(self)@.wrap_cols == old(self)@.wrap_cols,
    {
        let rows = self.x_len();
        let cols = self.y_len();
        let mut draws: Vec<Vec<u8>> = Vec::new();
        for r in 0..rows
            invariant
                draws@.len() == r,
                forall|k: int| 0 <= k < r ==> (#[trigger] draws@[k])@.len() == cols,
        {
            let mut row: Vec<u8> = Vec::new();
            for c in 0..cols
                invariant
                    row@.len() == c,
            {
                row.push(random_byte());
            }
            draws.push(row);
        }
        self.seed_from_draws(&draws);
    }
}

} // verus!
