//! Terminal text for the board: the full frame and the partial update.

use vstd::prelude::*;
use crate::game::Game;
use crate::model::{grid_wf, Grid};

verus! {

/// The glyph of a cell: `#` when alive, a space when dead.
pub open spec fn glyph(alive: bool) -> char {
    if alive {
        '#'
    } else {
        ' '
    }
}

/// The decimal digit for `d` in `0..10`.
pub open spec fn digit_char(d: nat) -> char {
    seq!['0', '1', '2', '3', '4', '5', '6', '7', '8', '9'][d as int]
}

/// The decimal notation of `n`, without leading zeros.
pub open spec fn decimal(n: nat) -> Seq<char>
    decreases n,
{
    if n < 10 {
        seq![digit_char(n)]
    } else {
        decimal(n / 10).push(digit_char(n % 10))
    }
}

/// Screen clear followed by cursor home: `ESC[2J ESC[1;1H`.
pub open spec fn clear_home() -> Seq<char> {
    seq!['\x1B', '[', '2', 'J', '\x1B', '[', '1', ';', '1', 'H']
}

/// Cursor to the 1-based `row` and `col`: `ESC[row;colH`.
pub open spec fn cursor_to(row: nat, col: nat) -> Seq<char> {
    seq!['\x1B', '['] + decimal(row) + seq![';'] + decimal(col) + seq!['H']
}

/// The top and bottom border: a bar, `cols` dashes, a bar and a newline.
pub open spec fn border(cols: nat) -> Seq<char> {
    seq!['|'] + Seq::new(cols, |i: int| '-') + seq!['|', '\n']
}

/// One board row between bars, ended by a newline.
pub open spec fn row_line(row: Seq<bool>) -> Seq<char> {
    seq!['|'] + row.map_values(|a: bool| glyph(a)) + seq!['|', '\n']
}

/// The lines of all rows of `g`, top to bottom.
pub open spec fn rows_text(g: Grid) -> Seq<char>
    decreases g.len(),
{
    if g.len() == 0 {
        Seq::empty()
    } else {
        rows_text(g.drop_last()) + row_line(g.last())
    }
}

/// The full frame of `g`: clear and home, top border, rows, bottom border.
pub open spec fn frame_text(g: Grid) -> Seq<char> {
    clear_home() + border(g[0].len()) + rows_text(g) + border(g[0].len())
}

/// Cursor-addressed writes of the current glyph of each coordinate of `d`.
pub open spec fn paint_text(g: Grid, d: Seq<(usize, usize)>) -> Seq<char>
    decreases d.len(),
{
    if d.len() == 0 {
        Seq::empty()
    } else {
        let (r, c) = d.last();
        paint_text(g, d.drop_last()) + cursor_to((r + 2) as nat, (c + 2) as nat) + seq![glyph(g[r as int][c as int])]
    }
}

/// The partial update for `d`, ended by parking the cursor below the frame.
pub open spec fn partial_text(g: Grid, d: Seq<(usize, usize)>) -> Seq<char> {
    paint_text(g, d) + cursor_to((g.len() + 3) as nat, 1)
}

/// Appends the decimal digit `d`.
fn push_digit(out: &mut String, d: u128)
    requires
        d < 10,
    ensures
        final(out)@ == old(out)@.push(digit_char(d as nat)),
{
    proof {
        reveal_strlit("0");
        reveal_strlit("1");
        reveal_strlit("2");
        reveal_strlit("3");
        reveal_strlit("4");
        reveal_strlit("5");
        reveal_strlit("6");
        reveal_strlit("7");
        reveal_strlit("8");
        reveal_strlit("9");
    }
    let s = if d == 0 {
        "0"
    } else if d == 1 {
        "1"
    } else if d == 2 {
        "2"
    } else if d == 3 {
        "3"
    } else if d == 4 {
        "4"
    } else if d == 5 {
        "5"
    } else if d == 6 {
        "6"
    } else if d == 7 {
        "7"
    } else if d == 8 {
        "8"
    } else {
        "9"
    };
    out.append(s);
    assert(out@ =~= old(out)@.push(digit_char(d as nat)));
}

/// Appends the decimal notation of `n`.
fn push_decimal(out: &mut String, n: u128)
    ensures
        final(out)@ == old(out)@ + decimal(n as nat),
    decreases n,
{
    if n >= 10 {
        push_decimal(out, n / 10);
    }
    push_digit(out, n % 10);
    assert(out@ =~= old(out)@ + decimal(n as nat));
}

/// Appends `ESC[row;colH`.
fn push_cursor(out: &mut String, row: u128, col: u128)
    ensures
        final(out)@ == old(out)@ + cursor_to(row as nat, col as nat),
{
    proof {
        reveal_strlit("\x1B[");
        reveal_strlit(";");
        reveal_strlit("H");
    }
    out.append("\x1B[");
    push_decimal(out, row);
    out.append(";");
    push_decimal(out, col);
    out.append("H");
    assert(out@ =~= old(out)@ + cursor_to(row as nat, col as nat));
}

/// Appends the glyph of a cell.
fn push_glyph(out: &mut String, alive: bool)
    ensures
        final(out)@ == old(out)@.push(glyph(alive)),
{
    proof {
        reveal_strlit("#");
        reveal_strlit(" ");
    }
    if alive {
        out.append("#");
    } else {
        out.append(" ");
    }
    assert(out@ =~= old(out)@.push(glyph(alive)));
}

/// Appends the border line for `cols` columns.
fn push_border(out: &mut String, cols: usize)
    ensures
        final(out)@ == old(out)@ + border(cols as nat),
{
    proof {
        reveal_strlit("|");
        reveal_strlit("-");
        reveal_strlit("|\n");
    }
    let ghost start = out@;
    out.append("|");
    assert("|"@ =~= seq!['|']);
    assert(out@ =~= start + seq!['|'] + Seq::new(0, |k: int| '-'));
    for i in 0..cols
        invariant
            out@ == start + seq!['|'] + Seq::new(i as nat, |k: int| '-'),
    {
        let ghost mid = out@;
        proof {
            reveal_strlit("-");
        }
        out.append("-");
        assert("-"@ =~= seq!['-']);
        assert(out@ =~= mid + seq!['-']);
        assert(out@ =~= start + seq!['|'] + Seq::new((i + 1) as nat, |k: int| '-'));
    }
    out.append("|\n");
    assert(out@ =~= start + border(cols as nat));
}

impl Game {
    /// The full frame of the board: screen clear and cursor home, the top
    /// border, one line per row, and the bottom border.
    pub fn iframe(&self) -> (s: String)
        requires
            self.wf(),
        ensures
            s@ == frame_text(self@.cells),
    {
        proof {
            reveal_strlit("\x1B[2J\x1B[1;1H");
            reveal_strlit("|");
            reveal_strlit("|\n");
        }
        let ghost g = self@.cells;
        let rows = self.x_len();
        let cols = self.y_len();
        let mut out = String::new();
        out.append("\x1B[2J\x1B[1;1H");
        push_border(&mut out, cols);
        let ghost head = out@;
        assert(g.subrange(0, 0) =~= Seq::<Seq<bool>>::empty());
        for r in 0..rows
            invariant
                self.wf(),
                g == self@.cells,
                rows == g.len(),
                cols == g[0].len(),
                out@ == head + rows_text(g.subrange(0, r as int)),
        {
            let ghost before = out@;
            proof {
                reveal_strlit("|");
                reveal_strlit("|\n");
            }
            assert(g[r as int].len() == cols);
            out.append("|");
            assert("|"@ =~= seq!['|']);
            assert(g[r as int].subrange(0, 0).map_values(|a: bool| glyph(a)) =~= Seq::<char>::empty());
            assert(out@ =~= before + seq!['|'] + g[r as int].subrange(0, 0).map_values(|a: bool| glyph(a)));
            for c in 0..cols
                invariant
                    self.wf(),
                    g == self@.cells,
                    rows == g.len(),
                    cols == g[0].len(),
                    r < rows,
                    g[r as int].len() == cols,
                    out@ == before + seq!['|'] + g[r as int].subrange(0, c as int).map_values(|a: bool| glyph(a)),
            {
                let cell = self.at(r, c);
                push_glyph(&mut out, cell.alive);
                assert(g[r as int].subrange(0, c + 1 as int).map_values(|a: bool| glyph(a)) =~= g[r as int].subrange(
                    0,
                    c as int,
                ).map_values(|a: bool| glyph(a)).push(glyph(cell.alive)));
            }
            out.append("|\n");
            assert("|\n"@ =~= seq!['|', '\n']);
            assert(g[r as int].subrange(0, cols as int) =~= g[r as int]);
            assert(out@ =~= before + row_line(g[r as int]));
            assert(g.subrange(0, r + 1 as int).drop_last() =~= g.subrange(0, r as int));
            assert(out@ =~= head + rows_text(g.subrange(0, r + 1 as int)));
        }
        assert(g.subrange(0, rows as int) =~= g);
        push_border(&mut out, cols);
        assert(out@ =~= frame_text(g));
        out
    }

    /// The partial update for `delta`: for each coordinate, a cursor move to
    /// its screen position and its current glyph; then the cursor is parked
    /// on the line below the frame.
    pub fn partial_render(&self, delta: &Vec<(usize, usize)>) -> (s: String)
        requires
            self.wf(),
            forall|k: int| 0 <= k < delta@.len() ==> (#[trigger] delta@[k]).0 < self@.cells.len() && delta@[k].1 < self@.cells[0].len(),
        ensures
            s@ == partial_text(self@.cells, delta@),
    {
        let ghost g = self@.cells;
        let mut out = String::new();
        assert(delta@.subrange(0, 0) =~= Seq::<(usize, usize)>::empty());
        for k in 0..delta.len()
            invariant
                self.wf(),
                g == self@.cells,
                forall|k: int| 0 <= k < delta@.len() ==> (#[trigger] delta@[k]).0 < g.len() && delta@[k].1 < g[0].len(),
                out@ == paint_text(g, delta@.subrange(0, k as int)),
        {
            let (r, c) = delta[k];
            push_cursor(&mut out, r as u128 + 2, c as u128 + 2);
            let cell = self.at(r, c);
            push_glyph(&mut out, cell.alive);
            assert(delta@.subrange(0, k + 1 as int).drop_last() =~= delta@.subrange(0, k as int));
            assert(out@ =~= paint_text(g, delta@.subrange(0, k + 1 as int)));
        }
        assert(delta@.subrange(0, delta@.len() as int) =~= delta@);
        push_cursor(&mut out, self.x_len() as u128 + 3, 1);
        out
    }
}

} // verus!
