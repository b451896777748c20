//! Decisions of the drive loop and of start-up, apart from any I/O.

use vstd::prelude::*;

verus! {

/// Why the board could not be sized.
#[derive(Clone, Copy, Debug, PartialEq, Eq, Structural)]
pub enum SizeError {
    /// A dimension given on the command line is zero.
    BadArgument,
    /// The terminal leaves no room for a board inside the frame.
    TerminalTooSmall,
}

/// Rows and columns of the board used when neither the command line nor
/// the terminal gives a size.
pub const FALLBACK_SIZE: usize = 10;

/// The board size `(rows, cols)` chosen at start-up: from `args`, given as
/// `(cols, rows)`, when present; else from the terminal's `(width, height)`,
/// keeping two columns for the side borders and four lines for the top and
/// bottom borders and the trailing line; else the fallback size.
pub fn board_size(args: Option<(usize, usize)>, terminal: Option<(u16, u16)>) -> (r: Result<(usize, usize), SizeError>)
    ensures
        args matches Some((cols, rows)) ==> r == if cols >= 1 && rows >= 1 {
            Ok::<(usize, usize), SizeError>((rows, cols))
        } else {
            Err::<(usize, usize), SizeError>(SizeError::BadArgument)
        },
        args is None ==> (terminal matches Some((w, h)) ==> r == if w >= 3 && h >= 5 {
            Ok::<(usize, usize), SizeError>(((h - 4) as usize, (w - 2) as usize))
        } else {
            Err::<(usize, usize), SizeError>(SizeError::TerminalTooSmall)
        }),
        args is None && terminal is None ==> r == Ok::<(usize, usize), SizeError>((FALLBACK_SIZE, FALLBACK_SIZE)),
{
    match args {
        Some((cols, rows)) => {
            if cols >= 1 && rows >= 1 {
                Ok((rows, cols))
            } else {
                Err(SizeError::BadArgument)
            }
        },
        None => match terminal {
            Some((w, h)) => {
                if w >= 3 && h >= 5 {
                    Ok(((h - 4) as usize, (w - 2) as usize))
                } else {
                    Err(SizeError::TerminalTooSmall)
                }
            },
            None => Ok((FALLBACK_SIZE, FALLBACK_SIZE)),
        },
    }
}

/// Whether two deltas hold the same coordinates in the same order.
pub fn same_delta(a: &Vec<(usize, usize)>, b: &Vec<(usize, usize)>) -> (r: bool)
    ensures
        r == (a@ == b@),
{
    if a.len() != b.len() {
        return false;
    }
    for k in 0..a.len()
        invariant
            a@.len() == b@.len(),
            forall|i: int| 0 <= i < k ==> a@[i] == b@[i],
    {
        if a[k].0 != b[k].0 || a[k].1 != b[k].1 {
            return false;
        }
    }
    assert(a@ =~= b@);
    true
}

/// What the loop does after a step: whether a full frame is due, and
/// whether the pattern repeats so that the loop ends.
#[derive(Clone, Copy, Debug, PartialEq, Eq, Structural)]
pub struct Action {
    pub full_frame: bool,
    pub repeating: bool,
}

/// The loop's memory: a cyclic frame counter and the two latest deltas.
pub struct Driver {
    counter: usize,
    period: usize,
    last: Vec<(usize, usize)>,
    before_last: Vec<(usize, usize)>,
}

/// The abstract state of the loop.
pub struct DriverView {
    pub counter: nat,
    pub period: nat,
    pub last: Seq<(usize, usize)>,
    pub before_last: Seq<(usize, usize)>,
}

impl View for Driver {
    type V = DriverView;

    closed spec fn view(&self) -> DriverView {
        DriverView {
            counter: self.counter as nat,
            period: self.period as nat,
            last: self.last@,
            before_last: self.before_last@,
        }
    }
}

impl Driver {
    /// The counter stays below the period.
    pub open spec fn wf(&self) -> bool {
        self@.counter < self@.period
    }

    /// A loop that issues a full frame every `period` steps, starting with
    /// the first, and has seen no delta yet.
    pub fn new(period: usize) -> (d: Driver)
        requires
            period >= 1,
        ensures
            d.wf(),
            d@.counter == 0,
            d@.period == period,
            d@.last == Seq::<(usize, usize)>::empty(),
            d@.before_last == Seq::<(usize, usize)>::empty(),
    {
        Driver { counter: 0, period, last: Vec::new(), before_last: Vec::new() }
    }

    /// Records the delta of the step just taken. A full frame is due when
    /// the counter was at zero; the counter then advances cyclically. The
    /// pattern repeats when `delta` equals either of the two previous deltas;
    /// otherwise `delta` becomes the latest and the latest the one before.
    pub fn step(&mut self, delta: Vec<(usize, usize)>) -> (a: Action)
        requires
            old(self).wf(),
        ensures
            final(self).wf(),
            a.full_frame == (old(self)@.counter == 0),
            a.repeating == (delta@ == old(self)@.last || delta@ == old(self)@.before_last),
            final(self)@.period == old(self)@.period,
            final(self)@.counter == (old(self)@.counter + 1) % old(self)@.period,
            !a.repeating ==> final(self)@.last == delta@ && final(self)@.before_last == old(self)@.last,
            a.repeating ==> final(self)@.last == old(self)@.last && final(self)@.before_last == old(self)@.before_last,
    {
        let full_frame = self.counter == 0;
        proof {
            let c = self.counter as nat;
            let p = self.period as nat;
            if c + 1 == p {
                vstd::arithmetic::div_mod::lemma_mod_self_0(p as int);
            } else {
                vstd::arithmetic::div_mod::lemma_small_mod(c + 1, p);
            }
        }
        self.counter = if self.counter + 1 == self.period {
            0
        } else {
            self.counter + 1
        };
        let repeating = same_delta(&delta, &self.last) || same_delta(&delta, &self.before_last);
        if !repeating {
            let mut latest = delta;
            std::mem::swap(&mut self.last, &mut latest);
            self.before_last = latest;
        }
        Action { full_frame, repeating }
    }
}

} // verus!
