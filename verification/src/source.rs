//! Sources of draws: the pseudo-random generator, and a tape of scripted
//! draws for reproducible walks.

use crate::random::draw_alphanumeric;
use crate::random::draw_inclusive;
use crate::random::is_alphanumeric;
use crate::walk::alphabet;
use crate::walk::draw;
use rand::rngs::StdRng;
use vstd::prelude::*;
use vstd::string::StrSliceExecFns;

verus! {

/// A source that hands out one value for each request of a draw from a
/// range.
pub trait DrawSource {
    /// The script that the source follows, if it follows one: the stream
    /// from which its draws are read.
    spec fn script(&self) -> Option<Seq<int>>;

    /// The number of draws that a source with a script has made.
    spec fn position(&self) -> nat;

    /// Draws one value from `lo..=hi`. A source with a script hands out the
    /// value that the model of the walk reads from the script at its
    /// position, and moves on by one.
    fn draw(&mut self, lo: usize, hi: usize) -> (r: usize)
        requires
            lo <= hi,
        ensures
            lo <= r <= hi,
            old(self).script() matches Some(s) ==> {
                &&& final(self).script() == Some(s)
                &&& final(self).position() == old(self).position() + 1
                &&& r == draw(s, old(self).position(), lo as int, hi as int)
            },
    ;

    /// Draws one ASCII letter or digit. A source with a script hands out
    /// the member of the alphabet that the next draw selects, and moves on
    /// by one.
    fn draw_letter(&mut self) -> (c: char)
        ensures
            is_alphanumeric(c),
            old(self).script() matches Some(s) ==> {
                &&& final(self).script() == Some(s)
                &&& final(self).position() == old(self).position() + 1
                &&& c == alphabet()[draw(s, old(self).position(), 0, alphabet().len() - 1)]
            },
    ;
}

/// Every member of the alphabet is an ASCII letter or digit.
pub proof fn lemma_alphabet()
    ensures
        alphabet().len() == 62,
        forall|i: int| 0 <= i < 62 ==> is_alphanumeric(#[trigger] alphabet()[i]),
{
    reveal_strlit("ABCDEFGHIJKLMNOPQRSTUVWXYZabcdefghijklmnopqrstuvwxyz0123456789");
}

impl DrawSource for StdRng {
    /// A pseudo-random generator follows no script.
    open spec fn script(&self) -> Option<Seq<int>> {
        None
    }

    /// Without a script the position says nothing.
    open spec fn position(&self) -> nat {
        0
    }

    /// Draws with `Rng::gen_range`.
    fn draw(&mut self, lo: usize, hi: usize) -> (r: usize) {
        draw_inclusive(self, lo, hi)
    }

    /// Draws with `Rng::sample` from the `Alphanumeric` distribution.
    fn draw_letter(&mut self) -> (c: char) {
        draw_alphanumeric(self)
    }
}

/// A tape of scripted draws. Each request reads the next entry; an entry
/// outside the requested range, or a request behind the end of the tape, is
/// answered with the lower end of the range.
pub struct Tape {
    values: Vec<usize>,
    next: usize,
    made: Ghost<nat>,
}

/// The entries of a tape as a stream of draws.
pub open spec fn stream_of(values: Seq<usize>) -> Seq<int> {
    Seq::new(values.len(), |i: int| values[i] as int)
}

impl Tape {
    /// Whether the reading head is where the draws made so far put it.
    spec fn in_step(&self) -> bool {
        if self.made@ < self.values.len() {
            self.next == self.made@
        } else {
            self.next == self.values.len()
        }
    }

    /// A tape with the given entries, at its start.
    pub fn new(values: Vec<usize>) -> (tape: Tape)
        ensures
            tape.script() == Some(stream_of(values@)),
            tape.position() == 0,
    {
        Tape { values, next: 0, made: Ghost(0) }
    }

    /// The number of entries that have been read.
    pub fn entries_read(&self) -> (n: usize)
        ensures
            self.script() matches Some(s) ==> n == if self.position() < s.len() {
                self.position()
            } else {
                s.len()
            },
    {
        self.next
    }
}

impl DrawSource for Tape {
    /// The entries of the tape.
    closed spec fn script(&self) -> Option<Seq<int>> {
        if self.in_step() {
            Some(stream_of(self.values@))
        } else {
            None
        }
    }

    /// The number of requests answered so far.
    closed spec fn position(&self) -> nat {
        self.made@
    }

    /// Reads the next entry, if one is left.
    fn draw(&mut self, lo: usize, hi: usize) -> (r: usize) {
        let ghost made = self.made@;
        self.made = Ghost((made + 1) as nat);
        if self.next < self.values.len() {
            let value = self.values[self.next];
            self.next += 1;
            if lo <= value && value <= hi {
                value
            } else {
                lo
            }
        } else {
            lo
        }
    }

    /// Reads the next entry as an index into the alphabet.
    fn draw_letter(&mut self) -> (c: char) {
        let letters = "ABCDEFGHIJKLMNOPQRSTUVWXYZabcdefghijklmnopqrstuvwxyz0123456789";
        proof {
            lemma_alphabet();
        }
        let idx = self.draw(0, 61);
        letters.get_char(idx)
    }
}

} // verus!
