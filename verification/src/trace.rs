//! The record of the draws made during one walk, which ties what the
//! generator does to the model of the walk.

use crate::source::DrawSource;
use crate::walk::draw;
use vstd::prelude::*;

verus! {

/// Whether the stream `s` starts with the draws recorded in `log`.
pub open spec fn extends(s: Seq<int>, log: Seq<int>) -> bool {
    &&& log.len() <= s.len()
    &&& forall|i: int| #![trigger log[i]] 0 <= i < log.len() ==> s[i] == log[i]
}

/// A stream that starts with a log and one more draw starts with the log
/// and holds the draw behind it.
pub proof fn lemma_extends_push(s: Seq<int>, log: Seq<int>, r: int)
    requires
        extends(s, log.push(r)),
    ensures
        extends(s, log),
        log.len() < s.len(),
        s[log.len() as int] == r,
{
    assert(log.push(r)[log.len() as int] == r);
    assert forall|i: int| #![trigger log[i]] 0 <= i < log.len() implies s[i] == log[i] by {
        assert(log.push(r)[i] == log[i]);
    }
}

/// A stream that starts with a log starts with every log that the log
/// starts with.
pub proof fn lemma_extends_trans(s: Seq<int>, mid: Seq<int>, log: Seq<int>)
    requires
        extends(s, mid),
        extends(mid, log),
    ensures
        extends(s, log),
{
    assert forall|i: int| #![trigger log[i]] 0 <= i < log.len() implies s[i] == log[i] by {
        assert(mid[i] == log[i]);
    }
}

/// A log starts with itself.
pub proof fn lemma_extends_self(log: Seq<int>)
    ensures
        extends(log, log),
{
}

/// Draws from `lo..=hi` and records the draw behind `log`.
pub(crate) fn draw_logged<S: DrawSource>(
    source: &mut S,
    lo: usize,
    hi: usize,
    Ghost(log): Ghost<Seq<int>>,
) -> (r: (usize, Ghost<Seq<int>>))
    requires
        lo <= hi,
    ensures
        lo <= r.0 <= hi,
        r.1@ == log.push(r.0 as int),
        extends(r.1@, log),
        forall|s: Seq<int>| #[trigger]
            extends(s, r.1@) ==> extends(s, log) && draw(s, log.len(), lo as int, hi as int)
                == r.0,
        old(source).script() matches Some(s) ==> {
            &&& final(source).script() == Some(s)
            &&& final(source).position() == old(source).position() + 1
            &&& r.0 == draw(s, old(source).position(), lo as int, hi as int)
        },
{
    let value = source.draw(lo, hi);
    let ghost log2 = log.push(value as int);
    proof {
        assert forall|s: Seq<int>| #[trigger] extends(s, log2) implies extends(s, log) && draw(
            s,
            log.len(),
            lo as int,
            hi as int,
        ) == value by {
            lemma_extends_push(s, log, value as int);
        }
    }
    (value, Ghost(log2))
}

} // verus!
