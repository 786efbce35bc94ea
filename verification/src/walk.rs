//! The mathematical model of generation: what walking a node yields, given
//! the context and the values that the random source hands out.

use crate::context::ContextView;
use crate::error::GenrexErrorView;
use crate::text::byte_len;
use crate::tokens::unbounded;
use crate::tokens::Node;
use vstd::prelude::*;

verus! {

/// What walking a node yields: the text or the error, the context as the
/// walk leaves it, and the position in the stream of draws behind the last
/// draw that the walk used.
pub struct Outcome {
    pub result: Result<Seq<char>, GenrexErrorView>,
    pub ctx: ContextView,
    pub pos: nat,
}

/// The repetition count chosen for a quantifier, and the position in the
/// stream of draws behind the choice.
pub struct Count {
    pub count: nat,
    pub pos: nat,
}

/// The value that the random source hands out for a request in `lo..=hi`
/// made at position `pos` of the stream. The stream records the values in
/// the order of the requests; so that the model is total, an entry that is
/// missing or outside the requested range is read as `lo`.
pub open spec fn draw(draws: Seq<int>, pos: nat, lo: int, hi: int) -> int {
    if pos < draws.len() && lo <= draws[pos as int] <= hi {
        draws[pos as int]
    } else {
        lo
    }
}

/// The characters that a wildcard chooses from.
pub open spec fn alphabet() -> Seq<char> {
    "ABCDEFGHIJKLMNOPQRSTUVWXYZabcdefghijklmnopqrstuvwxyz0123456789"@
}

/// The error for a class without members.
pub open spec fn empty_class_error() -> GenrexErrorView {
    GenrexErrorView::Internal("Empty class"@)
}

/// The error for an alternation without branches.
pub open spec fn empty_alternation_error() -> GenrexErrorView {
    GenrexErrorView::Internal("Empty alternation"@)
}

/// The error for a quantifier whose lower bound exceeds its upper bound.
pub open spec fn inverted_bounds_error() -> GenrexErrorView {
    GenrexErrorView::Internal("Quantifier min > max"@)
}

/// The error for a negated class.
pub open spec fn negated_class_error() -> GenrexErrorView {
    GenrexErrorView::UnsupportedFeature("Negated class generation"@)
}

/// The error for a reference to group 0.
pub open spec fn zero_reference_error() -> GenrexErrorView {
    GenrexErrorView::BackreferenceError("backreference index 0 is invalid"@)
}

/// The largest repetition count of a quantifier: its upper bound, or, where
/// it has none, its lower bound plus the repetition bound of the context,
/// as far as a machine word can hold it.
pub open spec fn effective_max(min: nat, max: nat, bound: nat) -> nat {
    if max == unbounded() {
        if min + bound > usize::MAX {
            usize::MAX as nat
        } else {
            min + bound
        }
    } else {
        max
    }
}

/// The repetition count of a quantifier with `min <= max`. Equal bounds fix
/// the count and use no draw. Otherwise two draws are made from the range of
/// admissible counts: a greedy quantifier takes the larger, a lazy one the
/// smaller.
pub open spec fn repeat_count(
    min: nat,
    max: nat,
    greedy: bool,
    bound: nat,
    draws: Seq<int>,
    pos: nat,
) -> Count {
    if min == max {
        Count { count: min, pos }
    } else {
        let top = effective_max(min, max, bound);
        let a = draw(draws, pos, min as int, top as int);
        let b = draw(draws, pos + 1, min as int, top as int);
        let larger = if a >= b {
            a
        } else {
            b
        };
        let smaller = if a <= b {
            a
        } else {
            b
        };
        Count {
            count: if greedy {
                larger as nat
            } else {
                smaller as nat
            },
            pos: pos + 2,
        }
    }
}

/// Walks `node`: the text it generates from the context `ctx`, with the
/// draws read from position `pos` on.
///
/// A literal yields its character. A class yields the member that one draw
/// selects; without members it is an internal error. A negated class is
/// unsupported. A concatenation yields its parts in order. An alternation
/// yields the branch that one draw selects, walked with the cursor at 0;
/// without branches it is an internal error. A quantifier with inverted
/// bounds is an internal error; otherwise it repeats its node as often as
/// [`repeat_count`] says. A group walks its node with the cursor at 0 and
/// records the text under its identity; a non-capturing group does the same
/// and records nothing. A reference to group 0 is an error; any other
/// reference yields the text held for its group or, if there is none,
/// nothing, and is then noted as unresolved at the cursor. Anchors and word
/// boundaries yield nothing. A wildcard yields the letter or digit that one
/// draw selects.
pub open spec fn walk(node: Node, ctx: ContextView, draws: Seq<int>, pos: nat) -> Outcome
    decreases node, 0nat,
{
    match node {
        Node::Literal(c) => Outcome { result: Ok(seq![c]), ctx, pos },
        Node::Class(chars) => if chars.len() == 0 {
            Outcome { result: Err(empty_class_error()), ctx, pos }
        } else {
            Outcome {
                result: Ok(seq![chars[draw(draws, pos, 0, chars.len() - 1)]]),
                ctx,
                pos: pos + 1,
            }
        },
        Node::NegatedClass(_) => Outcome { result: Err(negated_class_error()), ctx, pos },
        Node::Concatenation(parts) => walk_concat(parts, 0, Seq::empty(), ctx, draws, pos),
        Node::Alternation(branches) => if branches.len() == 0 {
            Outcome { result: Err(empty_alternation_error()), ctx, pos }
        } else {
            let choice = draw(draws, pos, 0, branches.len() - 1);
            walk(branches[choice], ctx.with_cursor(0), draws, pos + 1)
        },
        Node::Quantifier { node: inner, min, max, greedy } => if min > max {
            Outcome { result: Err(inverted_bounds_error()), ctx, pos }
        } else {
            let chosen = repeat_count(min, max, greedy, ctx.max_repeat, draws, pos);
            walk_repeat(*inner, chosen.count, Seq::empty(), ctx, draws, chosen.pos)
        },
        Node::Group(inner, id) => {
            let o = walk(*inner, ctx.with_cursor(0), draws, pos);
            match o.result {
                Ok(text) => Outcome { result: Ok(text), ctx: o.ctx.record(id, text), pos: o.pos },
                Err(_) => o,
            }
        },
        Node::NonCapturingGroup(inner) => walk(*inner, ctx.with_cursor(0), draws, pos),
        Node::Backreference(id) => if id == 0 {
            Outcome { result: Err(zero_reference_error()), ctx, pos }
        } else {
            match ctx.lookup(id) {
                Some(text) => Outcome { result: Ok(text), ctx, pos },
                None => Outcome { result: Ok(Seq::empty()), ctx: ctx.defer(id), pos },
            }
        },
        Node::AnchorStart => Outcome { result: Ok(Seq::empty()), ctx, pos },
        Node::AnchorEnd => Outcome { result: Ok(Seq::empty()), ctx, pos },
        Node::WordBoundary => Outcome { result: Ok(Seq::empty()), ctx, pos },
        Node::Wildcard => Outcome {
            result: Ok(seq![alphabet()[draw(draws, pos, 0, alphabet().len() - 1)]]),
            ctx,
            pos: pos + 1,
        },
    }
}

/// Walks `parts[i..]` in order, after `acc` was generated from the parts
/// before. Each part sees the cursor at the number of bytes generated so
/// far; the first error ends the walk.
pub open spec fn walk_concat(
    parts: Seq<Node>,
    i: nat,
    acc: Seq<char>,
    ctx: ContextView,
    draws: Seq<int>,
    pos: nat,
) -> Outcome
    decreases parts, parts.len() - i,
{
    if i >= parts.len() {
        Outcome { result: Ok(acc), ctx, pos }
    } else {
        let o = walk(parts[i as int], ctx.with_cursor(byte_len(acc)), draws, pos);
        match o.result {
            Ok(text) => walk_concat(parts, i + 1, acc + text, o.ctx, draws, o.pos),
            Err(_) => o,
        }
    }
}

/// Walks `node` another `remaining` times, after `acc` was generated by the
/// repetitions before. Each repetition sees the cursor at the number of
/// bytes generated so far; the first error ends the walk.
pub open spec fn walk_repeat(
    node: Node,
    remaining: nat,
    acc: Seq<char>,
    ctx: ContextView,
    draws: Seq<int>,
    pos: nat,
) -> Outcome
    decreases node, remaining,
{
    if remaining == 0 {
        Outcome { result: Ok(acc), ctx, pos }
    } else {
        let o = walk(node, ctx.with_cursor(byte_len(acc)), draws, pos);
        match o.result {
            Ok(text) => walk_repeat(node, (remaining - 1) as nat, acc + text, o.ctx, draws, o.pos),
            Err(_) => o,
        }
    }
}

/// Walks a list of nodes as the parts of one concatenation.
pub open spec fn walk_all(parts: Seq<Node>, ctx: ContextView, draws: Seq<int>, pos: nat) -> Outcome {
    walk_concat(parts, 0, Seq::empty(), ctx, draws, pos)
}

} // verus!
