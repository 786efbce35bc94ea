//! Laws of the node generator, stated over the model of the walk.

use crate::context::ContextView;
use crate::text::byte_len;
use crate::text::lemma_byte_len_concat;
use crate::tokens::Node;
use crate::walk::effective_max;
use crate::walk::empty_alternation_error;
use crate::walk::empty_class_error;
use crate::walk::inverted_bounds_error;
use crate::walk::negated_class_error;
use crate::walk::repeat_count;
use crate::walk::walk;
use crate::walk::walk_concat;
use crate::walk::walk_repeat;
use vstd::prelude::*;

verus! {

/// A quantifier whose bounds are equal makes exactly that many repetitions,
/// whatever the random source hands out, and asks it for nothing.
pub proof fn law_exact_quantifier(
    inner: Node,
    n: nat,
    greedy: bool,
    ctx: ContextView,
    draws: Seq<int>,
    pos: nat,
)
    ensures
        walk(Node::Quantifier { node: Box::new(inner), min: n, max: n, greedy }, ctx, draws, pos)
            == walk_repeat(inner, n, Seq::empty(), ctx, draws, pos),
        repeat_count(n, n, greedy, ctx.max_repeat, draws, pos).count == n,
        repeat_count(n, n, greedy, ctx.max_repeat, draws, pos).pos == pos,
{
}

/// Repeating a literal `n` times yields `n` copies of its character after
/// what was generated before.
pub proof fn law_repeat_literal(
    c: char,
    n: nat,
    acc: Seq<char>,
    ctx: ContextView,
    draws: Seq<int>,
    pos: nat,
)
    ensures
        walk_repeat(Node::Literal(c), n, acc, ctx, draws, pos).result == Ok::<
            Seq<char>,
            crate::error::GenrexErrorView,
        >(acc + Seq::new(n, |i: int| c)),
        walk_repeat(Node::Literal(c), n, acc, ctx, draws, pos).pos == pos,
    decreases n,
{
    if n == 0 {
        assert(acc + Seq::new(n, |i: int| c) =~= acc);
    } else {
        let next = ctx.with_cursor(byte_len(acc));
        assert(walk(Node::Literal(c), next, draws, pos).result == Ok::<
            Seq<char>,
            crate::error::GenrexErrorView,
        >(seq![c]));
        law_repeat_literal(c, (n - 1) as nat, acc + seq![c], next, draws, pos);
        assert(walk_repeat(Node::Literal(c), n, acc, ctx, draws, pos) == walk_repeat(
            Node::Literal(c),
            (n - 1) as nat,
            acc + seq![c],
            next,
            draws,
            pos,
        ));
        assert(acc + seq![c] + Seq::new((n - 1) as nat, |i: int| c) =~= acc + Seq::new(
            n,
            |i: int| c,
        ));
    }
}

/// The count chosen for a quantifier with ordered bounds lies between its
/// lower bound and its largest count, whatever the random source hands
/// out.
pub proof fn law_count_within_bounds(
    min: nat,
    max: nat,
    greedy: bool,
    bound: nat,
    draws: Seq<int>,
    pos: nat,
)
    requires
        min <= max,
    ensures
        min <= repeat_count(min, max, greedy, bound, draws, pos).count <= effective_max(
            min,
            max,
            bound,
        ),
        max != crate::tokens::unbounded() ==> effective_max(min, max, bound) == max,
{
}

/// A quantified literal yields copies of its character and nothing else,
/// at least as many as the lower bound and at most as many as the largest
/// count, whatever the random source hands out.
pub proof fn law_quantified_literal(
    c: char,
    min: nat,
    max: nat,
    greedy: bool,
    ctx: ContextView,
    draws: Seq<int>,
    pos: nat,
)
    requires
        min <= max,
    ensures
        walk(
            Node::Quantifier { node: Box::new(Node::Literal(c)), min, max, greedy },
            ctx,
            draws,
            pos,
        ).result == Ok::<Seq<char>, crate::error::GenrexErrorView>(
            Seq::new(repeat_count(min, max, greedy, ctx.max_repeat, draws, pos).count, |i: int| c),
        ),
        min <= repeat_count(min, max, greedy, ctx.max_repeat, draws, pos).count <= effective_max(
            min,
            max,
            ctx.max_repeat,
        ),
{
    let chosen = repeat_count(min, max, greedy, ctx.max_repeat, draws, pos);
    law_count_within_bounds(min, max, greedy, ctx.max_repeat, draws, pos);
    law_repeat_literal(c, chosen.count, Seq::empty(), ctx, draws, chosen.pos);
    assert(Seq::<char>::empty() + Seq::new(chosen.count, |i: int| c) =~= Seq::new(
        chosen.count,
        |i: int| c,
    ));
}

/// A quantifier whose lower bound exceeds its upper bound fails with an
/// internal error, whatever the context and the random source: the failure
/// is never reported as a missing match.
pub proof fn law_inverted_bounds(
    inner: Node,
    min: nat,
    max: nat,
    greedy: bool,
    ctx: ContextView,
    draws: Seq<int>,
    pos: nat,
)
    requires
        min > max,
    ensures
        walk(Node::Quantifier { node: Box::new(inner), min, max, greedy }, ctx, draws, pos).result
            == Err::<Seq<char>, crate::error::GenrexErrorView>(inverted_bounds_error()),
        inverted_bounds_error() is Internal,
{
}

/// A negated class fails with an unsupported-feature error, whatever the
/// context and the random source.
pub proof fn law_negated_class(chars: Seq<char>, ctx: ContextView, draws: Seq<int>, pos: nat)
    ensures
        walk(Node::NegatedClass(chars), ctx, draws, pos).result == Err::<
            Seq<char>,
            crate::error::GenrexErrorView,
        >(negated_class_error()),
        negated_class_error() is UnsupportedFeature,
{
}

/// A class without members and an alternation without branches fail with an
/// internal error, whatever the context and the random source.
pub proof fn law_empty_choice(ctx: ContextView, draws: Seq<int>, pos: nat)
    ensures
        walk(Node::Class(Seq::empty()), ctx, draws, pos).result == Err::<
            Seq<char>,
            crate::error::GenrexErrorView,
        >(empty_class_error()),
        walk(Node::Alternation(Seq::empty()), ctx, draws, pos).result == Err::<
            Seq<char>,
            crate::error::GenrexErrorView,
        >(empty_alternation_error()),
        empty_class_error() is Internal,
        empty_alternation_error() is Internal,
{
}

/// What a repetition yields starts with what was generated before it.
pub proof fn law_repeat_extends(
    node: Node,
    n: nat,
    acc: Seq<char>,
    ctx: ContextView,
    draws: Seq<int>,
    pos: nat,
)
    ensures
        walk_repeat(node, n, acc, ctx, draws, pos).result matches Ok(text) ==> acc.is_prefix_of(
            text,
        ),
    decreases n,
{
    if n > 0 {
        let o = walk(node, ctx.with_cursor(byte_len(acc)), draws, pos);
        if let Ok(piece) = o.result {
            law_repeat_extends(node, (n - 1) as nat, acc + piece, o.ctx, draws, o.pos);
            let r = walk_repeat(node, n, acc, ctx, draws, pos).result;
            if let Ok(text) = r {
                assert(acc =~= (acc + piece).subrange(0, acc.len() as int));
                assert(acc =~= text.subrange(0, acc.len() as int));
            }
        }
    } else {
        assert(acc =~= acc.subrange(0, acc.len() as int));
    }
}

/// With the same context and the same draws, fewer repetitions of a node
/// yield a prefix of what more repetitions yield, and succeed where more
/// repetitions succeed.
pub proof fn law_repeat_prefix(
    node: Node,
    fewer: nat,
    more: nat,
    acc: Seq<char>,
    ctx: ContextView,
    draws: Seq<int>,
    pos: nat,
)
    requires
        fewer <= more,
    ensures
        walk_repeat(node, more, acc, ctx, draws, pos).result matches Ok(long) ==> (walk_repeat(
            node,
            fewer,
            acc,
            ctx,
            draws,
            pos,
        ).result matches Ok(short) && short.is_prefix_of(long)),
    decreases fewer,
{
    if fewer == 0 {
        law_repeat_extends(node, more, acc, ctx, draws, pos);
    } else {
        let o = walk(node, ctx.with_cursor(byte_len(acc)), draws, pos);
        if let Ok(piece) = o.result {
            law_repeat_prefix(
                node,
                (fewer - 1) as nat,
                (more - 1) as nat,
                acc + piece,
                o.ctx,
                draws,
                o.pos,
            );
        }
    }
}

/// The count that a lazy quantifier chooses is at most the count that a
/// greedy quantifier with the same bounds chooses from the same draws.
pub proof fn law_lazy_count_below_greedy(
    min: nat,
    max: nat,
    bound: nat,
    draws: Seq<int>,
    pos: nat,
)
    requires
        min <= max,
    ensures
        repeat_count(min, max, false, bound, draws, pos).count <= repeat_count(
            min,
            max,
            true,
            bound,
            draws,
            pos,
        ).count,
        repeat_count(min, max, false, bound, draws, pos).pos == repeat_count(
            min,
            max,
            true,
            bound,
            draws,
            pos,
        ).pos,
{
}

/// Given the same context and the same stream of draws, a lazy quantifier
/// yields a prefix of what the greedy quantifier with the same node and
/// bounds yields: the greedy output is at least as long, in characters and
/// in bytes. The lazy walk succeeds where the greedy walk succeeds.
pub proof fn law_greedy_dominates(
    inner: Node,
    min: nat,
    max: nat,
    ctx: ContextView,
    draws: Seq<int>,
    pos: nat,
)
    ensures
        walk(
            Node::Quantifier { node: Box::new(inner), min, max, greedy: true },
            ctx,
            draws,
            pos,
        ).result matches Ok(long) ==> (walk(
            Node::Quantifier { node: Box::new(inner), min, max, greedy: false },
            ctx,
            draws,
            pos,
        ).result matches Ok(short) && short.is_prefix_of(long) && short.len() <= long.len()
            && byte_len(short) <= byte_len(long)),
{
    if min <= max {
        law_lazy_count_below_greedy(min, max, ctx.max_repeat, draws, pos);
        let greedy = repeat_count(min, max, true, ctx.max_repeat, draws, pos);
        let lazy = repeat_count(min, max, false, ctx.max_repeat, draws, pos);
        law_repeat_prefix(inner, lazy.count, greedy.count, Seq::empty(), ctx, draws, greedy.pos);
        let long_result = walk_repeat(
            inner,
            greedy.count,
            Seq::empty(),
            ctx,
            draws,
            greedy.pos,
        ).result;
        let short_result = walk_repeat(
            inner,
            lazy.count,
            Seq::empty(),
            ctx,
            draws,
            greedy.pos,
        ).result;
        if let Ok(long) = long_result {
            if let Ok(short) = short_result {
                let rest = long.subrange(short.len() as int, long.len() as int);
                assert(long =~= short + rest);
                lemma_byte_len_concat(short, rest);
            }
        }
    }
}

/// The text recorded for a group is the text then held for it, whatever
/// was held before: the last completion wins.
pub proof fn law_record_then_lookup(ctx: ContextView, id: nat, text: Seq<char>)
    requires
        id >= 1,
    ensures
        ctx.record(id, text).lookup(id) == Some(text),
        ctx.record(id, text).captures.len() > 0,
{
}

/// Recording a text for one group leaves the texts of the other groups,
/// the repetition bound, the cursor and the unresolved references as they
/// were.
pub proof fn law_record_keeps_others(ctx: ContextView, id: nat, text: Seq<char>, other: nat)
    requires
        id >= 1,
        other >= 1,
        other != id,
    ensures
        ctx.record(id, text).lookup(other) == ctx.lookup(other),
        ctx.record(id, text).max_repeat == ctx.max_repeat,
        ctx.record(id, text).cursor == ctx.cursor,
        ctx.record(id, text).unresolved == ctx.unresolved,
{
}

/// A capturing group yields what its node yields and, where that is a
/// text, leaves it as the text of its identity.
pub proof fn law_group_captures(
    inner: Node,
    id: nat,
    ctx: ContextView,
    draws: Seq<int>,
    pos: nat,
)
    requires
        id >= 1,
    ensures
        walk(Node::Group(Box::new(inner), id), ctx, draws, pos).result == walk(
            inner,
            ctx.with_cursor(0),
            draws,
            pos,
        ).result,
        walk(Node::Group(Box::new(inner), id), ctx, draws, pos).result matches Ok(text) ==> walk(
            Node::Group(Box::new(inner), id),
            ctx,
            draws,
            pos,
        ).ctx.lookup(id) == Some(text),
{
    let o = walk(inner, ctx.with_cursor(0), draws, pos);
    if let Ok(text) = o.result {
        law_record_then_lookup(o.ctx, id, text);
    }
}

/// A reference to a group that directly follows the group repeats the text
/// of the group: the two together yield the text twice, whatever the node
/// of the group and whatever the random source hands out. Where the node
/// of the group fails, the two fail with its error.
pub proof fn law_backward_reference(
    inner: Node,
    id: nat,
    ctx: ContextView,
    draws: Seq<int>,
    pos: nat,
)
    requires
        id >= 1,
    ensures
        match walk(inner, ctx.with_cursor(0), draws, pos).result {
            Ok(text) => walk(
                Node::Concatenation(
                    seq![Node::Group(Box::new(inner), id), Node::Backreference(id)],
                ),
                ctx,
                draws,
                pos,
            ).result == Ok::<Seq<char>, crate::error::GenrexErrorView>(text + text),
            Err(e) => walk(
                Node::Concatenation(
                    seq![Node::Group(Box::new(inner), id), Node::Backreference(id)],
                ),
                ctx,
                draws,
                pos,
            ).result == Err::<Seq<char>, crate::error::GenrexErrorView>(e),
        },
{
    let group = Node::Group(Box::new(inner), id);
    let parts = seq![group, Node::Backreference(id)];
    let empty = Seq::<char>::empty();
    assert(byte_len(empty) == 0);
    let first = walk(group, ctx.with_cursor(0), draws, pos);
    law_group_captures(inner, id, ctx.with_cursor(0), draws, pos);
    assert(ctx.with_cursor(0).with_cursor(0) == ctx.with_cursor(0));
    assert(walk_concat(parts, 0, empty, ctx, draws, pos) == match first.result {
        Ok(text) => walk_concat(parts, 1, empty + text, first.ctx, draws, first.pos),
        Err(_) => first,
    });
    if let Ok(text) = first.result {
        assert(empty + text =~= text);
        let at = first.ctx.with_cursor(byte_len(text));
        assert(at.lookup(id) == Some(text));
        let second = walk(Node::Backreference(id), at, draws, first.pos);
        assert(second.result == Ok::<Seq<char>, crate::error::GenrexErrorView>(text));
        assert(walk_concat(parts, 1, text, first.ctx, draws, first.pos) == walk_concat(
            parts,
            2,
            text + text,
            second.ctx,
            draws,
            second.pos,
        ));
    }
}

/// Whether no capturing group occurs in `node`.
pub open spec fn group_free(node: Node) -> bool
    decreases node, 0nat,
{
    match node {
        Node::Concatenation(parts) => all_group_free(parts, 0),
        Node::Alternation(branches) => all_group_free(branches, 0),
        Node::Quantifier { node: inner, .. } => group_free(*inner),
        Node::Group(_, _) => false,
        Node::NonCapturingGroup(inner) => group_free(*inner),
        _ => true,
    }
}

/// Whether no capturing group occurs in `nodes[i..]`.
pub open spec fn all_group_free(nodes: Seq<Node>, i: nat) -> bool
    decreases nodes, nodes.len() - i,
{
    i < nodes.len() ==> group_free(nodes[i as int]) && all_group_free(nodes, i + 1)
}

/// Where no group occurs from `i` on, none occurs in the node at `k` or
/// from `k` on.
proof fn lemma_all_group_free_at(nodes: Seq<Node>, i: nat, k: nat)
    requires
        all_group_free(nodes, i),
        i <= k < nodes.len(),
    ensures
        group_free(nodes[k as int]),
        all_group_free(nodes, k),
    decreases k - i,
{
    if i < k {
        lemma_all_group_free_at(nodes, i + 1, k);
    }
}

/// Walking a node without capturing groups leaves the capture table as it
/// was: non-capturing groups, in particular, record nothing.
pub proof fn law_group_free_keeps_captures(
    node: Node,
    ctx: ContextView,
    draws: Seq<int>,
    pos: nat,
)
    requires
        group_free(node),
    ensures
        walk(node, ctx, draws, pos).ctx.captures == ctx.captures,
        walk(node, ctx, draws, pos).ctx.max_repeat == ctx.max_repeat,
    decreases node, 0nat,
{
    match node {
        Node::Concatenation(parts) => {
            law_concat_keeps_captures(parts, 0, Seq::empty(), ctx, draws, pos);
        },
        Node::Alternation(branches) => {
            if branches.len() > 0 {
                let choice = crate::walk::draw(draws, pos, 0, branches.len() - 1);
                lemma_all_group_free_at(branches, 0, choice as nat);
                law_group_free_keeps_captures(
                    branches[choice],
                    ctx.with_cursor(0),
                    draws,
                    pos + 1,
                );
            }
        },
        Node::Quantifier { node: inner, min, max, greedy } => {
            if min <= max {
                let chosen = repeat_count(min, max, greedy, ctx.max_repeat, draws, pos);
                law_repeat_keeps_captures(
                    *inner,
                    chosen.count,
                    Seq::empty(),
                    ctx,
                    draws,
                    chosen.pos,
                );
            }
        },
        Node::NonCapturingGroup(inner) => {
            law_group_free_keeps_captures(*inner, ctx.with_cursor(0), draws, pos);
        },
        _ => {},
    }
}

/// The parts of a concatenation without capturing groups leave the capture
/// table as it was.
proof fn law_concat_keeps_captures(
    parts: Seq<Node>,
    i: nat,
    acc: Seq<char>,
    ctx: ContextView,
    draws: Seq<int>,
    pos: nat,
)
    requires
        all_group_free(parts, i),
    ensures
        walk_concat(parts, i, acc, ctx, draws, pos).ctx.captures == ctx.captures,
        walk_concat(parts, i, acc, ctx, draws, pos).ctx.max_repeat == ctx.max_repeat,
    decreases parts, parts.len() - i,
{
    if i < parts.len() {
        let start = ctx.with_cursor(byte_len(acc));
        law_group_free_keeps_captures(parts[i as int], start, draws, pos);
        let o = walk(parts[i as int], start, draws, pos);
        if let Ok(piece) = o.result {
            law_concat_keeps_captures(parts, i + 1, acc + piece, o.ctx, draws, o.pos);
        }
    }
}

/// The repetitions of a node without capturing groups leave the capture
/// table as it was.
proof fn law_repeat_keeps_captures(
    node: Node,
    remaining: nat,
    acc: Seq<char>,
    ctx: ContextView,
    draws: Seq<int>,
    pos: nat,
)
    requires
        group_free(node),
    ensures
        walk_repeat(node, remaining, acc, ctx, draws, pos).ctx.captures == ctx.captures,
        walk_repeat(node, remaining, acc, ctx, draws, pos).ctx.max_repeat == ctx.max_repeat,
    decreases node, remaining,
{
    if remaining > 0 {
        let start = ctx.with_cursor(byte_len(acc));
        law_group_free_keeps_captures(node, start, draws, pos);
        let o = walk(node, start, draws, pos);
        if let Ok(piece) = o.result {
            law_repeat_keeps_captures(node, (remaining - 1) as nat, acc + piece, o.ctx, draws, o.pos);
        }
    }
}

} // verus!
