//! The identities that the tokenizer gives to capturing groups.

use crate::lexer::bounds_at;
use crate::lexer::class_piece;
use crate::lexer::escape_node;
use crate::lexer::group_end;
use crate::lexer::lemma_bounds_next;
use crate::lexer::lemma_find_either_bounds;
use crate::lexer::lemma_group_end_bounds;
use crate::lexer::lex;
use crate::lexer::lex_range;
use crate::lexer::past;
use crate::lexer::quantify;
use crate::tokens::unbounded;
use crate::tokens::Node;
use vstd::prelude::*;

verus! {

/// The identities of the capturing groups in `node`, in the order of their
/// opening parentheses.
pub open spec fn group_ids(node: Node) -> Seq<nat>
    decreases node, 0nat,
{
    match node {
        Node::Concatenation(parts) => ids_upto(parts, parts.len()),
        Node::Alternation(branches) => ids_upto(branches, branches.len()),
        Node::Quantifier { node: inner, .. } => group_ids(*inner),
        Node::Group(inner, id) => seq![id] + group_ids(*inner),
        Node::NonCapturingGroup(inner) => group_ids(*inner),
        _ => Seq::empty(),
    }
}

/// The identities of the capturing groups in the first `n` of `nodes`.
pub open spec fn ids_upto(nodes: Seq<Node>, n: nat) -> Seq<nat>
    decreases nodes, n,
{
    if n == 0 || n > nodes.len() {
        Seq::empty()
    } else {
        ids_upto(nodes, (n - 1) as nat) + group_ids(nodes[n - 1])
    }
}

/// The identities of the capturing groups in `nodes`, in the order of their
/// opening parentheses.
pub open spec fn ids_of(nodes: Seq<Node>) -> Seq<nat> {
    ids_upto(nodes, nodes.len())
}

/// The `count` numbers from `from` on.
pub open spec fn counting(from: nat, count: nat) -> Seq<nat> {
    Seq::new(count, |i: int| (from + i) as nat)
}

/// Lists that agree on their first `n` nodes have the same identities there.
proof fn lemma_ids_upto_prefix(a: Seq<Node>, b: Seq<Node>, n: nat)
    requires
        n <= a.len(),
        n <= b.len(),
        forall|k: int| 0 <= k < n ==> a[k] == b[k],
    ensures
        ids_upto(a, n) == ids_upto(b, n),
    decreases n,
{
    if n > 0 {
        lemma_ids_upto_prefix(a, b, (n - 1) as nat);
    }
}

/// Appending a node appends its identities.
proof fn lemma_ids_push(nodes: Seq<Node>, node: Node)
    ensures
        ids_of(nodes.push(node)) == ids_of(nodes) + group_ids(node),
{
    lemma_ids_upto_prefix(nodes.push(node), nodes, nodes.len());
}

/// The identities of a list end with those of its last node.
proof fn lemma_ids_drop_last(nodes: Seq<Node>)
    requires
        nodes.len() > 0,
    ensures
        ids_of(nodes) == ids_of(nodes.drop_last()) + group_ids(nodes.last()),
{
    lemma_ids_upto_prefix(nodes, nodes.drop_last(), (nodes.len() - 1) as nat);
}

/// Wrapping the last node in a quantifier keeps the identities.
proof fn lemma_quantify_keeps_ids(
    nodes: Seq<Node>,
    p: Seq<char>,
    at: int,
    to: int,
    min: nat,
    max: nat,
)
    ensures
        ids_of(quantify(nodes, p, at, to, min, max).nodes) == ids_of(nodes),
{
    if nodes.len() > 0 {
        let lazy = at < to && p[at] == '?';
        let wrapped = Node::Quantifier { node: Box::new(nodes.last()), min, max, greedy: !lazy };
        lemma_ids_push(nodes.drop_last(), wrapped);
        lemma_ids_drop_last(nodes);
    }
}

/// Scanning goes on at or behind the end of a quantifier.
proof fn lemma_quantify_next(nodes: Seq<Node>, p: Seq<char>, at: int, to: int, min: nat, max: nat)
    requires
        at <= to,
    ensures
        at <= quantify(nodes, p, at, to, min, max).next <= to,
{
}

/// The code of a character is a Unicode scalar value.
proof fn lemma_char_range(c: char)
    ensures
        0 <= c as int <= 0x10FFFF,
        !(0xD800 <= c as int <= 0xDFFF),
{
}

/// A literal holds no group.
proof fn lemma_literal_ids(c: char)
    ensures
        group_ids(Node::Literal(c)) == Seq::<nat>::empty(),
{
}

/// The node of an escape holds no group.
proof fn lemma_escape_ids(c: char)
    ensures
        group_ids(escape_node(c)) == Seq::<nat>::empty(),
{
}

/// Two runs of numbers that meet make one run.
proof fn lemma_counting_join(from: nat, a: nat, b: nat)
    ensures
        counting(from, a) + counting(from + a, b) == counting(from, a + b),
{
    assert(counting(from, a) + counting(from + a, b) =~= counting(from, a + b));
}

/// A number before the run that follows it makes one run.
proof fn lemma_counting_front(from: nat, count: nat)
    ensures
        seq![from] + counting(from + 1, count) == counting(from, count + 1),
{
    assert(seq![from] + counting(from + 1, count) =~= counting(from, count + 1));
}

/// Tokenizing a stretch of a pattern numbers its capturing groups
/// consecutively from the identity it is given, in the order of their
/// opening parentheses.
pub proof fn law_lex_range_numbers_groups(p: Seq<char>, i: int, to: int, acc: Seq<Node>, g: nat)
    requires
        0 <= i,
        to <= p.len(),
    ensures
        lex_range(p, i, to, acc, g).next_group >= g,
        ids_of(lex_range(p, i, to, acc, g).nodes) == ids_of(acc) + counting(
            g,
            (lex_range(p, i, to, acc, g).next_group - g) as nat,
        ),
        i <= to ==> lex_range(p, i, to, acc, g).next_group <= g + (to - i),
    decreases to - i,
{
    if i >= to {
        assert(ids_of(acc) + counting(g, 0) =~= ids_of(acc));
    } else {
        let c = p[i];
        if c == '[' {
            let piece = class_piece(p, i, to);
            lemma_find_either_bounds(p, i + 1, to, ']', ']');
            if i + 2 <= to {
                lemma_find_either_bounds(p, i + 2, to, ']', ']');
            }
            lemma_ids_push(acc, piece.node);
            assert(ids_of(acc) + group_ids(piece.node) =~= ids_of(acc));
            law_lex_range_numbers_groups(p, piece.next, to, acc.push(piece.node), g);
        } else if c == '.' {
            step_plain(p, i, to, acc, g, Node::Wildcard, i + 1);
        } else if c == '^' {
            step_plain(p, i, to, acc, g, Node::AnchorStart, i + 1);
        } else if c == '$' {
            step_plain(p, i, to, acc, g, Node::AnchorEnd, i + 1);
        } else if c == '\\' {
            if i + 1 < to {
                lemma_escape_ids(p[i + 1]);
                step_plain(p, i, to, acc, g, escape_node(p[i + 1]), i + 2);
            } else {
                law_lex_range_numbers_groups(p, i + 1, to, acc, g);
            }
        } else if c == '(' {
            if i + 2 < to && p[i + 1] == '?' && p[i + 2] == ':' {
                let close = group_end(p, i + 3, to, 1);
                lemma_group_end_bounds(p, i + 3, to, 1);
                let inner = lex_range(p, i + 3, close, Seq::empty(), g);
                law_lex_range_numbers_groups(p, i + 3, close, Seq::empty(), g);
                let body = Node::Concatenation(inner.nodes);
                let node = Node::NonCapturingGroup(Box::new(body));
                assert(group_ids(body) == ids_of(inner.nodes));
                assert(group_ids(node) == group_ids(body));
                assert(ids_of(Seq::<Node>::empty()) + counting(g, (inner.next_group - g) as nat)
                    =~= counting(g, (inner.next_group - g) as nat));
                assert(group_ids(node) == counting(g, (inner.next_group - g) as nat));
                lemma_ids_push(acc, node);
                law_lex_range_numbers_groups(p, past(close, to), to, acc.push(node), inner.next_group);
                let whole = lex_range(p, i, to, acc, g);
                lemma_counting_join(
                    g,
                    (inner.next_group - g) as nat,
                    (whole.next_group - inner.next_group) as nat,
                );
                assert(ids_of(acc) + counting(g, (inner.next_group - g) as nat) + counting(
                    inner.next_group,
                    (whole.next_group - inner.next_group) as nat,
                ) =~= ids_of(acc) + counting(g, (whole.next_group - g) as nat));
            } else {
                let close = group_end(p, i + 1, to, 1);
                lemma_group_end_bounds(p, i + 1, to, 1);
                let inner = lex_range(p, i + 1, close, Seq::empty(), g + 1);
                law_lex_range_numbers_groups(p, i + 1, close, Seq::empty(), g + 1);
                let body = Node::Concatenation(inner.nodes);
                let node = Node::Group(Box::new(body), g);
                assert(group_ids(body) == ids_of(inner.nodes));
                assert(group_ids(node) == seq![g] + group_ids(body));
                assert(ids_of(Seq::<Node>::empty()) + counting(
                    g + 1,
                    (inner.next_group - g - 1) as nat,
                ) =~= counting(g + 1, (inner.next_group - g - 1) as nat));
                lemma_counting_front(g, (inner.next_group - g - 1) as nat);
                assert(group_ids(node) == counting(g, (inner.next_group - g) as nat));
                lemma_ids_push(acc, node);
                law_lex_range_numbers_groups(p, past(close, to), to, acc.push(node), inner.next_group);
                let whole = lex_range(p, i, to, acc, g);
                lemma_counting_join(
                    g,
                    (inner.next_group - g) as nat,
                    (whole.next_group - inner.next_group) as nat,
                );
                assert(ids_of(acc) + counting(g, (inner.next_group - g) as nat) + counting(
                    inner.next_group,
                    (whole.next_group - inner.next_group) as nat,
                ) =~= ids_of(acc) + counting(g, (whole.next_group - g) as nat));
            }
        } else if c == '?' {
            step_quantified(p, i, to, acc, g, i + 1, 0, 1);
        } else if c == '*' {
            step_quantified(p, i, to, acc, g, i + 1, 0, unbounded());
        } else if c == '+' {
            step_quantified(p, i, to, acc, g, i + 1, 1, unbounded());
        } else if c == '{' {
            let b = bounds_at(p, i, to);
            lemma_bounds_next(p, i, to);
            step_quantified(p, i, to, acc, g, b.next, b.min, b.max);
        } else if c == '|' {
            let right = lex_range(p, i + 1, to, Seq::empty(), g);
            law_lex_range_numbers_groups(p, i + 1, to, Seq::empty(), g);
            let left_branch = Node::Concatenation(acc);
            let right_branch = Node::Concatenation(right.nodes);
            let both = seq![left_branch, right_branch];
            let alternation = Node::Alternation(both);
            assert(group_ids(left_branch) == ids_of(acc));
            assert(group_ids(right_branch) == ids_of(right.nodes));
            assert(ids_upto(both, 0) =~= Seq::empty());
            assert(ids_upto(both, 1) == ids_upto(both, 0) + group_ids(both[0]));
            assert(ids_upto(both, 1) =~= ids_of(acc));
            assert(ids_upto(both, 2) == ids_upto(both, 1) + group_ids(both[1]));
            assert(ids_upto(both, 2) =~= ids_of(acc) + ids_of(right.nodes));
            assert(group_ids(alternation) == ids_of(acc) + ids_of(right.nodes));
            let result = seq![alternation];
            assert(ids_upto(result, 0) =~= Seq::empty());
            assert(ids_upto(result, 1) == ids_upto(result, 0) + group_ids(result[0]));
            assert(ids_of(result) =~= group_ids(alternation));
            assert(ids_of(Seq::<Node>::empty()) + counting(g, (right.next_group - g) as nat)
                =~= counting(g, (right.next_group - g) as nat));
        } else {
            lemma_literal_ids(c);
            step_plain(p, i, to, acc, g, Node::Literal(c), i + 1);
            lemma_char_range(c);
        }
    }
}

/// The step of the law for a node without groups that is appended.
proof fn step_plain(p: Seq<char>, i: int, to: int, acc: Seq<Node>, g: nat, node: Node, next: int)
    requires
        0 <= i < next <= to <= p.len(),
        group_ids(node) == Seq::<nat>::empty(),
    ensures
        lex_range(p, next, to, acc.push(node), g).next_group >= g,
        ids_of(lex_range(p, next, to, acc.push(node), g).nodes) == ids_of(acc) + counting(
            g,
            (lex_range(p, next, to, acc.push(node), g).next_group - g) as nat,
        ),
        lex_range(p, next, to, acc.push(node), g).next_group <= g + (to - next),
    decreases to - i, 0nat,
{
    lemma_ids_push(acc, node);
    assert(ids_of(acc) + group_ids(node) =~= ids_of(acc));
    law_lex_range_numbers_groups(p, next, to, acc.push(node), g);
}

/// The step of the law for a quantifier that ends just before `at`.
proof fn step_quantified(
    p: Seq<char>,
    i: int,
    to: int,
    acc: Seq<Node>,
    g: nat,
    at: int,
    min: nat,
    max: nat,
)
    requires
        0 <= i < at <= to <= p.len(),
    ensures
        lex_range(
            p,
            quantify(acc, p, at, to, min, max).next,
            to,
            quantify(acc, p, at, to, min, max).nodes,
            g,
        ).next_group >= g,
        ids_of(
            lex_range(
                p,
                quantify(acc, p, at, to, min, max).next,
                to,
                quantify(acc, p, at, to, min, max).nodes,
                g,
            ).nodes,
        ) == ids_of(acc) + counting(
            g,
            (lex_range(
                p,
                quantify(acc, p, at, to, min, max).next,
                to,
                quantify(acc, p, at, to, min, max).nodes,
                g,
            ).next_group - g) as nat,
        ),
        lex_range(
            p,
            quantify(acc, p, at, to, min, max).next,
            to,
            quantify(acc, p, at, to, min, max).nodes,
            g,
        ).next_group <= g + (to - at),
    decreases to - i, 0nat,
{
    let r = quantify(acc, p, at, to, min, max);
    lemma_quantify_keeps_ids(acc, p, at, to, min, max);
    lemma_quantify_next(acc, p, at, to, min, max);
    law_lex_range_numbers_groups(p, r.next, to, r.nodes, g);
}

/// The capturing groups of a tokenized pattern have the identities `g`,
/// `g + 1`, and so on, in the order of their opening parentheses: each
/// identity is used once, and the counter ends behind the last of them.
/// There are at most as many groups as the pattern has characters.
pub proof fn law_lex_numbers_groups(p: Seq<char>, g: nat)
    ensures
        lex(p, g).next_group >= g,
        ids_of(lex(p, g).nodes) == counting(g, (lex(p, g).next_group - g) as nat),
        lex(p, g).next_group <= g + p.len(),
{
    law_lex_range_numbers_groups(p, 0, p.len() as int, Seq::empty(), g);
    assert(ids_of(Seq::<Node>::empty()) + counting(g, (lex(p, g).next_group - g) as nat)
        =~= counting(g, (lex(p, g).next_group - g) as nat));
}

} // verus!
