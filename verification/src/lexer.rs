//! The tokenizer: one pass over the pattern, from text to a list of tokens.

use crate::identities::law_lex_range_numbers_groups;
use crate::text::chars_of;
use crate::text::parse_number;
use crate::text::parse_usize;
use crate::tokens::lemma_nodes_of;
use crate::tokens::lemma_nodes_push;
use crate::tokens::nodes_of;
use crate::tokens::unbounded;
use crate::tokens::Node;
use crate::tokens::Token;
use vstd::prelude::*;

verus! {

/// What tokenizing a stretch of a pattern yields: the nodes, and the identity
/// that the next capturing group will get.
pub struct Lexed {
    pub nodes: Seq<Node>,
    pub next_group: nat,
}

/// A node read at some index, and the index at which scanning goes on.
pub struct Piece {
    pub node: Node,
    pub next: int,
}

/// The bounds read from a `{..}` quantifier, and the index behind it.
pub struct Bounds {
    pub min: nat,
    pub max: nat,
    pub next: int,
}

/// The nodes after a quantifier was applied, and the index behind it.
pub struct Rewrap {
    pub nodes: Seq<Node>,
    pub next: int,
}

/// The first index in `from..to` at which `p` holds `a` or `b`; `to` if there
/// is none.
pub open spec fn find_either(p: Seq<char>, from: int, to: int, a: char, b: char) -> int
    decreases to - from,
{
    if from >= to {
        to
    } else if p[from] == a || p[from] == b {
        from
    } else {
        find_either(p, from + 1, to, a, b)
    }
}

/// The index in `from..to` of the `)` that closes the innermost of `depth`
/// open groups; `to` if the groups are not closed before `to`.
pub open spec fn group_end(p: Seq<char>, from: int, to: int, depth: nat) -> int
    decreases to - from,
{
    if from >= to {
        to
    } else if p[from] == '(' {
        group_end(p, from + 1, to, depth + 1)
    } else if p[from] == ')' {
        if depth <= 1 {
            from
        } else {
            group_end(p, from + 1, to, (depth - 1) as nat)
        }
    } else {
        group_end(p, from + 1, to, depth)
    }
}

/// The index found lies between the start of the search and its end.
pub proof fn lemma_find_either_bounds(p: Seq<char>, from: int, to: int, a: char, b: char)
    requires
        from <= to,
    ensures
        from <= find_either(p, from, to, a, b) <= to,
    decreases to - from,
{
    if from < to && !(p[from] == a || p[from] == b) {
        lemma_find_either_bounds(p, from + 1, to, a, b);
    }
}

/// The end of a group lies between the start of the scan and its end.
pub proof fn lemma_group_end_bounds(p: Seq<char>, from: int, to: int, depth: nat)
    requires
        from <= to,
    ensures
        from <= group_end(p, from, to, depth) <= to,
    decreases to - from,
{
    if from < to {
        if p[from] == '(' {
            lemma_group_end_bounds(p, from + 1, to, depth + 1);
        } else if p[from] == ')' {
            if depth > 1 {
                lemma_group_end_bounds(p, from + 1, to, (depth - 1) as nat);
            }
        } else {
            lemma_group_end_bounds(p, from + 1, to, depth);
        }
    }
}

/// The index behind the delimiter at `close`, where there is one before `to`.
pub open spec fn past(close: int, to: int) -> int {
    if close < to {
        close + 1
    } else {
        to
    }
}

/// The class that starts with the `[` at index `i`: its characters are those
/// up to the next `]`, or up to `to` if the class is not closed.
pub open spec fn class_piece(p: Seq<char>, i: int, to: int) -> Piece {
    let negated = i + 1 < to && p[i + 1] == '^';
    let start = if negated {
        i + 2
    } else {
        i + 1
    };
    let end = find_either(p, start, to, ']', ']');
    let chars = p.subrange(start, end);
    Piece {
        node: if negated {
            Node::NegatedClass(chars)
        } else {
            Node::Class(chars)
        },
        next: past(end, to),
    }
}

/// The members of the class `\d`.
pub open spec fn digit_chars() -> Seq<char> {
    "0123456789"@
}

/// The members of the class `\w`.
pub open spec fn word_chars() -> Seq<char> {
    "abcdefghijklmnopqrstuvwxyzABCDEFGHIJKLMNOPQRSTUVWXYZ0123456789_"@
}

/// The members of the class `\s`.
pub open spec fn space_chars() -> Seq<char> {
    " \t\n\r\x0B\x0C"@
}

/// The node for a backslash followed by `c`.
pub open spec fn escape_node(c: char) -> Node {
    if c == 'b' {
        Node::WordBoundary
    } else if c == 'd' {
        Node::Class(digit_chars())
    } else if c == 'D' {
        Node::NegatedClass(digit_chars())
    } else if c == 'w' {
        Node::Class(word_chars())
    } else if c == 'W' {
        Node::NegatedClass(word_chars())
    } else if c == 's' {
        Node::Class(space_chars())
    } else if c == 'S' {
        Node::NegatedClass(space_chars())
    } else if '1' <= c <= '9' {
        Node::Backreference((c as nat - 48) as nat)
    } else {
        Node::Literal(c)
    }
}

/// The number that `s` denotes, or `default` if it denotes none.
pub open spec fn number_or(s: Seq<char>, default: nat) -> nat {
    match parse_number(s) {
        Some(n) => n,
        None => default,
    }
}

/// The bounds written after the `{` at index `i`: `{m}`, `{m,n}` or `{m,}`.
/// A lower bound that is no number counts as 0, an upper bound that is none
/// as the lower bound, and a missing upper bound as no bound.
pub open spec fn bounds_at(p: Seq<char>, i: int, to: int) -> Bounds {
    let first_end = find_either(p, i + 1, to, ',', '}');
    let min = number_or(p.subrange(i + 1, first_end), 0);
    if first_end < to && p[first_end] == ',' {
        let second_end = find_either(p, first_end + 1, to, '}', '}');
        let max = if second_end == first_end + 1 {
            unbounded()
        } else {
            number_or(p.subrange(first_end + 1, second_end), min)
        };
        Bounds { min, max, next: past(second_end, to) }
    } else {
        Bounds { min, max: min, next: past(first_end, to) }
    }
}

/// Applies a quantifier that ends just before index `at` to the last of
/// `nodes`; a `?` at `at` makes it lazy. With no node to apply it to, the
/// quantifier is dropped.
pub open spec fn quantify(nodes: Seq<Node>, p: Seq<char>, at: int, to: int, min: nat, max: nat) -> Rewrap {
    if nodes.len() == 0 {
        Rewrap { nodes, next: at }
    } else {
        let lazy = at < to && p[at] == '?';
        Rewrap {
            nodes: nodes.drop_last().push(
                Node::Quantifier { node: Box::new(nodes.last()), min, max, greedy: !lazy },
            ),
            next: if lazy {
                at + 1
            } else {
                at
            },
        }
    }
}

/// Tokenizes `p[i..to]`, given the nodes `acc` read so far at this nesting
/// level and the identity `g` of the next capturing group.
pub open spec fn lex_range(p: Seq<char>, i: int, to: int, acc: Seq<Node>, g: nat) -> Lexed
    decreases to - i,
{
    if i >= to {
        Lexed { nodes: acc, next_group: g }
    } else {
        let c = p[i];
        if c == '[' {
            let piece = class_piece(p, i, to);
            proof {
                lemma_find_either_bounds(p, i + 1, to, ']', ']');
                if i + 2 <= to {
                    lemma_find_either_bounds(p, i + 2, to, ']', ']');
                }
            }
            lex_range(p, piece.next, to, acc.push(piece.node), g)
        } else if c == '.' {
            lex_range(p, i + 1, to, acc.push(Node::Wildcard), g)
        } else if c == '^' {
            lex_range(p, i + 1, to, acc.push(Node::AnchorStart), g)
        } else if c == '$' {
            lex_range(p, i + 1, to, acc.push(Node::AnchorEnd), g)
        } else if c == '\\' {
            if i + 1 < to {
                lex_range(p, i + 2, to, acc.push(escape_node(p[i + 1])), g)
            } else {
                lex_range(p, i + 1, to, acc, g)
            }
        } else if c == '(' {
            if i + 2 < to && p[i + 1] == '?' && p[i + 2] == ':' {
                let close = group_end(p, i + 3, to, 1);
                proof {
                    lemma_group_end_bounds(p, i + 3, to, 1);
                }
                let inner = lex_range(p, i + 3, close, Seq::empty(), g);
                lex_range(
                    p,
                    past(close, to),
                    to,
                    acc.push(Node::NonCapturingGroup(Box::new(Node::Concatenation(inner.nodes)))),
                    inner.next_group,
                )
            } else {
                let close = group_end(p, i + 1, to, 1);
                proof {
                    lemma_group_end_bounds(p, i + 1, to, 1);
                }
                let inner = lex_range(p, i + 1, close, Seq::empty(), g + 1);
                lex_range(
                    p,
                    past(close, to),
                    to,
                    acc.push(Node::Group(Box::new(Node::Concatenation(inner.nodes)), g)),
                    inner.next_group,
                )
            }
        } else if c == '?' {
            let r = quantify(acc, p, i + 1, to, 0, 1);
            lex_range(p, r.next, to, r.nodes, g)
        } else if c == '*' {
            let r = quantify(acc, p, i + 1, to, 0, unbounded());
            lex_range(p, r.next, to, r.nodes, g)
        } else if c == '+' {
            let r = quantify(acc, p, i + 1, to, 1, unbounded());
            lex_range(p, r.next, to, r.nodes, g)
        } else if c == '{' {
            let b = bounds_at(p, i, to);
            let r = quantify(acc, p, b.next, to, b.min, b.max);
            proof {
                lemma_bounds_next(p, i, to);
            }
            lex_range(p, r.next, to, r.nodes, g)
        } else if c == '|' {
            let right = lex_range(p, i + 1, to, Seq::empty(), g);
            Lexed {
                nodes: seq![
                    Node::Alternation(
                        seq![Node::Concatenation(acc), Node::Concatenation(right.nodes)],
                    ),
                ],
                next_group: right.next_group,
            }
        } else {
            lex_range(p, i + 1, to, acc.push(Node::Literal(c)), g)
        }
    }
}

/// Scanning goes on behind the bounds of a `{..}` quantifier.
pub proof fn lemma_bounds_next(p: Seq<char>, i: int, to: int)
    requires
        i < to,
    ensures
        i < bounds_at(p, i, to).next <= to,
{
    lemma_find_either_bounds(p, i + 1, to, ',', '}');
    let first_end = find_either(p, i + 1, to, ',', '}');
    if first_end < to {
        lemma_find_either_bounds(p, first_end + 1, to, '}', '}');
    }
}

/// The nodes of a whole pattern, with `g` the identity of its first
/// capturing group.
pub open spec fn lex(p: Seq<char>, g: nat) -> Lexed {
    lex_range(p, 0, p.len() as int, Seq::empty(), g)
}

/// Scans `chars[from..to]` for the first `a` or `b`.
fn scan_until(chars: &Vec<char>, from: usize, to: usize, a: char, b: char) -> (r: usize)
    requires
        from <= to <= chars.len(),
    ensures
        r == find_either(chars@, from as int, to as int, a, b),
        from <= r <= to,
{
    let mut i: usize = from;
    while i < to
        invariant
            from <= i <= to <= chars.len(),
            find_either(chars@, from as int, to as int, a, b) == find_either(
                chars@,
                i as int,
                to as int,
                a,
                b,
            ),
        decreases to - i,
    {
        if chars[i] == a || chars[i] == b {
            return i;
        }
        i += 1;
    }
    i
}

/// Scans `chars[from..to]` for the `)` that closes a group opened before
/// `from`.
fn scan_group(chars: &Vec<char>, from: usize, to: usize) -> (r: usize)
    requires
        0 < from <= to <= chars.len(),
    ensures
        r == group_end(chars@, from as int, to as int, 1),
        from <= r <= to,
{
    let mut depth: usize = 1;
    let mut i: usize = from;
    while i < to
        invariant
            0 < from <= i <= to <= chars.len(),
            1 <= depth <= i - from + 1,
            group_end(chars@, from as int, to as int, 1) == group_end(
                chars@,
                i as int,
                to as int,
                depth as nat,
            ),
        decreases to - i,
    {
        let c = chars[i];
        if c == '(' {
            depth += 1;
        } else if c == ')' {
            if depth <= 1 {
                return i;
            }
            depth -= 1;
        }
        i += 1;
    }
    i
}

/// Reads the class that starts at `chars[i]`.
fn lex_class(chars: &Vec<char>, i: usize, to: usize) -> (r: (Token, usize))
    requires
        i < to <= chars.len(),
    ensures
        r.0@ == class_piece(chars@, i as int, to as int).node,
        r.1 == class_piece(chars@, i as int, to as int).next,
        i < r.1 <= to,
{
    let negated = i + 1 < to && chars[i + 1] == '^';
    let start: usize = if negated {
        i + 2
    } else {
        i + 1
    };
    let end = scan_until(chars, start, to, ']', ']');
    let mut members: Vec<char> = Vec::new();
    let mut k: usize = start;
    while k < end
        invariant
            start <= k <= end <= chars.len(),
            members@ == chars@.subrange(start as int, k as int),
        decreases end - k,
    {
        members.push(chars[k]);
        k += 1;
    }
    let next: usize = if end < to {
        end + 1
    } else {
        to
    };
    if negated {
        (Token::NegatedClass(members), next)
    } else {
        (Token::Class(members), next)
    }
}

/// The token for the plain character `c`.
fn lex_literal(c: char) -> (t: Token)
    ensures
        t@ == Node::Literal(c),
{
    Token::Literal(c)
}

/// The token for a backslash followed by `c`.
fn lex_escape(c: char) -> (t: Token)
    ensures
        t@ == escape_node(c),
{
    if c == 'b' {
        Token::WordBoundary
    } else if c == 'd' {
        Token::Class(chars_of("0123456789"))
    } else if c == 'D' {
        Token::NegatedClass(chars_of("0123456789"))
    } else if c == 'w' {
        Token::Class(chars_of("abcdefghijklmnopqrstuvwxyzABCDEFGHIJKLMNOPQRSTUVWXYZ0123456789_"))
    } else if c == 'W' {
        Token::NegatedClass(
            chars_of("abcdefghijklmnopqrstuvwxyzABCDEFGHIJKLMNOPQRSTUVWXYZ0123456789_"),
        )
    } else if c == 's' {
        Token::Class(chars_of(" \t\n\r\x0B\x0C"))
    } else if c == 'S' {
        Token::NegatedClass(chars_of(" \t\n\r\x0B\x0C"))
    } else if '1' <= c && c <= '9' {
        Token::Backreference((c as u32 - 48) as usize)
    } else {
        Token::Literal(c)
    }
}

/// Reads the bounds written after the `{` at `chars[i]`.
fn lex_bounds(chars: &Vec<char>, i: usize, to: usize) -> (r: (usize, usize, usize))
    requires
        i < to <= chars.len(),
    ensures
        r.0 == bounds_at(chars@, i as int, to as int).min,
        r.1 == bounds_at(chars@, i as int, to as int).max,
        r.2 == bounds_at(chars@, i as int, to as int).next,
        i < r.2 <= to,
{
    let first_end = scan_until(chars, i + 1, to, ',', '}');
    let min: usize = match parse_usize(chars, i + 1, first_end) {
        Some(n) => n,
        None => 0,
    };
    if first_end < to && chars[first_end] == ',' {
        let second_end = scan_until(chars, first_end + 1, to, '}', '}');
        let max: usize = if second_end == first_end + 1 {
            usize::MAX
        } else {
            match parse_usize(chars, first_end + 1, second_end) {
                Some(n) => n,
                None => min,
            }
        };
        let next: usize = if second_end < to {
            second_end + 1
        } else {
            to
        };
        (min, max, next)
    } else {
        let next: usize = if first_end < to {
            first_end + 1
        } else {
            to
        };
        (min, min, next)
    }
}

/// Wraps the last of `tokens` in a quantifier that ends just before
/// `chars[at]`; returns the index at which scanning goes on.
fn apply_quantifier(
    tokens: &mut Vec<Token>,
    chars: &Vec<char>,
    at: usize,
    to: usize,
    min: usize,
    max: usize,
) -> (next: usize)
    requires
        at <= to <= chars.len(),
    ensures
        nodes_of(final(tokens)@) == quantify(
            nodes_of(old(tokens)@),
            chars@,
            at as int,
            to as int,
            min as nat,
            max as nat,
        ).nodes,
        next == quantify(
            nodes_of(old(tokens)@),
            chars@,
            at as int,
            to as int,
            min as nat,
            max as nat,
        ).next,
        at <= next <= to,
{
    proof {
        lemma_nodes_of(tokens@);
    }
    match tokens.pop() {
        Some(last) => {
            let lazy = at < to && chars[at] == '?';
            let ghost rest = tokens@;
            let wrapped = Token::Quantifier { token: Box::new(last), min, max, greedy: !lazy };
            tokens.push(wrapped);
            proof {
                lemma_nodes_of(rest);
                lemma_nodes_of(old(tokens)@);
                lemma_nodes_of(tokens@);
                assert(nodes_of(tokens@) =~= nodes_of(old(tokens)@).drop_last().push(wrapped@));
            }
            if lazy {
                at + 1
            } else {
                at
            }
        },
        None => at,
    }
}

/// Tokenizes `chars[from..to]`. Capturing groups get their identities from
/// `next_group`, in the order of their opening parentheses.
fn lex_chars(chars: &Vec<char>, from: usize, to: usize, next_group: &mut usize) -> (tokens: Vec<
    Token,
>)
    requires
        from <= to <= chars.len(),
        lex_range(
            chars@,
            from as int,
            to as int,
            Seq::empty(),
            *old(next_group) as nat,
        ).next_group <= usize::MAX,
    ensures
        nodes_of(tokens@) == lex_range(
            chars@,
            from as int,
            to as int,
            Seq::empty(),
            *old(next_group) as nat,
        ).nodes,
        *final(next_group) == lex_range(
            chars@,
            from as int,
            to as int,
            Seq::empty(),
            *old(next_group) as nat,
        ).next_group,
    decreases to - from,
{
    let ghost p = chars@;
    let ghost goal = lex_range(p, from as int, to as int, Seq::empty(), *old(next_group) as nat);
    let mut tokens: Vec<Token> = Vec::new();
    let mut i: usize = from;
    assert(nodes_of(tokens@) =~= Seq::empty());
    while i < to
        invariant
            from <= i <= to <= chars.len(),
            p == chars@,
            goal.next_group <= usize::MAX,
            goal == lex_range(p, from as int, to as int, Seq::empty(), *old(next_group) as nat),
            goal == lex_range(p, i as int, to as int, nodes_of(tokens@), *next_group as nat),
        decreases to - i,
    {
        let c = chars[i];
        let ghost acc = nodes_of(tokens@);
        if c == '[' {
            let (token, next) = lex_class(chars, i, to);
            proof {
                lemma_nodes_push(tokens@, token);
            }
            tokens.push(token);
            i = next;
        } else if c == '.' {
            proof {
                lemma_nodes_push(tokens@, Token::Wildcard);
            }
            tokens.push(Token::Wildcard);
            i += 1;
        } else if c == '^' {
            proof {
                lemma_nodes_push(tokens@, Token::AnchorStart);
            }
            tokens.push(Token::AnchorStart);
            i += 1;
        } else if c == '$' {
            proof {
                lemma_nodes_push(tokens@, Token::AnchorEnd);
            }
            tokens.push(Token::AnchorEnd);
            i += 1;
        } else if c == '\\' {
            if i + 1 < to {
                let token = lex_escape(chars[i + 1]);
                proof {
                    lemma_nodes_push(tokens@, token);
                }
                tokens.push(token);
                i += 2;
            } else {
                i += 1;
            }
        } else if c == '(' {
            if to - i > 2 && chars[i + 1] == '?' && chars[i + 2] == ':' {
                let close = scan_group(chars, i + 3, to);
                proof {
                    let inner = lex_range(p, i + 3, close as int, Seq::empty(), *next_group as nat);
                    law_lex_range_numbers_groups(
                        p,
                        past(close as int, to as int),
                        to as int,
                        acc.push(
                            Node::NonCapturingGroup(Box::new(Node::Concatenation(inner.nodes))),
                        ),
                        inner.next_group,
                    );
                }
                let inner = lex_chars(chars, i + 3, close, next_group);
                let ghost inner_nodes = nodes_of(inner@);
                let body = Token::Concatenation(inner);
                assert(body@ == Node::Concatenation(inner_nodes));
                let token = Token::NonCapturingGroup(Box::new(body));
                proof {
                    lemma_nodes_push(tokens@, token);
                }
                tokens.push(token);
                i = if close < to {
                    close + 1
                } else {
                    to
                };
            } else {
                let id = *next_group;
                let close = scan_group(chars, i + 1, to);
                proof {
                    let inner = lex_range(p, i + 1, close as int, Seq::empty(), (id + 1) as nat);
                    law_lex_range_numbers_groups(p, i + 1, close as int, Seq::empty(), (id + 1) as nat);
                    law_lex_range_numbers_groups(
                        p,
                        past(close as int, to as int),
                        to as int,
                        acc.push(Node::Group(Box::new(Node::Concatenation(inner.nodes)), id as nat)),
                        inner.next_group,
                    );
                }
                *next_group += 1;
                let inner = lex_chars(chars, i + 1, close, next_group);
                let ghost inner_nodes = nodes_of(inner@);
                let body = Token::Concatenation(inner);
                assert(body@ == Node::Concatenation(inner_nodes));
                let token = Token::Group(Box::new(body), id);
                proof {
                    lemma_nodes_push(tokens@, token);
                }
                tokens.push(token);
                i = if close < to {
                    close + 1
                } else {
                    to
                };
            }
        } else if c == '?' {
            i = apply_quantifier(&mut tokens, chars, i + 1, to, 0, 1);
        } else if c == '*' {
            i = apply_quantifier(&mut tokens, chars, i + 1, to, 0, usize::MAX);
        } else if c == '+' {
            i = apply_quantifier(&mut tokens, chars, i + 1, to, 1, usize::MAX);
        } else if c == '{' {
            let (min, max, after) = lex_bounds(chars, i, to);
            i = apply_quantifier(&mut tokens, chars, after, to, min, max);
        } else if c == '|' {
            let right = lex_chars(chars, i + 1, to, next_group);
            let ghost right_nodes = nodes_of(right@);
            let mut branches: Vec<Token> = Vec::new();
            let left_branch = Token::Concatenation(tokens);
            let right_branch = Token::Concatenation(right);
            assert(left_branch@ == Node::Concatenation(acc));
            assert(right_branch@ == Node::Concatenation(right_nodes));
            branches.push(left_branch);
            branches.push(right_branch);
            let alternation = Token::Alternation(branches);
            let mut result: Vec<Token> = Vec::new();
            result.push(alternation);
            proof {
                lemma_nodes_of(branches@);
                lemma_nodes_of(result@);
                assert(nodes_of(branches@) =~= seq![left_branch@, right_branch@]);
                assert(alternation@ == Node::Alternation(nodes_of(branches@)));
                assert(nodes_of(result@) =~= seq![alternation@]);
            }
            return result;
        } else {
            let token = lex_literal(c);
            proof {
                lemma_nodes_push(tokens@, token);
            }
            tokens.push(token);
            i += 1;
        }
    }
    tokens
}

/// Tokenizes `pattern`. Capturing groups are numbered from `*next_group` on,
/// in the order of their opening parentheses, and `*next_group` is left at
/// the identity that the next group would get, which must fit in a machine
/// word. No input is rejected: what is malformed is read as literal
/// characters or as an unclosed class or group that ends with the pattern.
pub fn lex_pattern(pattern: &str, next_group: &mut usize) -> (tokens: Vec<Token>)
    requires
        lex(pattern@, *old(next_group) as nat).next_group <= usize::MAX,
    ensures
        nodes_of(tokens@) == lex(pattern@, *old(next_group) as nat).nodes,
        *final(next_group) == lex(pattern@, *old(next_group) as nat).next_group,
{
    let chars = chars_of(pattern);
    lex_chars(&chars, 0, chars.len(), next_group)
}

} // verus!
