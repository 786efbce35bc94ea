//! Generation from the older tree form: one pass, without captures.

use crate::ast::asts_of;
use crate::ast::lemma_asts_of;
use crate::ast::Ast;
use crate::ast::AstNode;
use crate::context::TokenContext;
use crate::error::GenError;
use crate::source::DrawSource;
use crate::text::char_string;
use crate::trace::draw_logged;
use crate::trace::extends;
use crate::trace::lemma_extends_self;
use crate::trace::lemma_extends_trans;
use crate::walk::alphabet;
use crate::walk::draw;
use crate::walk::repeat_count;
use vstd::prelude::*;
use vstd::string::StrSliceExecFns;
use vstd::string::StringExecFns;

verus! {

/// What walking a tree yields: the text, if there is one, and the position
/// in the stream of draws behind the last draw that the walk used.
pub struct TreeOutcome {
    pub text: Option<Seq<char>>,
    pub pos: nat,
}

/// Walks `tree` with the repetition bound `bound`, the draws read from
/// position `pos` on. Back-references, negated classes, classes without
/// members and repetitions with inverted bounds yield no text; an
/// alternation without branches yields the empty text.
pub open spec fn tree_walk(tree: Ast, bound: nat, draws: Seq<int>, pos: nat) -> TreeOutcome
    decreases tree, 0nat,
{
    match tree {
        Ast::Sequence(parts) => tree_walk_sequence(parts, 0, Seq::empty(), bound, draws, pos),
        Ast::Alternation(branches) => if branches.len() == 0 {
            TreeOutcome { text: Some(Seq::empty()), pos }
        } else {
            let choice = draw(draws, pos, 0, branches.len() - 1);
            tree_walk(branches[choice], bound, draws, pos + 1)
        },
        Ast::Repeat { node, min, max, greedy } => if min > max {
            TreeOutcome { text: None, pos }
        } else {
            let chosen = repeat_count(min, max, greedy, bound, draws, pos);
            tree_walk_repeat(*node, chosen.count, Seq::empty(), bound, draws, chosen.pos)
        },
        Ast::Group(inner) => tree_walk(*inner, bound, draws, pos),
        Ast::NonCapturingGroup(inner) => tree_walk(*inner, bound, draws, pos),
        Ast::Backreference => TreeOutcome { text: None, pos },
        Ast::Class(chars) => if chars.len() == 0 {
            TreeOutcome { text: None, pos }
        } else {
            TreeOutcome {
                text: Some(seq![chars[draw(draws, pos, 0, chars.len() - 1)]]),
                pos: pos + 1,
            }
        },
        Ast::NegatedClass => TreeOutcome { text: None, pos },
        Ast::Literal(c) => TreeOutcome { text: Some(seq![c]), pos },
        Ast::AnchorStart => TreeOutcome { text: Some(Seq::empty()), pos },
        Ast::AnchorEnd => TreeOutcome { text: Some(Seq::empty()), pos },
        Ast::WordBoundary => TreeOutcome { text: Some(Seq::empty()), pos },
        Ast::Wildcard => TreeOutcome {
            text: Some(seq![alphabet()[draw(draws, pos, 0, alphabet().len() - 1)]]),
            pos: pos + 1,
        },
    }
}

/// Walks `parts[i..]` in order, after `acc` was generated from the parts
/// before; the first part without text ends the walk.
pub open spec fn tree_walk_sequence(
    parts: Seq<Ast>,
    i: nat,
    acc: Seq<char>,
    bound: nat,
    draws: Seq<int>,
    pos: nat,
) -> TreeOutcome
    decreases parts, parts.len() - i,
{
    if i >= parts.len() {
        TreeOutcome { text: Some(acc), pos }
    } else {
        let o = tree_walk(parts[i as int], bound, draws, pos);
        match o.text {
            Some(text) => tree_walk_sequence(parts, i + 1, acc + text, bound, draws, o.pos),
            None => o,
        }
    }
}

/// Walks `tree` another `remaining` times, after `acc` was generated by the
/// repetitions before; the first repetition without text ends the walk.
pub open spec fn tree_walk_repeat(
    tree: Ast,
    remaining: nat,
    acc: Seq<char>,
    bound: nat,
    draws: Seq<int>,
    pos: nat,
) -> TreeOutcome
    decreases tree, remaining,
{
    if remaining == 0 {
        TreeOutcome { text: Some(acc), pos }
    } else {
        let o = tree_walk(tree, bound, draws, pos);
        match o.text {
            Some(text) => tree_walk_repeat(
                tree,
                (remaining - 1) as nat,
                acc + text,
                bound,
                draws,
                o.pos,
            ),
            None => o,
        }
    }
}

/// The text of a result, if it has one.
pub open spec fn text_of(r: Result<String, GenError>) -> Option<Seq<char>> {
    match r {
        Ok(text) => Some(text@),
        Err(_) => None,
    }
}

/// Whether walking `tree` with the repetition bound `bound` can end with
/// `text`: some stream of draws leads there, and the walk uses all of it.
pub open spec fn tree_can_yield(tree: Ast, bound: nat, text: Option<Seq<char>>) -> bool {
    exists|draws: Seq<int>| #[trigger]
        tree_walk(tree, bound, draws, 0) == (TreeOutcome { text, pos: draws.len() })
}

/// The walk of `tree` that starts behind the draws of `log` ends behind the
/// draws of `log2` with the given text, whatever the stream holds behind
/// `log2`.
spec fn tree_walk_is(
    tree: Ast,
    bound: nat,
    log: Seq<int>,
    text: Option<Seq<char>>,
    log2: Seq<int>,
) -> bool {
    &&& extends(log2, log)
    &&& forall|s: Seq<int>| #[trigger]
        extends(s, log2) ==> tree_walk(tree, bound, s, log.len()) == (TreeOutcome {
            text,
            pos: log2.len(),
        })
}

/// For a source with a script: the walk of `tree` on the script, from the
/// position of the source before, has the given text and ends at the
/// position of the source after, which keeps its script.
pub open spec fn tree_replay_is<S: DrawSource>(
    tree: Ast,
    bound: nat,
    source: S,
    text: Option<Seq<char>>,
    source2: S,
) -> bool {
    source.script() matches Some(s) ==> {
        &&& source2.script() == Some(s)
        &&& tree_walk(tree, bound, s, source.position()) == (TreeOutcome {
            text,
            pos: source2.position(),
        })
    }
}

/// Walks one node of the tree.
fn generate_node<S: DrawSource>(
    node: &AstNode,
    rng: &mut S,
    ctx: &TokenContext,
    Ghost(log): Ghost<Seq<int>>,
) -> (r: (Result<String, GenError>, Ghost<Seq<int>>))
    ensures
        tree_walk_is(node@, ctx@.max_repeat, log, text_of(r.0), r.1@),
        tree_replay_is(node@, ctx@.max_repeat, *old(rng), text_of(r.0), *final(rng)),
        r.0 matches Err(e) ==> e is NoMatch,
    decreases node, 0nat,
{
    match node {
        AstNode::Sequence(parts) => {
            assert(node->Sequence_0 == *parts);
            let ghost trees = asts_of(parts@);
            let mut out = String::new();
            let mut cur: Ghost<Seq<int>> = Ghost(log);
            let mut i: usize = 0;
            proof {
                lemma_asts_of(parts@);
            }
            while i < parts.len()
                invariant
                    i <= parts.len(),
                    node->Sequence_0 == *parts,
                    node is Sequence,
                    trees == asts_of(parts@),
                    trees.len() == parts.len(),
                    extends(cur@, log),
                    forall|s: Seq<int>| #[trigger]
                        extends(s, cur@) ==> tree_walk_sequence(
                            trees,
                            0,
                            Seq::empty(),
                            ctx@.max_repeat,
                            s,
                            log.len(),
                        ) == tree_walk_sequence(
                            trees,
                            i as nat,
                            out@,
                            ctx@.max_repeat,
                            s,
                            cur@.len(),
                        ),
                    old(rng).script() matches Some(s) ==> rng.script() == Some(s)
                        && tree_walk_sequence(
                        trees,
                        0,
                        Seq::empty(),
                        ctx@.max_repeat,
                        s,
                        old(rng).position(),
                    ) == tree_walk_sequence(
                        trees,
                        i as nat,
                        out@,
                        ctx@.max_repeat,
                        s,
                        rng.position(),
                    ),
                decreases parts.len() - i,
            {
                let ghost prev = cur@;
                proof {
                    lemma_asts_of(parts@);
                }
                let r = generate_node(&parts[i], rng, ctx, cur);
                match r.0 {
                    Ok(piece) => {
                        out.append(piece.as_str());
                        cur = r.1;
                        proof {
                            lemma_extends_trans(cur@, prev, log);
                            assert forall|s: Seq<int>| #[trigger]
                                extends(s, cur@) implies tree_walk_sequence(
                                trees,
                                0,
                                Seq::empty(),
                                ctx@.max_repeat,
                                s,
                                log.len(),
                            ) == tree_walk_sequence(
                                trees,
                                (i + 1) as nat,
                                out@,
                                ctx@.max_repeat,
                                s,
                                cur@.len(),
                            ) by {
                                lemma_extends_trans(s, cur@, prev);
                            }
                        }
                    },
                    Err(e) => {
                        proof {
                            lemma_extends_trans(r.1@, prev, log);
                            assert forall|s: Seq<int>| #[trigger]
                                extends(s, r.1@) implies tree_walk(
                                node@,
                                ctx@.max_repeat,
                                s,
                                log.len(),
                            ) == (TreeOutcome { text: None, pos: r.1@.len() }) by {
                                lemma_extends_trans(s, r.1@, prev);
                            }
                        }
                        return (Err(e), r.1);
                    },
                }
                i += 1;
            }
            (Ok(out), cur)
        },
        AstNode::Alternation(branches) => {
            assert(node->Alternation_0 == *branches);
            proof {
                lemma_asts_of(branches@);
            }
            if branches.len() == 0 {
                (Ok(String::new()), Ghost(log))
            } else {
                let (idx, log1) = draw_logged(rng, 0, branches.len() - 1, Ghost(log));
                let r = generate_node(&branches[idx], rng, ctx, log1);
                proof {
                    lemma_extends_trans(r.1@, log1@, log);
                    assert forall|s: Seq<int>| #[trigger] extends(s, r.1@) implies tree_walk(
                        node@,
                        ctx@.max_repeat,
                        s,
                        log.len(),
                    ) == (TreeOutcome { text: text_of(r.0), pos: r.1@.len() }) by {
                        lemma_extends_trans(s, r.1@, log1@);
                    }
                }
                r
            }
        },
        AstNode::Repeat { node: inner, min, max, greedy } => {
            if *min > *max {
                (Err(GenError::NoMatch), Ghost(log))
            } else {
                let bound = ctx.repeat_bound();
                let top: usize = if *max == usize::MAX {
                    match min.checked_add(bound) {
                        Some(t) => t,
                        None => usize::MAX,
                    }
                } else {
                    *max
                };
                if *min == *max {
                    generate_repeated(inner, *min, rng, ctx, Ghost(log))
                } else {
                    let (a, log1) = draw_logged(rng, *min, top, Ghost(log));
                    let (b, log2) = draw_logged(rng, *min, top, log1);
                    let count = if *greedy {
                        if a >= b {
                            a
                        } else {
                            b
                        }
                    } else {
                        if a <= b {
                            a
                        } else {
                            b
                        }
                    };
                    let r = generate_repeated(inner, count, rng, ctx, log2);
                    proof {
                        lemma_extends_trans(log2@, log1@, log);
                        lemma_extends_trans(r.1@, log2@, log);
                        assert forall|s: Seq<int>| #[trigger] extends(s, r.1@) implies tree_walk(
                            node@,
                            ctx@.max_repeat,
                            s,
                            log.len(),
                        ) == (TreeOutcome { text: text_of(r.0), pos: r.1@.len() }) by {
                            lemma_extends_trans(s, r.1@, log2@);
                            assert(extends(s, log1@));
                        }
                    }
                    r
                }
            }
        },
        AstNode::Group(inner) => generate_node(inner, rng, ctx, Ghost(log)),
        AstNode::NonCapturingGroup(inner) => generate_node(inner, rng, ctx, Ghost(log)),
        AstNode::Backreference => (Err(GenError::NoMatch), Ghost(log)),
        AstNode::Class(chars) => {
            if chars.len() == 0 {
                (Err(GenError::NoMatch), Ghost(log))
            } else {
                let (idx, log1) = draw_logged(rng, 0, chars.len() - 1, Ghost(log));
                (Ok(char_string(chars[idx])), log1)
            }
        },
        AstNode::NegatedClass => (Err(GenError::NoMatch), Ghost(log)),
        AstNode::Literal(c) => (Ok(char_string(*c)), Ghost(log)),
        AstNode::AnchorStart => (Ok(String::new()), Ghost(log)),
        AstNode::AnchorEnd => (Ok(String::new()), Ghost(log)),
        AstNode::WordBoundary => (Ok(String::new()), Ghost(log)),
        AstNode::Wildcard => {
            let letters = "ABCDEFGHIJKLMNOPQRSTUVWXYZabcdefghijklmnopqrstuvwxyz0123456789";
            proof {
                reveal_strlit("ABCDEFGHIJKLMNOPQRSTUVWXYZabcdefghijklmnopqrstuvwxyz0123456789");
            }
            let (idx, log1) = draw_logged(rng, 0, 61, Ghost(log));
            (Ok(char_string(letters.get_char(idx))), log1)
        },
    }
}

/// Walks a node `count` times and concatenates what the repetitions yield.
fn generate_repeated<S: DrawSource>(
    node: &AstNode,
    count: usize,
    rng: &mut S,
    ctx: &TokenContext,
    Ghost(log): Ghost<Seq<int>>,
) -> (r: (Result<String, GenError>, Ghost<Seq<int>>))
    ensures
        extends(r.1@, log),
        forall|s: Seq<int>| #[trigger]
            extends(s, r.1@) ==> tree_walk_repeat(
                node@,
                count as nat,
                Seq::empty(),
                ctx@.max_repeat,
                s,
                log.len(),
            ) == (TreeOutcome { text: text_of(r.0), pos: r.1@.len() }),
        old(rng).script() matches Some(s) ==> final(rng).script() == Some(s) && tree_walk_repeat(
            node@,
            count as nat,
            Seq::empty(),
            ctx@.max_repeat,
            s,
            old(rng).position(),
        ) == (TreeOutcome { text: text_of(r.0), pos: final(rng).position() }),
        r.0 matches Err(e) ==> e is NoMatch,
    decreases node, 1nat,
{
    let ghost tree = node@;
    let mut out = String::new();
    let mut cur: Ghost<Seq<int>> = Ghost(log);
    let mut done: usize = 0;
    while done < count
        invariant
            done <= count,
            tree == node@,
            extends(cur@, log),
            forall|s: Seq<int>| #[trigger]
                extends(s, cur@) ==> tree_walk_repeat(
                    tree,
                    count as nat,
                    Seq::empty(),
                    ctx@.max_repeat,
                    s,
                    log.len(),
                ) == tree_walk_repeat(
                    tree,
                    (count - done) as nat,
                    out@,
                    ctx@.max_repeat,
                    s,
                    cur@.len(),
                ),
            old(rng).script() matches Some(s) ==> rng.script() == Some(s) && tree_walk_repeat(
                tree,
                count as nat,
                Seq::empty(),
                ctx@.max_repeat,
                s,
                old(rng).position(),
            ) == tree_walk_repeat(
                tree,
                (count - done) as nat,
                out@,
                ctx@.max_repeat,
                s,
                rng.position(),
            ),
        decreases count - done,
    {
        let ghost prev = cur@;
        let r = generate_node(node, rng, ctx, cur);
        match r.0 {
            Ok(piece) => {
                out.append(piece.as_str());
                cur = r.1;
                proof {
                    lemma_extends_trans(cur@, prev, log);
                    assert forall|s: Seq<int>| #[trigger] extends(s, cur@) implies tree_walk_repeat(
                        tree,
                        count as nat,
                        Seq::empty(),
                        ctx@.max_repeat,
                        s,
                        log.len(),
                    ) == tree_walk_repeat(
                        tree,
                        (count - done - 1) as nat,
                        out@,
                        ctx@.max_repeat,
                        s,
                        cur@.len(),
                    ) by {
                        lemma_extends_trans(s, cur@, prev);
                    }
                }
            },
            Err(e) => {
                proof {
                    lemma_extends_trans(r.1@, prev, log);
                    assert forall|s: Seq<int>| #[trigger] extends(s, r.1@) implies tree_walk_repeat(
                        tree,
                        count as nat,
                        Seq::empty(),
                        ctx@.max_repeat,
                        s,
                        log.len(),
                    ) == (TreeOutcome { text: None, pos: r.1@.len() }) by {
                        lemma_extends_trans(s, r.1@, prev);
                    }
                }
                return (Err(e), r.1);
            },
        }
        done += 1;
    }
    (Ok(out), cur)
}

/// Generates one candidate from the tree in a single pass, with the draws
/// of `source`. Whatever the source hands out, the candidate is the text of
/// a walk of the tree; with a source that follows a script, it is the text
/// of the walk on the script. A walk without text is reported as a missing
/// match.
pub fn generate_from_ast<S: DrawSource>(node: &AstNode, source: &mut S, ctx: &TokenContext) -> (r:
    Result<String, GenError>)
    ensures
        tree_can_yield(node@, ctx@.max_repeat, text_of(r)),
        tree_replay_is(node@, ctx@.max_repeat, *old(source), text_of(r), *final(source)),
        r matches Err(e) ==> e is NoMatch,
{
    let r = generate_node(node, source, ctx, Ghost(Seq::empty()));
    proof {
        lemma_extends_self(r.1@);
        assert(tree_walk(node@, ctx@.max_repeat, r.1@, 0) == (TreeOutcome {
            text: text_of(r.0),
            pos: r.1@.len(),
        }));
    }
    r.0
}

} // verus!
