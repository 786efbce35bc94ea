//! The node generator: walks a token tree with a random source and a
//! context, and yields what the model of the walk says.

use crate::context::ContextView;
use crate::context::TokenContext;
use crate::error::GenrexError;
use crate::error::GenrexErrorView;
use crate::text::char_string;
use crate::text::utf8_len;
use crate::tokens::Node;
use crate::source::DrawSource;
use crate::tokens::Token;
use crate::tokens::describe_node;
use crate::tokens::lemma_nodes_of;
use crate::tokens::nodes_of;
use crate::trace::draw_logged;
use crate::trace::extends;
use crate::trace::lemma_extends_self;
use crate::trace::lemma_extends_trans;
use crate::traits::RegexToken;
use crate::walk::Outcome;
use crate::walk::walk;
use crate::walk::walk_all;
use crate::walk::walk_concat;
use crate::walk::walk_repeat;
use rand::rngs::StdRng;
use vstd::prelude::*;
use vstd::string::StrSliceExecFns;
use vstd::string::StringExecFns;

verus! {

/// The view of what a generation returns.
pub open spec fn result_view(r: Result<String, GenrexError>) -> Result<
    Seq<char>,
    GenrexErrorView,
> {
    match r {
        Ok(text) => Ok(text@),
        Err(e) => Err(e@),
    }
}

/// The walk of `node` that starts behind the draws of `log` ends behind the
/// draws of `log2` with the given result and context, whatever the stream
/// holds behind `log2`.
spec fn walk_is(
    node: Node,
    before: ContextView,
    log: Seq<int>,
    result: Result<Seq<char>, GenrexErrorView>,
    after: ContextView,
    log2: Seq<int>,
) -> bool {
    &&& extends(log2, log)
    &&& forall|s: Seq<int>| #[trigger]
        extends(s, log2) ==> walk(node, before, s, log.len()) == (Outcome {
            result,
            ctx: after,
            pos: log2.len(),
        })
}

/// As [`walk_is`], for the walk of a list of nodes.
spec fn walk_all_is(
    parts: Seq<Node>,
    before: ContextView,
    log: Seq<int>,
    result: Result<Seq<char>, GenrexErrorView>,
    after: ContextView,
    log2: Seq<int>,
) -> bool {
    &&& extends(log2, log)
    &&& forall|s: Seq<int>| #[trigger]
        extends(s, log2) ==> walk_all(parts, before, s, log.len()) == (Outcome {
            result,
            ctx: after,
            pos: log2.len(),
        })
}

/// As [`walk_is`], for `count` repetitions of a node.
spec fn walk_repeat_is(
    node: Node,
    count: nat,
    before: ContextView,
    log: Seq<int>,
    result: Result<Seq<char>, GenrexErrorView>,
    after: ContextView,
    log2: Seq<int>,
) -> bool {
    &&& extends(log2, log)
    &&& forall|s: Seq<int>| #[trigger]
        extends(s, log2) ==> walk_repeat(node, count, Seq::empty(), before, s, log.len()) == (
        Outcome { result, ctx: after, pos: log2.len() })
}

/// For a source with a script: the walk of `node` on the script, from the
/// position of the source before, has the given result and context and
/// ends at the position of the source after, which keeps its script.
pub open spec fn replay_is<S: DrawSource>(
    node: Node,
    before: ContextView,
    source: S,
    result: Result<Seq<char>, GenrexErrorView>,
    after: ContextView,
    source2: S,
) -> bool {
    source.script() matches Some(s) ==> {
        &&& source2.script() == Some(s)
        &&& walk(node, before, s, source.position()) == (Outcome {
            result,
            ctx: after,
            pos: source2.position(),
        })
    }
}

/// As [`replay_is`], for the walk of a list of nodes.
pub open spec fn replay_all_is<S: DrawSource>(
    parts: Seq<Node>,
    before: ContextView,
    source: S,
    result: Result<Seq<char>, GenrexErrorView>,
    after: ContextView,
    source2: S,
) -> bool {
    source.script() matches Some(s) ==> {
        &&& source2.script() == Some(s)
        &&& walk_all(parts, before, s, source.position()) == (Outcome {
            result,
            ctx: after,
            pos: source2.position(),
        })
    }
}

/// As [`replay_is`], for `count` repetitions of a node.
spec fn replay_repeat_is<S: DrawSource>(
    node: Node,
    count: nat,
    before: ContextView,
    source: S,
    result: Result<Seq<char>, GenrexErrorView>,
    after: ContextView,
    source2: S,
) -> bool {
    source.script() matches Some(s) ==> {
        &&& source2.script() == Some(s)
        &&& walk_repeat(node, count, Seq::empty(), before, s, source.position()) == (Outcome {
            result,
            ctx: after,
            pos: source2.position(),
        })
    }
}

/// Walks one token.
fn generate_token<S: DrawSource>(
    token: &Token,
    rng: &mut S,
    ctx: &mut TokenContext,
    Ghost(log): Ghost<Seq<int>>,
) -> (r: (Result<String, GenrexError>, Ghost<Seq<int>>))
    ensures
        walk_is(token@, old(ctx)@, log, result_view(r.0), final(ctx)@, r.1@),
        replay_is(token@, old(ctx)@, *old(rng), result_view(r.0), final(ctx)@, *final(rng)),
    decreases token, 0nat,
{
    match token {
        Token::Literal(c) => (Ok(char_string(*c)), Ghost(log)),
        Token::Class(chars) => {
            if chars.len() == 0 {
                (Err(GenrexError::Internal(String::from_str("Empty class"))), Ghost(log))
            } else {
                let (idx, log1) = draw_logged(rng, 0, chars.len() - 1, Ghost(log));
                (Ok(char_string(chars[idx])), log1)
            }
        },
        Token::NegatedClass(_) => {
            (
                Err(GenrexError::UnsupportedFeature(String::from_str("Negated class generation"))),
                Ghost(log),
            )
        },
        Token::Concatenation(parts) => {
            assert(token->Concatenation_0 == *parts);
            generate_sequence(parts, rng, ctx, Ghost(log))
        },
        Token::Alternation(branches) => {
            assert(token->Alternation_0 == *branches);
            proof {
                lemma_nodes_of(branches@);
            }
            if branches.len() == 0 {
                (
                    Err(GenrexError::Internal(String::from_str("Empty alternation"))),
                    Ghost(log),
                )
            } else {
                let (idx, log1) = draw_logged(rng, 0, branches.len() - 1, Ghost(log));
                ctx.set_output_len(0);
                let r = generate_token(&branches[idx], rng, ctx, log1);
                proof {
                    lemma_extends_trans(r.1@, log1@, log);
                    assert forall|s: Seq<int>| #[trigger] extends(s, r.1@) implies walk(
                        token@,
                        old(ctx)@,
                        s,
                        log.len(),
                    ) == (Outcome { result: result_view(r.0), ctx: ctx@, pos: r.1@.len() }) by {
                        lemma_extends_trans(s, r.1@, log1@);
                    }
                }
                r
            }
        },
        Token::Quantifier { token: inner, min, max, greedy } => {
            if *min > *max {
                (
                    Err(GenrexError::Internal(String::from_str("Quantifier min > max"))),
                    Ghost(log),
                )
            } else {
                let bound = ctx.repeat_bound();
                let top: usize = if *max == usize::MAX {
                    match min.checked_add(bound) {
                        Some(t) => t,
                        None => usize::MAX,
                    }
                } else {
                    *max
                };
                if *min == *max {
                    generate_repeat(inner, *min, rng, ctx, Ghost(log))
                } else {
                    let (a, log1) = draw_logged(rng, *min, top, Ghost(log));
                    let (b, log2) = draw_logged(rng, *min, top, log1);
                    let count = if *greedy {
                        if a >= b {
                            a
                        } else {
                            b
                        }
                    } else {
                        if a <= b {
                            a
                        } else {
                            b
                        }
                    };
                    let r = generate_repeat(inner, count, rng, ctx, log2);
                    proof {
                        lemma_extends_trans(log2@, log1@, log);
                        lemma_extends_trans(r.1@, log2@, log);
                        assert forall|s: Seq<int>| #[trigger] extends(s, r.1@) implies walk(
                            token@,
                            old(ctx)@,
                            s,
                            log.len(),
                        ) == (Outcome { result: result_view(r.0), ctx: ctx@, pos: r.1@.len() }) by {
                            lemma_extends_trans(s, r.1@, log2@);
                            assert(extends(s, log1@));
                        }
                    }
                    r
                }
            }
        },
        Token::Group(inner, id) => {
            ctx.set_output_len(0);
            let r = generate_token(inner, rng, ctx, Ghost(log));
            match r.0 {
                Ok(text) => {
                    ctx.record_capture(*id, text.clone());
                    (Ok(text), r.1)
                },
                Err(e) => (Err(e), r.1),
            }
        },
        Token::NonCapturingGroup(inner) => {
            ctx.set_output_len(0);
            generate_token(inner, rng, ctx, Ghost(log))
        },
        Token::Backreference(id) => {
            if *id == 0 {
                (
                    Err(
                        GenrexError::BackreferenceError(
                            String::from_str("backreference index 0 is invalid"),
                        ),
                    ),
                    Ghost(log),
                )
            } else {
                match ctx.get_capture(*id) {
                    Some(text) => (Ok(text), Ghost(log)),
                    None => {
                        ctx.add_unresolved(*id);
                        (Ok(String::new()), Ghost(log))
                    },
                }
            }
        },
        Token::AnchorStart => (Ok(String::new()), Ghost(log)),
        Token::AnchorEnd => (Ok(String::new()), Ghost(log)),
        Token::WordBoundary => (Ok(String::new()), Ghost(log)),
        Token::Wildcard => {
            let letters = "ABCDEFGHIJKLMNOPQRSTUVWXYZabcdefghijklmnopqrstuvwxyz0123456789";
            proof {
                reveal_strlit("ABCDEFGHIJKLMNOPQRSTUVWXYZabcdefghijklmnopqrstuvwxyz0123456789");
            }
            let (idx, log1) = draw_logged(rng, 0, 61, Ghost(log));
            (Ok(char_string(letters.get_char(idx))), log1)
        },
    }
}

/// Walks the tokens of a list in order and concatenates what they yield.
fn generate_sequence<S: DrawSource>(
    tokens: &Vec<Token>,
    rng: &mut S,
    ctx: &mut TokenContext,
    Ghost(log): Ghost<Seq<int>>,
) -> (r: (Result<String, GenrexError>, Ghost<Seq<int>>))
    ensures
        walk_all_is(nodes_of(tokens@), old(ctx)@, log, result_view(r.0), final(ctx)@, r.1@),
        replay_all_is(
            nodes_of(tokens@),
            old(ctx)@,
            *old(rng),
            result_view(r.0),
            final(ctx)@,
            *final(rng),
        ),
    decreases tokens, 0nat,
{
    let ghost parts = nodes_of(tokens@);
    let ghost start = old(ctx)@;
    let mut out = String::new();
    let mut cur: Ghost<Seq<int>> = Ghost(log);
    let mut i: usize = 0;
    proof {
        lemma_nodes_of(tokens@);
    }
    while i < tokens.len()
        invariant
            i <= tokens.len(),
            parts == nodes_of(tokens@),
            parts.len() == tokens.len(),
            start == old(ctx)@,
            extends(cur@, log),
            forall|s: Seq<int>| #[trigger]
                extends(s, cur@) ==> walk_concat(parts, 0, Seq::empty(), start, s, log.len())
                    == walk_concat(parts, i as nat, out@, ctx@, s, cur@.len()),
            old(rng).script() matches Some(s) ==> rng.script() == Some(s) && walk_concat(
                parts,
                0,
                Seq::empty(),
                start,
                s,
                old(rng).position(),
            ) == walk_concat(parts, i as nat, out@, ctx@, s, rng.position()),
        decreases tokens.len() - i,
    {
        let ghost prev = cur@;
        ctx.set_output_len(utf8_len(&out));
        proof {
            lemma_nodes_of(tokens@);
        }
        let r = generate_token(&tokens[i], rng, ctx, cur);
        match r.0 {
            Ok(piece) => {
                out.append(piece.as_str());
                cur = r.1;
                proof {
                    lemma_extends_trans(cur@, prev, log);
                    assert forall|s: Seq<int>| #[trigger] extends(s, cur@) implies walk_concat(
                        parts,
                        0,
                        Seq::empty(),
                        start,
                        s,
                        log.len(),
                    ) == walk_concat(parts, (i + 1) as nat, out@, ctx@, s, cur@.len()) by {
                        lemma_extends_trans(s, cur@, prev);
                    }
                }
            },
            Err(e) => {
                proof {
                    lemma_extends_trans(r.1@, prev, log);
                    assert forall|s: Seq<int>| #[trigger] extends(s, r.1@) implies walk_all(
                        parts,
                        start,
                        s,
                        log.len(),
                    ) == (Outcome { result: Err(e@), ctx: ctx@, pos: r.1@.len() }) by {
                        lemma_extends_trans(s, r.1@, prev);
                    }
                }
                return (Err(e), r.1);
            },
        }
        i += 1;
    }
    (Ok(out), cur)
}

/// Walks a token `count` times and concatenates what the repetitions yield.
fn generate_repeat<S: DrawSource>(
    token: &Token,
    count: usize,
    rng: &mut S,
    ctx: &mut TokenContext,
    Ghost(log): Ghost<Seq<int>>,
) -> (r: (Result<String, GenrexError>, Ghost<Seq<int>>))
    ensures
        walk_repeat_is(token@, count as nat, old(ctx)@, log, result_view(r.0), final(ctx)@, r.1@),
        replay_repeat_is(
            token@,
            count as nat,
            old(ctx)@,
            *old(rng),
            result_view(r.0),
            final(ctx)@,
            *final(rng),
        ),
    decreases token, 1nat,
{
    let ghost node = token@;
    let ghost start = old(ctx)@;
    let mut out = String::new();
    let mut cur: Ghost<Seq<int>> = Ghost(log);
    let mut done: usize = 0;
    while done < count
        invariant
            done <= count,
            node == token@,
            start == old(ctx)@,
            extends(cur@, log),
            forall|s: Seq<int>| #[trigger]
                extends(s, cur@) ==> walk_repeat(
                    node,
                    count as nat,
                    Seq::empty(),
                    start,
                    s,
                    log.len(),
                ) == walk_repeat(node, (count - done) as nat, out@, ctx@, s, cur@.len()),
            old(rng).script() matches Some(s) ==> rng.script() == Some(s) && walk_repeat(
                node,
                count as nat,
                Seq::empty(),
                start,
                s,
                old(rng).position(),
            ) == walk_repeat(node, (count - done) as nat, out@, ctx@, s, rng.position()),
        decreases count - done,
    {
        let ghost prev = cur@;
        ctx.set_output_len(utf8_len(&out));
        let r = generate_token(token, rng, ctx, cur);
        match r.0 {
            Ok(piece) => {
                out.append(piece.as_str());
                cur = r.1;
                proof {
                    lemma_extends_trans(cur@, prev, log);
                    assert forall|s: Seq<int>| #[trigger] extends(s, cur@) implies walk_repeat(
                        node,
                        count as nat,
                        Seq::empty(),
                        start,
                        s,
                        log.len(),
                    ) == walk_repeat(node, (count - done - 1) as nat, out@, ctx@, s, cur@.len()) by {
                        lemma_extends_trans(s, cur@, prev);
                    }
                }
            },
            Err(e) => {
                proof {
                    lemma_extends_trans(r.1@, prev, log);
                    assert forall|s: Seq<int>| #[trigger] extends(s, r.1@) implies walk_repeat(
                        node,
                        count as nat,
                        Seq::empty(),
                        start,
                        s,
                        log.len(),
                    ) == (Outcome { result: Err(e@), ctx: ctx@, pos: r.1@.len() }) by {
                        lemma_extends_trans(s, r.1@, prev);
                    }
                }
                return (Err(e), r.1);
            },
        }
        done += 1;
    }
    (Ok(out), cur)
}

/// Whether walking `node` from the context `before` can end with `result`
/// and the context `after`: some stream of draws leads there, and the walk
/// uses all of it.
pub open spec fn can_yield(
    node: Node,
    before: ContextView,
    result: Result<Seq<char>, GenrexErrorView>,
    after: ContextView,
) -> bool {
    exists|draws: Seq<int>| #[trigger]
        walk(node, before, draws, 0) == (Outcome { result, ctx: after, pos: draws.len() })
}

/// As [`can_yield`], for a list of nodes walked as one concatenation.
pub open spec fn can_yield_all(
    parts: Seq<Node>,
    before: ContextView,
    result: Result<Seq<char>, GenrexErrorView>,
    after: ContextView,
) -> bool {
    exists|draws: Seq<int>| #[trigger]
        walk_all(parts, before, draws, 0) == (Outcome { result, ctx: after, pos: draws.len() })
}

/// Generates one fragment for `token` with the draws of `source`. Whatever
/// the source hands out, the fragment or error and the context afterwards
/// are those of a walk of the token from the context before; with a source
/// that follows a script, they are those of the walk on the script.
pub fn generate_with<S: DrawSource>(token: &Token, source: &mut S, ctx: &mut TokenContext) -> (r:
    Result<String, GenrexError>)
    ensures
        can_yield(token@, old(ctx)@, result_view(r), final(ctx)@),
        replay_is(token@, old(ctx)@, *old(source), result_view(r), final(ctx)@, *final(source)),
{
    let r = generate_token(token, source, ctx, Ghost(Seq::empty()));
    proof {
        lemma_extends_self(r.1@);
        assert(walk(token@, old(ctx)@, r.1@, 0) == (Outcome {
            result: result_view(r.0),
            ctx: ctx@,
            pos: r.1@.len(),
        }));
    }
    r.0
}

impl RegexToken for Token {
    /// Generates one fragment for this token. Whatever the random source
    /// hands out, the fragment or error and the context afterwards are
    /// those of a walk of the token from the context before.
    fn generate(&self, rng: &mut StdRng, ctx: &mut TokenContext) -> (r: Result<
        String,
        GenrexError,
    >)
        ensures
            can_yield(self@, old(ctx)@, result_view(r), final(ctx)@),
    {
        generate_with(self, rng, ctx)
    }

    /// A short description of the token: its kind and its main parameter.
    fn describe(&self) -> (text: String)
        ensures
            text@ == describe_node(self@),
    {
        self.describe_token()
    }
}

/// Generates one candidate from the tokens of a whole pattern, walked as the
/// parts of one concatenation, with the draws of `source`.
pub fn generate_all<S: DrawSource>(
    tokens: &Vec<Token>,
    source: &mut S,
    ctx: &mut TokenContext,
) -> (r: Result<String, GenrexError>)
    ensures
        can_yield_all(nodes_of(tokens@), old(ctx)@, result_view(r), final(ctx)@),
        replay_all_is(
            nodes_of(tokens@),
            old(ctx)@,
            *old(source),
            result_view(r),
            final(ctx)@,
            *final(source),
        ),
{
    let r = generate_sequence(tokens, source, ctx, Ghost(Seq::empty()));
    proof {
        lemma_extends_self(r.1@);
        assert(walk_all(nodes_of(tokens@), old(ctx)@, r.1@, 0) == (Outcome {
            result: result_view(r.0),
            ctx: ctx@,
            pos: r.1@.len(),
        }));
    }
    r.0
}

} // verus!
