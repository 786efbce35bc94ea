//! The three tactics of a generation, over any source of draws: what each
//! returns is a function of the limits, the validator and the stream of
//! draws.

use crate::ast::option_ast;
use crate::ast::Ast;
use crate::ast::AstNode;
use crate::clock::now;
use crate::context::ContextView;
use crate::context::TokenContext;
use crate::error::GenError;
use crate::generate::generate_all;
use crate::generator::GeneratorConfig;
use crate::generator::RegexGenerator;
use crate::legacy::generate_from_ast;
use crate::legacy::text_of;
use crate::legacy::tree_can_yield;
use crate::legacy::tree_walk;
use crate::random::is_alphanumeric;
use crate::source::DrawSource;
use crate::text::byte_len;
use crate::text::push_char;
use crate::text::utf8_len;
use crate::tokens::nodes_of;
use crate::tokens::Node;
use crate::tokens::Token;
use crate::validator::is_match;
use crate::validator::regex_accepts;
use crate::walk::alphabet;
use crate::walk::draw;
use crate::walk::walk_all;
use regex::Regex;
use vstd::prelude::*;
use vstd::utf8::is_ascii_chars;
use vstd::utf8::is_ascii_chars_encode_utf8;

verus! {

/// Why a candidate was not admitted.
#[derive(Debug, Clone, Copy, PartialEq, Eq, Structural)]
pub enum Reason {
    /// Its length in bytes is outside the limits.
    Length,
    /// Its length is within the limits, and the validator does not accept
    /// it.
    Mismatch,
}

/// A candidate that was not admitted, with the reason.
#[derive(Debug)]
pub struct Rejection {
    pub candidate: String,
    pub reason: Reason,
}

/// The text and the reason of each of `rejected`, in order.
pub open spec fn views(rejected: Seq<Rejection>) -> Seq<(Seq<char>, Reason)> {
    Seq::new(rejected.len(), |i: int| (rejected[i].candidate@, rejected[i].reason))
}

/// What a tactic ends with: the text it returns, if any, and the position
/// in the stream of draws behind its last draw.
pub struct Run {
    pub text: Option<Seq<char>>,
    pub pos: nat,
}

/// What a run of generations ends with: the texts, if all succeeded, and
/// the position in the stream of draws behind the last draw.
pub struct Runs {
    pub texts: Option<Seq<Seq<char>>>,
    pub pos: nat,
}

/// The repetition bound of the context of every attempt.
pub open spec fn attempt_bound() -> nat {
    32
}

/// Whether the validator accepts `text`; without a validator every text is
/// accepted.
pub open spec fn accepts_under(validator: Option<Regex>, text: Seq<char>) -> bool {
    match validator {
        Some(re) => regex_accepts(re, text),
        None => true,
    }
}

/// Why `text` is not admitted, if it is not: the length is tested first,
/// the validator is asked only about texts of admissible length.
pub open spec fn verdict(
    config: GeneratorConfig,
    validator: Option<Regex>,
    text: Seq<char>,
) -> Option<Reason> {
    if byte_len(text) < config.min_len || byte_len(text) > config.max_len {
        Some(Reason::Length)
    } else if !accepts_under(validator, text) {
        Some(Reason::Mismatch)
    } else {
        None
    }
}

/// Whether `text` is admitted as a result: its length in bytes is within
/// the limits and the validator accepts it.
pub open spec fn admits_under(
    config: GeneratorConfig,
    validator: Option<Regex>,
    text: Seq<char>,
) -> bool {
    &&& config.min_len <= byte_len(text) <= config.max_len
    &&& accepts_under(validator, text)
}

/// Whether some walk of `nodes` from a fresh context yields `text`.
pub open spec fn token_candidate(nodes: Seq<Node>, text: Seq<char>) -> bool {
    exists|draws: Seq<int>|
        (#[trigger] walk_all(nodes, ContextView::fresh(attempt_bound()), draws, 0)).result == Ok::<
            Seq<char>,
            crate::error::GenrexErrorView,
        >(text)
}

/// Whether each character of `text` is an ASCII letter or digit.
pub open spec fn all_alphanumeric(text: Seq<char>) -> bool {
    forall|i: int| 0 <= i < text.len() ==> is_alphanumeric(#[trigger] text[i])
}

/// The tokens as nodes, where there are tokens.
pub open spec fn option_nodes(tokens: Option<Vec<Token>>) -> Option<Seq<Node>> {
    match tokens {
        Some(tokens) => Some(nodes_of(tokens@)),
        None => None,
    }
}

/// What the attempts on the tokens return, with `left` attempts allowed
/// and no time budget: the text of the first walk that yields an admitted
/// text. A walk that fails and a walk whose text is not admitted end only
/// their own attempt; each attempt starts from a fresh context and reads on
/// where the attempt before stopped.
pub open spec fn first_admitted(
    config: GeneratorConfig,
    validator: Option<Regex>,
    nodes: Seq<Node>,
    s: Seq<int>,
    pos: nat,
    left: nat,
) -> Run
    decreases left,
{
    if left == 0 {
        Run { text: None, pos }
    } else {
        let o = walk_all(nodes, ContextView::fresh(attempt_bound()), s, pos);
        match o.result {
            Ok(text) => if admits_under(config, validator, text) {
                Run { text: Some(text), pos: o.pos }
            } else {
                first_admitted(config, validator, nodes, s, o.pos, (left - 1) as nat)
            },
            Err(_) => first_admitted(config, validator, nodes, s, o.pos, (left - 1) as nat),
        }
    }
}

/// The candidates that the attempts on the tokens reject before they end,
/// each with the reason, in order. A walk that fails makes no candidate.
pub open spec fn rejections_of(
    config: GeneratorConfig,
    validator: Option<Regex>,
    nodes: Seq<Node>,
    s: Seq<int>,
    pos: nat,
    left: nat,
) -> Seq<(Seq<char>, Reason)>
    decreases left,
{
    if left == 0 {
        Seq::empty()
    } else {
        let o = walk_all(nodes, ContextView::fresh(attempt_bound()), s, pos);
        match o.result {
            Ok(text) => match verdict(config, validator, text) {
                None => Seq::empty(),
                Some(reason) => seq![(text, reason)] + rejections_of(
                    config,
                    validator,
                    nodes,
                    s,
                    o.pos,
                    (left - 1) as nat,
                ),
            },
            Err(_) => rejections_of(config, validator, nodes, s, o.pos, (left - 1) as nat),
        }
    }
}

/// What the single pass over the tree returns: the text of the walk, if it
/// yields one and the text is admitted.
pub open spec fn tree_attempt(
    config: GeneratorConfig,
    validator: Option<Regex>,
    tree: Ast,
    s: Seq<int>,
    pos: nat,
) -> Run {
    let o = tree_walk(tree, attempt_bound(), s, pos);
    match o.text {
        Some(text) => if admits_under(config, validator, text) {
            Run { text: Some(text), pos: o.pos }
        } else {
            Run { text: None, pos: o.pos }
        },
        None => Run { text: None, pos: o.pos },
    }
}

/// The `n` letters and digits that `n` draws from position `pos` on select.
pub open spec fn letters(s: Seq<int>, pos: nat, n: nat) -> Seq<char>
    decreases n,
{
    if n == 0 {
        Seq::empty()
    } else {
        letters(s, pos, (n - 1) as nat).push(
            alphabet()[draw(s, (pos + n - 1) as nat, 0, alphabet().len() - 1)],
        )
    }
}

/// What rejection sampling returns, with `left` attempts allowed, no time
/// budget and `min_len <= max_len`: the first sample that the validator
/// accepts. The length of a sample is the one admissible length or, where
/// there are several, the one that a draw selects.
pub open spec fn first_sampled(
    config: GeneratorConfig,
    validator: Option<Regex>,
    s: Seq<int>,
    pos: nat,
    left: nat,
) -> Run
    decreases left,
{
    if left == 0 {
        Run { text: None, pos }
    } else {
        let drawn = config.min_len != config.max_len;
        let len = if drawn {
            draw(s, pos, config.min_len as int, config.max_len as int) as nat
        } else {
            config.min_len as nat
        };
        let from = if drawn {
            pos + 1
        } else {
            pos
        };
        let text = letters(s, from, len);
        if accepts_under(validator, text) {
            Run { text: Some(text), pos: from + len }
        } else {
            first_sampled(config, validator, s, from + len, (left - 1) as nat)
        }
    }
}

/// What one generation returns on the stream `s` from position `pos` on,
/// where there is no time budget: the result of the attempts on the tokens;
/// without tokens, of the single pass over the tree; without either, of
/// rejection sampling, which makes no attempt if the limits on the length
/// are inverted.
pub open spec fn outcome_under(
    config: GeneratorConfig,
    validator: Option<Regex>,
    nodes: Option<Seq<Node>>,
    tree: Option<Ast>,
    s: Seq<int>,
    pos: nat,
) -> Run {
    match nodes {
        Some(nodes) => first_admitted(config, validator, nodes, s, pos, config.max_attempts as nat),
        None => match tree {
            Some(tree) => tree_attempt(config, validator, tree, s, pos),
            None => if config.min_len > config.max_len {
                Run { text: None, pos }
            } else {
                first_sampled(config, validator, s, pos, config.max_attempts as nat)
            },
        },
    }
}

/// What `left` more generations return after the texts `acc`, one after the
/// other on the stream `s`: all their texts, or nothing once one of them
/// fails, which ends the run.
pub open spec fn outcomes_under(
    config: GeneratorConfig,
    validator: Option<Regex>,
    nodes: Option<Seq<Node>>,
    tree: Option<Ast>,
    s: Seq<int>,
    pos: nat,
    left: nat,
    acc: Seq<Seq<char>>,
) -> Runs
    decreases left,
{
    if left == 0 {
        Runs { texts: Some(acc), pos }
    } else {
        let o = outcome_under(config, validator, nodes, tree, s, pos);
        match o.text {
            Some(text) => outcomes_under(
                config,
                validator,
                nodes,
                tree,
                s,
                o.pos,
                (left - 1) as nat,
                acc.push(text),
            ),
            None => Runs { texts: None, pos: o.pos },
        }
    }
}

/// Whether `text` can come out of the tactic in use: a walk of the tokens;
/// without tokens, a walk of the tree; without either, random letters and
/// digits.
pub open spec fn can_produce_under(
    nodes: Option<Seq<Node>>,
    tree: Option<Ast>,
    text: Seq<char>,
) -> bool {
    match nodes {
        Some(nodes) => token_candidate(nodes, text),
        None => match tree {
            Some(tree) => tree_can_yield(tree, attempt_bound(), Some(text)),
            None => all_alphanumeric(text),
        },
    }
}

/// Whether every candidate that the tactic in use can make is admitted:
/// the text of every walk of the tokens; without tokens, the text of every
/// walk of the tree; without either, every string of letters and digits of
/// an admissible length, of which there must be one.
pub open spec fn always_admitted_under(
    config: GeneratorConfig,
    validator: Option<Regex>,
    nodes: Option<Seq<Node>>,
    tree: Option<Ast>,
) -> bool {
    match nodes {
        Some(nodes) => forall|draws: Seq<int>|
            match (#[trigger] walk_all(
                nodes,
                ContextView::fresh(attempt_bound()),
                draws,
                0,
            )).result {
                Ok(text) => admits_under(config, validator, text),
                Err(_) => false,
            },
        None => match tree {
            Some(tree) => forall|draws: Seq<int>|
                match (#[trigger] tree_walk(tree, attempt_bound(), draws, 0)).text {
                    Some(text) => admits_under(config, validator, text),
                    None => false,
                },
            None => {
                &&& config.min_len <= config.max_len
                &&& forall|text: Seq<char>|
                    #[trigger] all_alphanumeric(text) && config.min_len <= text.len()
                        <= config.max_len ==> accepts_under(validator, text)
            },
        },
    }
}

/// Whether the tactic in use makes its attempts in a loop that the limits
/// bound: all but the single pass over a tree.
pub open spec fn retries_under(nodes: Option<Seq<Node>>, tree: Option<Ast>) -> bool {
    nodes is Some || tree is None
}

/// Whether the limits allow a first attempt in any case: the tactic makes
/// a single pass, or an attempt is allowed and there is no time budget.
pub open spec fn attempt_assured_under(
    config: GeneratorConfig,
    nodes: Option<Seq<Node>>,
    tree: Option<Ast>,
) -> bool {
    ||| !retries_under(nodes, tree)
    ||| (config.max_attempts > 0 && config.timeout is None)
}

/// How the list of rejected candidates may have changed: what it held
/// stays in front, nothing is added unless candidates are kept, and each
/// candidate that was added is not admitted, for the reason given.
pub open spec fn reported(
    config: GeneratorConfig,
    validator: Option<Regex>,
    before: Seq<Rejection>,
    after: Seq<Rejection>,
    keep: bool,
) -> bool {
    &&& before.len() <= after.len()
    &&& views(after).subrange(0, before.len() as int) == views(before)
    &&& !keep ==> after.len() == before.len()
    &&& forall|i: int|
        before.len() <= i < after.len() ==> verdict(
            config,
            validator,
            (#[trigger] after[i]).candidate@,
        ) == Some(after[i].reason)
}

/// Whether the validator accepts `text`.
pub fn accepted(validator: &Option<Regex>, text: &str) -> (b: bool)
    ensures
        b == accepts_under(*validator, text@),
{
    match validator {
        Some(re) => is_match(re, text),
        None => true,
    }
}

/// Why `candidate` is not admitted, if it is not.
pub fn judge(config: &GeneratorConfig, validator: &Option<Regex>, candidate: &String) -> (v:
    Option<Reason>)
    ensures
        v == verdict(*config, *validator, candidate@),
        v is None <==> admits_under(*config, *validator, candidate@),
{
    let len = utf8_len(candidate);
    if len < config.min_len || len > config.max_len {
        Some(Reason::Length)
    } else if !accepted(validator, candidate.as_str()) {
        Some(Reason::Mismatch)
    } else {
        None
    }
}

/// A string of `len` letters and digits drawn from `source`.
pub fn random_text<S: DrawSource>(source: &mut S, len: usize) -> (text: String)
    ensures
        text@.len() == len,
        all_alphanumeric(text@),
        byte_len(text@) == len,
        old(source).script() matches Some(s) ==> {
            &&& final(source).script() == Some(s)
            &&& final(source).position() == old(source).position() + len
            &&& text@ == letters(s, old(source).position(), len as nat)
        },
{
    let mut text = String::new();
    let mut i: usize = 0;
    while i < len
        invariant
            i <= len,
            text@.len() == i,
            all_alphanumeric(text@),
            old(source).script() matches Some(s) ==> {
                &&& source.script() == Some(s)
                &&& source.position() == old(source).position() + i
                &&& text@ == letters(s, old(source).position(), i as nat)
            },
        decreases len - i,
    {
        let c = source.draw_letter();
        push_char(&mut text, c);
        i += 1;
    }
    proof {
        assert(is_ascii_chars(text@)) by {
            assert forall|k: int| 0 <= k < text@.len() implies '\0' <= #[trigger] text@[k]
                <= '\u{7f}' by {
                assert(is_alphanumeric(text@[k]));
            }
        }
        is_ascii_chars_encode_utf8(text@);
    }
    text
}

/// The tactic of the tokens: walks them from a fresh context, attempt after
/// attempt, until a walk yields an admitted text, the attempts are spent or
/// the time budget, read before each attempt, is spent. With `keep`, the
/// candidates that are not admitted are appended to `rejected`.
pub fn attempt_tokens<S: DrawSource>(
    config: &GeneratorConfig,
    validator: &Option<Regex>,
    tokens: &Vec<Token>,
    source: &mut S,
    keep: bool,
    rejected: &mut Vec<Rejection>,
) -> (r: Result<String, GenError>)
    ensures
        r matches Ok(text) ==> admits_under(*config, *validator, text@) && token_candidate(
            nodes_of(tokens@),
            text@,
        ),
        r matches Err(e) ==> e is NoMatch,
        config.max_attempts == 0 ==> r is Err,
        always_admitted_under(*config, *validator, Some(nodes_of(tokens@)), None)
            && config.max_attempts > 0 && config.timeout is None ==> r is Ok,
        reported(*config, *validator, old(rejected)@, final(rejected)@, keep),
        old(source).script() matches Some(s) ==> final(source).script() == Some(s),
        old(source).script() matches Some(s) ==> config.timeout is None ==> {
            &&& (Run { text: text_of(r), pos: final(source).position() }) == first_admitted(
                *config,
                *validator,
                nodes_of(tokens@),
                s,
                old(source).position(),
                config.max_attempts as nat,
            )
            &&& keep ==> views(final(rejected)@) == views(old(rejected)@) + rejections_of(
                *config,
                *validator,
                nodes_of(tokens@),
                s,
                old(source).position(),
                config.max_attempts as nat,
            )
        },
{
    let ghost nodes = nodes_of(tokens@);
    let start = now();
    let mut attempts: usize = 0;
    let mut expired = false;
    assert(views(rejected@).subrange(0, rejected@.len() as int) =~= views(rejected@));
    assert(views(rejected@) + Seq::empty() =~= views(rejected@));
    while attempts < config.max_attempts && !expired
        invariant
            nodes == nodes_of(tokens@),
            attempts <= config.max_attempts,
            expired ==> config.timeout is Some,
            always_admitted_under(*config, *validator, Some(nodes), None) ==> attempts == 0,
            reported(*config, *validator, old(rejected)@, rejected@, keep),
            old(source).script() matches Some(s) ==> source.script() == Some(s),
            old(source).script() matches Some(s) ==> config.timeout is None ==> {
                &&& first_admitted(
                    *config,
                    *validator,
                    nodes,
                    s,
                    old(source).position(),
                    config.max_attempts as nat,
                ) == first_admitted(
                    *config,
                    *validator,
                    nodes,
                    s,
                    source.position(),
                    (config.max_attempts - attempts) as nat,
                )
                &&& keep ==> views(old(rejected)@) + rejections_of(
                    *config,
                    *validator,
                    nodes,
                    s,
                    old(source).position(),
                    config.max_attempts as nat,
                ) == views(rejected@) + rejections_of(
                    *config,
                    *validator,
                    nodes,
                    s,
                    source.position(),
                    (config.max_attempts - attempts) as nat,
                )
            },
        decreases config.max_attempts - attempts + (if expired { 0int } else { 1int }),
    {
        if RegexGenerator::out_of_time(config, &start) {
            expired = true;
        } else {
            attempts += 1;
            let mut ctx = TokenContext::new();
            let generated = generate_all(tokens, source, &mut ctx);
            match generated {
                Ok(candidate) => {
                    match judge(config, validator, &candidate) {
                        None => {
                            proof {
                                assert(views(rejected@) + Seq::empty() =~= views(rejected@));
                            }
                            return Ok(candidate);
                        },
                        Some(reason) => {
                            if keep {
                                let ghost before = rejected@;
                                let ghost text = candidate@;
                                rejected.push(Rejection { candidate, reason });
                                proof {
                                    assert(views(rejected@) =~= views(before).push((text, reason)));
                                    assert(views(rejected@).subrange(
                                        0,
                                        old(rejected)@.len() as int,
                                    ) =~= views(before).subrange(0, old(rejected)@.len() as int));
                                    if let Some(s) = old(source).script() {
                                        let rest = rejections_of(
                                            *config,
                                            *validator,
                                            nodes,
                                            s,
                                            source.position(),
                                            (config.max_attempts - attempts) as nat,
                                        );
                                        assert(views(before) + (seq![(text, reason)] + rest)
                                            =~= views(rejected@) + rest);
                                    }
                                }
                            }
                        },
                    }
                },
                Err(_) => {},
            }
        }
    }
    Err(GenError::NoMatch)
}

/// The tactic of the tree: one pass. With `keep`, a candidate that is not
/// admitted is appended to `rejected`.
pub fn attempt_tree<S: DrawSource>(
    config: &GeneratorConfig,
    validator: &Option<Regex>,
    tree: &AstNode,
    source: &mut S,
    keep: bool,
    rejected: &mut Vec<Rejection>,
) -> (r: Result<String, GenError>)
    ensures
        r matches Ok(text) ==> admits_under(*config, *validator, text@) && tree_can_yield(
            tree@,
            attempt_bound(),
            Some(text@),
        ),
        r matches Err(e) ==> e is NoMatch,
        always_admitted_under(*config, *validator, None, Some(tree@)) ==> r is Ok,
        reported(*config, *validator, old(rejected)@, final(rejected)@, keep),
        old(source).script() matches Some(s) ==> {
            &&& final(source).script() == Some(s)
            &&& (Run { text: text_of(r), pos: final(source).position() }) == tree_attempt(
                *config,
                *validator,
                tree@,
                s,
                old(source).position(),
            )
        },
{
    let ctx = TokenContext::new();
    assert(views(rejected@).subrange(0, rejected@.len() as int) =~= views(rejected@));
    match generate_from_ast(tree, source, &ctx) {
        Ok(candidate) => {
            match judge(config, validator, &candidate) {
                None => Ok(candidate),
                Some(reason) => {
                    if keep {
                        let ghost before = rejected@;
                        let ghost text = candidate@;
                        rejected.push(Rejection { candidate, reason });
                        proof {
                            assert(views(rejected@) =~= views(before).push((text, reason)));
                            assert(views(rejected@).subrange(0, before.len() as int) =~= views(
                                before,
                            ));
                        }
                    }
                    Err(GenError::NoMatch)
                },
            }
        },
        Err(_) => Err(GenError::NoMatch),
    }
}

/// The tactic of rejection sampling: strings of letters and digits of an
/// admissible length, attempt after attempt, until the validator accepts
/// one, the attempts are spent or the time budget, read before each
/// attempt, is spent. With inverted limits on the length no attempt is
/// made.
pub fn attempt_samples<S: DrawSource>(
    config: &GeneratorConfig,
    validator: &Option<Regex>,
    source: &mut S,
) -> (r: Result<String, GenError>)
    ensures
        r matches Ok(text) ==> admits_under(*config, *validator, text@) && all_alphanumeric(
            text@,
        ),
        r matches Err(e) ==> e is NoMatch,
        config.max_attempts == 0 ==> r is Err,
        always_admitted_under(*config, *validator, None, None) && config.max_attempts > 0
            && config.timeout is None ==> r is Ok,
        old(source).script() matches Some(s) ==> final(source).script() == Some(s),
        old(source).script() matches Some(s) ==> config.timeout is None ==> (Run {
            text: text_of(r),
            pos: final(source).position(),
        }) == outcome_under(*config, *validator, None, None, s, old(source).position()),
{
    if config.min_len > config.max_len {
        return Err(GenError::NoMatch);
    }
    let start = now();
    let mut attempts: usize = 0;
    let mut expired = false;
    while attempts < config.max_attempts && !expired
        invariant
            config.min_len <= config.max_len,
            attempts <= config.max_attempts,
            expired ==> config.timeout is Some,
            always_admitted_under(*config, *validator, None, None) ==> attempts == 0,
            old(source).script() matches Some(s) ==> source.script() == Some(s),
            old(source).script() matches Some(s) ==> config.timeout is None ==> first_sampled(
                *config,
                *validator,
                s,
                old(source).position(),
                config.max_attempts as nat,
            ) == first_sampled(
                *config,
                *validator,
                s,
                source.position(),
                (config.max_attempts - attempts) as nat,
            ),
        decreases config.max_attempts - attempts + (if expired { 0int } else { 1int }),
    {
        if RegexGenerator::out_of_time(config, &start) {
            expired = true;
        } else {
            attempts += 1;
            let len = if config.max_len == config.min_len {
                config.min_len
            } else {
                source.draw(config.min_len, config.max_len)
            };
            let candidate = random_text(source, len);
            if accepted(validator, candidate.as_str()) {
                return Ok(candidate);
            }
        }
    }
    Err(GenError::NoMatch)
}

/// One generation with the tactic in use: that of the tokens; without
/// tokens, that of the tree; without either, rejection sampling.
pub fn generate_under<S: DrawSource>(
    config: &GeneratorConfig,
    validator: &Option<Regex>,
    tokens: &Option<Vec<Token>>,
    tree: &Option<AstNode>,
    source: &mut S,
    keep: bool,
    rejected: &mut Vec<Rejection>,
) -> (r: Result<String, GenError>)
    ensures
        r matches Ok(text) ==> admits_under(*config, *validator, text@) && can_produce_under(
            option_nodes(*tokens),
            option_ast(*tree),
            text@,
        ),
        r matches Err(e) ==> e is NoMatch,
        retries_under(option_nodes(*tokens), option_ast(*tree)) && config.max_attempts == 0
            ==> r is Err,
        always_admitted_under(*config, *validator, option_nodes(*tokens), option_ast(*tree))
            && attempt_assured_under(*config, option_nodes(*tokens), option_ast(*tree))
            ==> r is Ok,
        reported(*config, *validator, old(rejected)@, final(rejected)@, keep),
        old(source).script() matches Some(s) ==> final(source).script() == Some(s),
        old(source).script() matches Some(s) ==> config.timeout is None ==> (Run {
            text: text_of(r),
            pos: final(source).position(),
        }) == outcome_under(
            *config,
            *validator,
            option_nodes(*tokens),
            option_ast(*tree),
            s,
            old(source).position(),
        ),
{
    match tokens {
        Some(tokens) => attempt_tokens(config, validator, tokens, source, keep, rejected),
        None => match tree {
            Some(tree) => attempt_tree(config, validator, tree, source, keep, rejected),
            None => {
                assert(views(rejected@).subrange(0, rejected@.len() as int) =~= views(rejected@));
                attempt_samples(config, validator, source)
            },
        },
    }
}

/// The texts of a result, if it has them.
pub open spec fn texts_of(r: Result<Vec<String>, GenError>) -> Option<Seq<Seq<char>>> {
    match r {
        Ok(texts) => Some(Seq::new(texts@.len(), |i: int| texts@[i]@)),
        Err(_) => None,
    }
}

/// `n` generations, one after the other; the first failure ends the run
/// and is returned, and the texts made before it are dropped.
pub fn generate_many_under<S: DrawSource>(
    config: &GeneratorConfig,
    validator: &Option<Regex>,
    tokens: &Option<Vec<Token>>,
    tree: &Option<AstNode>,
    n: usize,
    source: &mut S,
) -> (r: Result<Vec<String>, GenError>)
    ensures
        r matches Ok(texts) ==> texts.len() == n && forall|i: int|
            0 <= i < n ==> admits_under(*config, *validator, #[trigger] texts[i]@)
                && can_produce_under(option_nodes(*tokens), option_ast(*tree), texts[i]@),
        r matches Err(e) ==> e is NoMatch,
        n == 0 ==> r is Ok,
        n > 0 && retries_under(option_nodes(*tokens), option_ast(*tree)) && config.max_attempts
            == 0 ==> r is Err,
        always_admitted_under(*config, *validator, option_nodes(*tokens), option_ast(*tree))
            && attempt_assured_under(*config, option_nodes(*tokens), option_ast(*tree))
            ==> r is Ok,
        old(source).script() matches Some(s) ==> final(source).script() == Some(s),
        n == 0 && old(source).script() is Some ==> final(source).position() == old(
            source,
        ).position(),
        old(source).script() matches Some(s) ==> config.timeout is None ==> (Runs {
            texts: texts_of(r),
            pos: final(source).position(),
        }) == outcomes_under(
            *config,
            *validator,
            option_nodes(*tokens),
            option_ast(*tree),
            s,
            old(source).position(),
            n as nat,
            Seq::empty(),
        ),
{
    let mut texts: Vec<String> = Vec::new();
    let mut unused: Vec<Rejection> = Vec::new();
    let mut i: usize = 0;
    assert(Seq::new(texts@.len(), |k: int| texts@[k]@) =~= Seq::<Seq<char>>::empty());
    while i < n
        invariant
            i <= n,
            texts.len() == i,
            retries_under(option_nodes(*tokens), option_ast(*tree)) && config.max_attempts == 0
                ==> i == 0,
            forall|k: int|
                0 <= k < i ==> admits_under(*config, *validator, #[trigger] texts[k]@)
                    && can_produce_under(option_nodes(*tokens), option_ast(*tree), texts[k]@),
            old(source).script() matches Some(s) ==> source.script() == Some(s),
            i == 0 && old(source).script() is Some ==> source.position() == old(
                source,
            ).position(),
            old(source).script() matches Some(s) ==> config.timeout is None ==> outcomes_under(
                *config,
                *validator,
                option_nodes(*tokens),
                option_ast(*tree),
                s,
                old(source).position(),
                n as nat,
                Seq::empty(),
            ) == outcomes_under(
                *config,
                *validator,
                option_nodes(*tokens),
                option_ast(*tree),
                s,
                source.position(),
                (n - i) as nat,
                Seq::new(texts@.len(), |k: int| texts@[k]@),
            ),
        decreases n - i,
    {
        let ghost before = Seq::new(texts@.len(), |k: int| texts@[k]@);
        match generate_under(config, validator, tokens, tree, source, false, &mut unused) {
            Ok(text) => {
                let ghost view = text@;
                texts.push(text);
                assert(Seq::new(texts@.len(), |k: int| texts@[k]@) =~= before.push(view));
            },
            Err(e) => {
                return Err(e);
            },
        }
        i += 1;
    }
    Ok(texts)
}

} // verus!
