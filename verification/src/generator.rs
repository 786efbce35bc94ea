//! The orchestrator: a generator built for one pattern, which retries the
//! walk of its tokens until a candidate is admitted or the budget is spent.

use crate::ast::option_ast;
use crate::ast::Ast;
use crate::ast::AstNode;
use crate::clock::elapsed_since;
use crate::clock::duration_of_millis;
use crate::clock::duration_reaches;
use crate::clock::milliseconds;
use crate::clock::reaches;
use crate::error::GenError;
use crate::error::GenrexError;
use crate::error::GenrexErrorView;
use crate::identities::law_lex_numbers_groups;
use crate::legacy::text_of;
use crate::lexer::lex;
use crate::lexer::lex_pattern;
use crate::parser::parse_at;
use crate::parser::AstParser;
use crate::random::entropy_source;
use crate::source::DrawSource;
use crate::tactics::accepted;
use crate::tactics::accepts_under;
use crate::tactics::admits_under;
use crate::tactics::always_admitted_under;
use crate::tactics::attempt_assured_under;
use crate::tactics::attempt_tokens;
use crate::tactics::can_produce_under;
use crate::tactics::generate_many_under;
use crate::tactics::generate_under;
use crate::tactics::judge;
use crate::tactics::outcome_under;
use crate::tactics::outcomes_under;
use crate::tactics::rejections_of;
use crate::tactics::reported;
use crate::tactics::retries_under;
use crate::tactics::texts_of;
use crate::tactics::verdict;
use crate::tactics::views;
use crate::tactics::Rejection;
use crate::tactics::Run;
use crate::tactics::Runs;
use crate::tokens::lemma_nodes_of;
use crate::tokens::nodes_of;
use crate::tokens::Node;
use crate::tokens::Token;
use crate::traits::GenerationAgent;
use crate::traits::GeneratorConfigurable;
use crate::traits::RegexStringGenerator;
use crate::validator::compile;
use crate::validator::compile_report;
use crate::validator::pattern_compiles;
use crate::validator::error_report;
use crate::validator::report_of;
use rand::rngs::StdRng;
use regex::Regex;
use std::time::Duration;
use vstd::prelude::*;
use vstd::string::StringExecFns;

verus! {

/// The limits of a generator.
#[derive(Clone, Debug)]
pub struct GeneratorConfig {
    /// Least number of bytes of a candidate.
    pub min_len: usize,
    /// Greatest number of bytes of a candidate.
    pub max_len: usize,
    /// Greatest number of candidates tried in one generation.
    pub max_attempts: usize,
    /// Time budget of one generation, checked once before each attempt.
    pub timeout: Option<Duration>,
}

impl GeneratorConfig {
    /// Whether these are the default limits: candidates of up to 64 bytes,
    /// 10,000 attempts, no time budget.
    pub open spec fn is_default(&self) -> bool {
        &&& self.min_len == 0
        &&& self.max_len == 64
        &&& self.max_attempts == 10_000
        &&& self.timeout is None
    }
}

impl Default for GeneratorConfig {
    /// Candidates of up to 64 bytes, 10,000 attempts, no time budget.
    fn default() -> (config: GeneratorConfig)
        ensures
            config.is_default(),
    {
        GeneratorConfig { min_len: 0, max_len: 64, max_attempts: 10_000, timeout: None }
    }
}

/// Whether a generation that has taken the time `passed` has spent the time
/// budget of `config`: there is one, and `passed` is at least as long.
pub open spec fn spent_after(config: GeneratorConfig, passed: Duration) -> bool {
    match config.timeout {
        Some(limit) => duration_reaches(passed, limit),
        None => false,
    }
}

/// The tokens kept for generation: none where the pattern has no token.
pub open spec fn kept_tokens(nodes: Seq<Node>) -> Option<Seq<Node>> {
    if nodes.len() == 0 {
        None
    } else {
        Some(nodes)
    }
}

/// The older tree form derived from the tokens of a pattern.
pub open spec fn derived_tree(nodes: Seq<Node>) -> Option<Ast> {
    if nodes.len() == 0 {
        None
    } else {
        parse_at(nodes, 0)
    }
}

/// A generator of strings that match one pattern.
pub struct RegexGenerator {
    re: Option<Regex>,
    config: GeneratorConfig,
    rng: StdRng,
    multiline: bool,
    ast: Option<AstNode>,
    tokens: Option<Vec<Token>>,
}

/// The parts from which a [`RegexGenerator`] is built.
pub struct RegexGeneratorBuilder {
    pattern: String,
    config: GeneratorConfig,
    rng: Option<StdRng>,
    multiline: bool,
    allow_backrefs: bool,
}

impl RegexGeneratorBuilder {
    /// The text of the pattern.
    pub closed spec fn pattern_text(&self) -> Seq<char> {
        self.pattern@
    }

    /// The limits that the generator will have.
    pub closed spec fn settings(&self) -> GeneratorConfig {
        self.config
    }

    /// Whether the generator will be in multi-line mode.
    pub closed spec fn multiline_flag(&self) -> bool {
        self.multiline
    }

    /// Whether a pattern that the validator cannot compile is tolerated.
    pub closed spec fn tolerant(&self) -> bool {
        self.allow_backrefs
    }

    /// The random source that was injected, if any.
    pub closed spec fn source(&self) -> Option<StdRng> {
        self.rng
    }

    /// Starts a builder for `pattern`, with the default limits, no injected
    /// random source, multi-line mode off and no tolerance.
    pub fn new(pattern: &str) -> (builder: Self)
        ensures
            builder.pattern_text() == pattern@,
            builder.settings().is_default(),
            builder.source() is None,
            !builder.multiline_flag(),
            !builder.tolerant(),
    {
        RegexGeneratorBuilder {
            pattern: String::from_str(pattern),
            config: GeneratorConfig::default(),
            rng: None,
            multiline: false,
            allow_backrefs: false,
        }
    }

    /// Replaces the limits.
    pub fn config(self, config: GeneratorConfig) -> (builder: Self)
        ensures
            builder.settings() == config,
            builder.pattern_text() == self.pattern_text(),
            builder.source() == self.source(),
            builder.multiline_flag() == self.multiline_flag(),
            builder.tolerant() == self.tolerant(),
    {
        let mut builder = self;
        builder.config = config;
        builder
    }

    /// Injects the random source, for reproducible generation.
    pub fn rng(self, rng: StdRng) -> (builder: Self)
        ensures
            builder.source() == Some(rng),
            builder.pattern_text() == self.pattern_text(),
            builder.settings() == self.settings(),
            builder.multiline_flag() == self.multiline_flag(),
            builder.tolerant() == self.tolerant(),
    {
        let mut builder = self;
        builder.rng = Some(rng);
        builder
    }

    /// Sets multi-line mode.
    pub fn multiline(self, enabled: bool) -> (builder: Self)
        ensures
            builder.multiline_flag() == enabled,
            builder.pattern_text() == self.pattern_text(),
            builder.settings() == self.settings(),
            builder.source() == self.source(),
            builder.tolerant() == self.tolerant(),
    {
        let mut builder = self;
        builder.multiline = enabled;
        builder
    }

    /// Tolerates a pattern that the validator cannot compile, such as one
    /// with back-references: the generator then admits every candidate of
    /// admissible length.
    pub fn allow_backrefs(self) -> (builder: Self)
        ensures
            builder.tolerant(),
            builder.pattern_text() == self.pattern_text(),
            builder.settings() == self.settings(),
            builder.source() == self.source(),
            builder.multiline_flag() == self.multiline_flag(),
    {
        let mut builder = self;
        builder.allow_backrefs = true;
        builder
    }

    /// Builds the generator from what compiling the pattern gave. It fails
    /// exactly if the pattern did not compile and that is not tolerated.
    /// The generator has the validator that was compiled, or none if there
    /// is none; its tokens are those of the pattern, with capturing groups
    /// numbered from 1.
    pub fn assemble(self, compiled: Result<Regex, regex::Error>) -> (r: Result<
        RegexGenerator,
        GenError,
    >)
        requires
            self.pattern_text().len() < usize::MAX,
        ensures
            r is Ok <==> (compiled is Ok || self.tolerant()),
            r matches Err(e) ==> compiled matches Err(failure) && e@
                == crate::error::GenErrorView::InvalidRegex(report_of(failure)),
            r matches Ok(g) ==> {
                &&& g.settings() == self.settings()
                &&& g.multiline_enabled() == self.multiline_flag()
                &&& g.token_nodes() == kept_tokens(lex(self.pattern_text(), 1).nodes)
                &&& g.tree() == derived_tree(lex(self.pattern_text(), 1).nodes)
                &&& g.validator() == match compiled {
                    Ok(re) => Some(re),
                    Err(_) => None,
                }
            },
    {
        let re = match compiled {
            Ok(re) => Some(re),
            Err(e) => {
                if !self.allow_backrefs {
                    return Err(GenError::InvalidRegex(error_report(&e)));
                }
                None
            },
        };
        let rng = match self.rng {
            Some(rng) => rng,
            None => entropy_source(),
        };
        let mut next_group: usize = 1;
        proof {
            law_lex_numbers_groups(self.pattern@, 1);
        }
        let tokens = lex_pattern(self.pattern.as_str(), &mut next_group);
        proof {
            lemma_nodes_of(tokens@);
        }
        let ast = if tokens.len() != 0 {
            let mut parser = AstParser::new(tokens.as_slice());
            parser.parse()
        } else {
            None
        };
        let kept = if tokens.len() == 0 {
            None
        } else {
            Some(tokens)
        };
        Ok(
            RegexGenerator {
                re,
                config: self.config,
                rng,
                multiline: self.multiline,
                ast,
                tokens: kept,
            },
        )
    }

    /// Compiles the pattern for validation, tokenizes it and builds the
    /// generator. The build succeeds exactly if the validator compiles the
    /// pattern or a failure to compile is tolerated; otherwise it fails
    /// with the validator's report. The generator has a validator exactly
    /// if the pattern compiles, and the validator then accepts what the
    /// pattern matches.
    pub fn build(self) -> (r: Result<RegexGenerator, GenError>)
        requires
            self.pattern_text().len() < usize::MAX,
        ensures
            r is Ok <==> (self.tolerant() || pattern_compiles(self.pattern_text())),
            r matches Err(e) ==> e@ == crate::error::GenErrorView::InvalidRegex(
                compile_report(self.pattern_text()),
            ),
            r matches Ok(g) ==> {
                &&& g.settings() == self.settings()
                &&& g.multiline_enabled() == self.multiline_flag()
                &&& g.token_nodes() == kept_tokens(lex(self.pattern_text(), 1).nodes)
                &&& g.tree() == derived_tree(lex(self.pattern_text(), 1).nodes)
                &&& (g.permissive() <==> !pattern_compiles(self.pattern_text()))
                &&& (!g.permissive() ==> forall|text: Seq<char>| #[trigger]
                    g.accepts(text) == crate::validator::pattern_matches(
                        self.pattern_text(),
                        text,
                    ))
            },
    {
        let compiled = compile(self.pattern.as_str());
        self.assemble(compiled)
    }
}

impl RegexGenerator {
    /// The limits of the generator.
    pub closed spec fn settings(&self) -> GeneratorConfig {
        self.config
    }

    /// Whether multi-line mode is enabled.
    pub closed spec fn multiline_enabled(&self) -> bool {
        self.multiline
    }

    /// The nodes of the tokens that the generator walks, if it has tokens.
    pub closed spec fn token_nodes(&self) -> Option<Seq<Node>> {
        match self.tokens {
            Some(tokens) => Some(nodes_of(tokens@)),
            None => None,
        }
    }

    /// The older tree form of the pattern, if the generator has one.
    pub closed spec fn tree(&self) -> Option<Ast> {
        option_ast(self.ast)
    }

    /// The compiled validator; none for a generator that admits every
    /// candidate of admissible length.
    pub closed spec fn validator(&self) -> Option<Regex> {
        self.re
    }

    /// Whether the generator has no validator.
    pub open spec fn permissive(&self) -> bool {
        self.validator() is None
    }

    /// Whether the validator accepts `text`.
    pub open spec fn accepts(&self, text: Seq<char>) -> bool {
        accepts_under(self.validator(), text)
    }

    /// Whether `text` is admitted as a result: its length in bytes is within
    /// the limits and the validator accepts it.
    pub open spec fn admits(&self, text: Seq<char>) -> bool {
        admits_under(self.settings(), self.validator(), text)
    }

    /// Whether the generator differs from `before` in the state of its
    /// random source at most.
    pub open spec fn same_setup(&self, before: &Self) -> bool {
        &&& self.settings() == before.settings()
        &&& self.multiline_enabled() == before.multiline_enabled()
        &&& self.token_nodes() == before.token_nodes()
        &&& self.tree() == before.tree()
        &&& self.validator() == before.validator()
    }

    /// Whether the generator has the tokens, the tree, the validator and
    /// the multi-line mode of `before`.
    pub open spec fn keeps_pattern(&self, before: &Self) -> bool {
        &&& self.multiline_enabled() == before.multiline_enabled()
        &&& self.token_nodes() == before.token_nodes()
        &&& self.tree() == before.tree()
        &&& self.validator() == before.validator()
    }

    /// Whether every candidate that the tactic in use can make is admitted:
    /// the text of every walk of the tokens; without tokens, the text of
    /// every walk of the tree; without either, every string of letters and
    /// digits of an admissible length, of which there must be one.
    pub open spec fn always_admitted(&self) -> bool {
        always_admitted_under(self.settings(), self.validator(), self.token_nodes(), self.tree())
    }

    /// Whether the tactic in use makes its attempts in a loop that the
    /// limits bound: all but the single pass over a tree.
    pub open spec fn retries(&self) -> bool {
        retries_under(self.token_nodes(), self.tree())
    }

    /// Whether the limits allow a first attempt in any case: the tactic
    /// makes a single pass, or an attempt is allowed and there is no time
    /// budget.
    pub open spec fn attempt_assured(&self) -> bool {
        attempt_assured_under(self.settings(), self.token_nodes(), self.tree())
    }

    /// Whether `text` can come out of the tactic that the generator uses:
    /// a walk of its tokens; without tokens, a walk of its tree; without
    /// either, random letters and digits.
    pub open spec fn can_produce(&self, text: Seq<char>) -> bool {
        can_produce_under(self.token_nodes(), self.tree(), text)
    }

    /// What one generation returns on the stream `s` from position `pos`
    /// on, where there is no time budget.
    pub open spec fn outcome(&self, s: Seq<int>, pos: nat) -> Run {
        outcome_under(self.settings(), self.validator(), self.token_nodes(), self.tree(), s, pos)
    }

    /// What `n` generations return, one after the other on the stream `s`
    /// from position `pos` on, where there is no time budget: all their
    /// texts, or nothing once one of them fails, which ends the run.
    pub open spec fn outcomes(&self, s: Seq<int>, pos: nat, n: nat) -> Runs {
        outcomes_under(
            self.settings(),
            self.validator(),
            self.token_nodes(),
            self.tree(),
            s,
            pos,
            n,
            Seq::empty(),
        )
    }

    /// Starts a builder for `pattern`.
    pub fn builder(pattern: &str) -> (builder: RegexGeneratorBuilder)
        ensures
            builder.pattern_text() == pattern@,
            builder.settings().is_default(),
            builder.source() is None,
            !builder.multiline_flag(),
            !builder.tolerant(),
    {
        RegexGeneratorBuilder::new(pattern)
    }

    /// Enables or disables multi-line mode.
    pub fn multiline(&mut self, enabled: bool) -> (r: &mut Self)
        ensures
            *final(self) == *final(r),
            r.multiline_enabled() == enabled,
            r.settings() == old(self).settings(),
            r.token_nodes() == old(self).token_nodes(),
            r.tree() == old(self).tree(),
            r.validator() == old(self).validator(),
    {
        self.multiline = enabled;
        self
    }

    /// Whether the validator accepts `candidate`.
    pub fn validates(&self, candidate: &str) -> (b: bool)
        ensures
            b == self.accepts(candidate@),
    {
        accepted(&self.re, candidate)
    }

    /// Whether `candidate` is admitted as a result.
    pub fn admits_candidate(&self, candidate: &String) -> (b: bool)
        ensures
            b == self.admits(candidate@),
    {
        judge(&self.config, &self.re, candidate).is_none()
    }

    /// Whether the time budget of `config` is spent at this moment: the
    /// answer of [`spent_after`] for the time that has passed since `start`.
    /// What the clock says is left open; without a budget the clock is not
    /// read and the answer is no.
    pub(crate) fn out_of_time(config: &GeneratorConfig, start: &std::time::Instant) -> (spent:
        bool)
        ensures
            exists|passed: Duration| spent == #[trigger] spent_after(*config, passed),
            config.timeout is None ==> !spent,
    {
        match &config.timeout {
            Some(limit) => {
                let passed = elapsed_since(start);
                let spent = reaches(&passed, limit);
                assert(spent == spent_after(*config, passed));
                spent
            },
            None => {
                assert(!spent_after(*config, duration_of_millis(0)));
                false
            },
        }
    }

    /// Generates one string.
    ///
    /// With tokens, each attempt walks them from a fresh context, and the
    /// first candidate that is admitted is returned; an attempt whose walk
    /// fails, or whose candidate is not admitted, ends only itself. Without
    /// tokens but with a tree, one pass over the tree is made. With
    /// neither, each attempt is a string of random letters and digits of a
    /// random admissible length. The attempts end when their number reaches
    /// the limit or when the time budget, read before each attempt, is
    /// spent. Only one tactic is used in a call: when the attempts on the
    /// tokens are spent, the budget is spent.
    ///
    /// A string that is returned is admitted and comes from the tactic in
    /// use. The only error is a missing match. Success is owed if every
    /// candidate that the tactic can make is admitted and the limits allow
    /// a first attempt in any case. What is returned for given draws is
    /// stated at [`Self::generate_one_with`].
    pub fn generate_one(&mut self) -> (r: Result<String, GenError>)
        ensures
            final(self).same_setup(old(self)),
            r matches Ok(text) ==> old(self).admits(text@) && old(self).can_produce(text@),
            r matches Err(e) ==> e is NoMatch,
            old(self).retries() && old(self).settings().max_attempts == 0 ==> r is Err,
            old(self).always_admitted() && old(self).attempt_assured() ==> r is Ok,
    {
        let mut unused: Vec<Rejection> = Vec::new();
        generate_under(
            &self.config,
            &self.re,
            &self.tokens,
            &self.ast,
            &mut self.rng,
            false,
            &mut unused,
        )
    }

    /// Generates one string as [`Self::generate_one`] does, and hands out
    /// beside the result the candidates that were made and not admitted,
    /// in order, each with the reason.
    pub fn generate_one_reported(&mut self) -> (r: (Result<String, GenError>, Vec<Rejection>))
        ensures
            final(self).same_setup(old(self)),
            r.0 matches Ok(text) ==> old(self).admits(text@) && old(self).can_produce(text@),
            r.0 matches Err(e) ==> e is NoMatch,
            old(self).retries() && old(self).settings().max_attempts == 0 ==> r.0 is Err,
            old(self).always_admitted() && old(self).attempt_assured() ==> r.0 is Ok,
            forall|i: int|
                0 <= i < r.1.len() ==> verdict(
                    old(self).settings(),
                    old(self).validator(),
                    (#[trigger] r.1[i]).candidate@,
                ) == Some(r.1[i].reason),
    {
        let mut rejected: Vec<Rejection> = Vec::new();
        let result = generate_under(
            &self.config,
            &self.re,
            &self.tokens,
            &self.ast,
            &mut self.rng,
            true,
            &mut rejected,
        );
        (result, rejected)
    }

    /// Generates one string with the draws of `source` in place of the
    /// generator's own random source, and appends the candidates that were
    /// made and not admitted to `rejected`.
    ///
    /// Whatever the source hands out, the result is as that of
    /// [`Self::generate_one`]. With a source that follows a script and
    /// without a time budget, the result is exactly [`Self::outcome`] on the
    /// script: a miss or a failed walk is followed by the next attempt
    /// until the attempts are spent. The candidates appended are then those
    /// that the attempts on the tokens reject.
    pub fn generate_one_with<S: DrawSource>(
        &self,
        source: &mut S,
        rejected: &mut Vec<Rejection>,
    ) -> (r: Result<String, GenError>)
        ensures
            r matches Ok(text) ==> self.admits(text@) && self.can_produce(text@),
            r matches Err(e) ==> e is NoMatch,
            self.retries() && self.settings().max_attempts == 0 ==> r is Err,
            self.always_admitted() && self.attempt_assured() ==> r is Ok,
            reported(self.settings(), self.validator(), old(rejected)@, final(rejected)@, true),
            old(source).script() matches Some(s) ==> final(source).script() == Some(s),
            old(source).script() matches Some(s) ==> self.settings().timeout is None ==> (Run {
                text: text_of(r),
                pos: final(source).position(),
            }) == self.outcome(s, old(source).position()),
            old(source).script() matches Some(s) ==> (self.token_nodes() matches Some(nodes)
                ==> self.settings().timeout is None ==> views(final(rejected)@) == views(
                old(rejected)@,
            ) + rejections_of(
                self.settings(),
                self.validator(),
                nodes,
                s,
                old(source).position(),
                self.settings().max_attempts as nat,
            )),
    {
        match &self.tokens {
            Some(tokens) => attempt_tokens(
                &self.config,
                &self.re,
                tokens,
                source,
                true,
                rejected,
            ),
            None => generate_under(
                &self.config,
                &self.re,
                &self.tokens,
                &self.ast,
                source,
                true,
                rejected,
            ),
        }
    }

    /// Generates `n` strings, one after the other; the first failure ends
    /// the run and is returned, and the strings made before it are dropped.
    /// With `n == 0` no generation is made and the empty list is returned.
    /// What is returned for given draws is stated at
    /// [`Self::generate_n_with`].
    pub fn generate_n(&mut self, n: usize) -> (r: Result<Vec<String>, GenError>)
        ensures
            final(self).same_setup(old(self)),
            r matches Ok(texts) ==> texts.len() == n && forall|i: int|
                0 <= i < n ==> old(self).admits(#[trigger] texts[i]@) && old(self).can_produce(
                    texts[i]@,
                ),
            r matches Err(e) ==> e is NoMatch,
            n == 0 ==> r is Ok,
            n > 0 && old(self).retries() && old(self).settings().max_attempts == 0 ==> r is Err,
            old(self).always_admitted() && old(self).attempt_assured() ==> r is Ok,
    {
        generate_many_under(&self.config, &self.re, &self.tokens, &self.ast, n, &mut self.rng)
    }

    /// Generates `n` strings with the draws of `source` in place of the
    /// generator's own random source.
    ///
    /// Whatever the source hands out, the result is as that of
    /// [`Self::generate_n`]. With a source that follows a script and without
    /// a time budget, the result is exactly [`Self::outcomes`] on the
    /// script: each generation reads on where the one before stopped, and
    /// the first that fails ends the run. With `n == 0` nothing is drawn.
    pub fn generate_n_with<S: DrawSource>(&self, n: usize, source: &mut S) -> (r: Result<
        Vec<String>,
        GenError,
    >)
        ensures
            r matches Ok(texts) ==> texts.len() == n && forall|i: int|
                0 <= i < n ==> self.admits(#[trigger] texts[i]@) && self.can_produce(texts[i]@),
            r matches Err(e) ==> e is NoMatch,
            n == 0 ==> r is Ok,
            n > 0 && self.retries() && self.settings().max_attempts == 0 ==> r is Err,
            self.always_admitted() && self.attempt_assured() ==> r is Ok,
            old(source).script() matches Some(s) ==> final(source).script() == Some(s),
            n == 0 && old(source).script() is Some ==> final(source).position() == old(
                source,
            ).position(),
            old(source).script() matches Some(s) ==> self.settings().timeout is None ==> (Runs {
                texts: texts_of(r),
                pos: final(source).position(),
            }) == self.outcomes(s, old(source).position(), n as nat),
    {
        generate_many_under(&self.config, &self.re, &self.tokens, &self.ast, n, source)
    }
}

impl Default for RegexGenerator {
    /// A generator without pattern: it admits every string of up to 64
    /// bytes and produces random letters and digits.
    fn default() -> (g: RegexGenerator)
        ensures
            g.settings().is_default(),
            !g.multiline_enabled(),
            g.token_nodes() is None,
            g.tree() is None,
            g.permissive(),
    {
        RegexGenerator {
            re: None,
            config: GeneratorConfig::default(),
            rng: entropy_source(),
            multiline: false,
            ast: None,
            tokens: None,
        }
    }
}

impl RegexStringGenerator for RegexGenerator {
    /// A text may come out if it is admitted and comes from the tactic in
    /// use.
    open spec fn may_generate(&self, text: Seq<char>) -> bool {
        self.admits(text) && self.can_produce(text)
    }

    /// The only failure is a missing match.
    open spec fn may_fail(&self, error: GenrexErrorView) -> bool {
        error is NoMatch
    }

    /// Success is owed where every candidate that the tactic can make is
    /// admitted and the limits allow a first attempt in any case.
    open spec fn must_generate(&self) -> bool {
        self.always_admitted() && self.attempt_assured()
    }

    /// A generation changes the state of the random source at most.
    open spec fn same_generator(&self, before: &Self) -> bool {
        self.same_setup(before)
    }

    /// Generates one string as the generator's own `generate_one` does, and
    /// states a failure in the vocabulary of the token generator.
    fn generate_one(&mut self) -> Result<String, GenrexError> {
        match RegexGenerator::generate_one(self) {
            Ok(text) => Ok(text),
            Err(e) => Err(e.widen()),
        }
    }

    /// Whether multi-line mode is enabled.
    fn is_multiline(&self) -> (enabled: bool)
        ensures
            enabled == self.multiline_enabled(),
    {
        self.multiline
    }

    /// Generates `n` strings as the generator's own `generate_n` does, and
    /// states a failure in the vocabulary of the token generator.
    fn generate_n(&mut self, n: usize) -> Result<Vec<String>, GenrexError> {
        match RegexGenerator::generate_n(self, n) {
            Ok(texts) => Ok(texts),
            Err(e) => Err(e.widen()),
        }
    }
}

impl GeneratorConfigurable for RegexGenerator {
    /// Sets the least number of bytes of a candidate.
    fn min_len(&mut self, min: usize) -> (r: &mut Self)
        ensures
            *final(self) == *final(r),
            r.settings().min_len == min,
            r.settings().max_len == old(self).settings().max_len,
            r.settings().max_attempts == old(self).settings().max_attempts,
            r.settings().timeout == old(self).settings().timeout,
            r.keeps_pattern(old(self)),
    {
        self.config.min_len = min;
        self
    }

    /// Sets the greatest number of bytes of a candidate.
    fn max_len(&mut self, max: usize) -> (r: &mut Self)
        ensures
            *final(self) == *final(r),
            r.settings().max_len == max,
            r.settings().min_len == old(self).settings().min_len,
            r.settings().max_attempts == old(self).settings().max_attempts,
            r.settings().timeout == old(self).settings().timeout,
            r.keeps_pattern(old(self)),
    {
        self.config.max_len = max;
        self
    }

    /// Sets the greatest number of attempts of one generation.
    fn max_attempts(&mut self, attempts: usize) -> (r: &mut Self)
        ensures
            *final(self) == *final(r),
            r.settings().max_attempts == attempts,
            r.settings().min_len == old(self).settings().min_len,
            r.settings().max_len == old(self).settings().max_len,
            r.settings().timeout == old(self).settings().timeout,
            r.keeps_pattern(old(self)),
    {
        self.config.max_attempts = attempts;
        self
    }

    /// Sets the time budget of one generation in milliseconds, or clears it.
    fn timeout_ms(&mut self, ms: Option<u64>) -> (r: &mut Self)
        ensures
            *final(self) == *final(r),
            r.settings().timeout == match ms {
                Some(ms) => Some(duration_of_millis(ms)),
                None => None,
            },
            r.settings().min_len == old(self).settings().min_len,
            r.settings().max_len == old(self).settings().max_len,
            r.settings().max_attempts == old(self).settings().max_attempts,
            r.keeps_pattern(old(self)),
    {
        self.config.timeout = match ms {
            Some(ms) => Some(milliseconds(ms)),
            None => None,
        };
        self
    }

    /// Enables or disables multi-line mode.
    fn multiline(&mut self, enabled: bool) -> (r: &mut Self)
        ensures
            *final(self) == *final(r),
            r.multiline_enabled() == enabled,
            r.settings() == old(self).settings(),
            r.token_nodes() == old(self).token_nodes(),
            r.tree() == old(self).tree(),
            r.validator() == old(self).validator(),
    {
        self.multiline = enabled;
        self
    }
}

impl GenerationAgent for RegexGenerator {
    /// Generates one string. Every strategy name selects the one strategy
    /// that exists, that of `generate_one`.
    fn generate_with_strategy(&mut self, strategy: &str) -> (r: Result<String, GenrexError>)
        ensures
            final(self).same_setup(old(self)),
            r matches Ok(text) ==> old(self).admits(text@) && old(self).can_produce(text@),
            r matches Err(e) ==> e is NoMatch,
            old(self).retries() && old(self).settings().max_attempts == 0 ==> r is Err,
            old(self).always_admitted() && old(self).attempt_assured() ==> r is Ok,
    {
        match RegexGenerator::generate_one(self) {
            Ok(text) => Ok(text),
            Err(e) => Err(e.widen()),
        }
    }
}

} // verus!
