//! The traits through which tokens and generators are used.

use crate::context::TokenContext;
use crate::error::GenrexError;
use crate::error::GenrexErrorView;
use rand::rngs::StdRng;
use vstd::prelude::*;

verus! {

/// A node of a pattern that can generate text.
pub trait RegexToken {
    /// Generates one fragment for this node, with the random source `rng`
    /// and the state of the attempt in `ctx`.
    fn generate(&self, rng: &mut StdRng, ctx: &mut TokenContext) -> Result<String, GenrexError>;

    /// A short description of the node.
    fn describe(&self) -> String;
}

/// A generator of strings that match a pattern.
///
/// An implementation says in the four predicates what its generations can
/// yield; one that does not say leaves everything open.
pub trait RegexStringGenerator {
    /// Whether `text` may come out of a generation.
    open spec fn may_generate(&self, text: Seq<char>) -> bool {
        true
    }

    /// Whether a generation may fail with `error`.
    open spec fn may_fail(&self, error: GenrexErrorView) -> bool {
        true
    }

    /// Whether a generation is bound to succeed.
    open spec fn must_generate(&self) -> bool {
        false
    }

    /// Whether the generator is, after a generation, what it was `before` in
    /// all that decides its results.
    open spec fn same_generator(&self, before: &Self) -> bool {
        true
    }

    /// Generates one string.
    fn generate_one(&mut self) -> (r: Result<String, GenrexError>)
        ensures
            final(self).same_generator(old(self)),
            r matches Ok(text) ==> old(self).may_generate(text@),
            r matches Err(e) ==> old(self).may_fail(e@),
            old(self).must_generate() ==> r is Ok,
    ;

    /// Whether multi-line mode is enabled.
    fn is_multiline(&self) -> bool;

    /// Generates `n` strings; the first failure ends the run.
    fn generate_n(&mut self, n: usize) -> (r: Result<Vec<String>, GenrexError>)
        ensures
            final(self).same_generator(old(self)),
            r matches Ok(texts) ==> texts.len() == n && forall|i: int|
                0 <= i < n ==> old(self).may_generate(#[trigger] texts[i]@),
            r matches Err(e) ==> old(self).may_fail(e@),
            old(self).must_generate() ==> r is Ok,
    ;
}

/// A generator whose limits can be changed after construction.
pub trait GeneratorConfigurable {
    /// Sets the minimum length of generated strings.
    fn min_len(&mut self, min: usize) -> &mut Self;

    /// Sets the maximum length of generated strings.
    fn max_len(&mut self, max: usize) -> &mut Self;

    /// Sets the maximum number of attempts of one generation.
    fn max_attempts(&mut self, attempts: usize) -> &mut Self;

    /// Sets or clears the time budget of one generation, in milliseconds.
    fn timeout_ms(&mut self, ms: Option<u64>) -> &mut Self;

    /// Enables or disables multi-line mode.
    fn multiline(&mut self, enabled: bool) -> &mut Self;
}

/// A generator that can be asked for a named strategy.
pub trait GenerationAgent {
    /// Generates one string with the named strategy.
    fn generate_with_strategy(&mut self, strategy: &str) -> Result<String, GenrexError>;
}

} // verus!
