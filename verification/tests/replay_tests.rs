//! Walks on scripted draws: what the generator yields, draw by draw.

use genrex::generate::{generate_all, generate_with};
use genrex::legacy::generate_from_ast;
use genrex::lexer::lex_pattern;
use genrex::parser::AstParser;
use genrex::source::{DrawSource, Tape};
use genrex::{GenrexError, Token, TokenContext};

// What `token` yields on the scripted `draws`, and how many were read.
fn replay(token: &Token, draws: &[usize]) -> (String, usize) {
    let mut tape = Tape::new(draws.to_vec());
    let text = generate_with(token, &mut tape, &mut TokenContext::new()).unwrap();
    (text, tape.entries_read())
}

fn replay_pattern(pattern: &str, draws: &[usize]) -> (String, usize) {
    let mut next = 1;
    let tokens = lex_pattern(pattern, &mut next);
    let mut tape = Tape::new(draws.to_vec());
    let text = generate_all(&tokens, &mut tape, &mut TokenContext::new()).unwrap();
    (text, tape.entries_read())
}

fn replay_tree(pattern: &str, draws: &[usize]) -> (String, usize) {
    let mut next = 1;
    let tokens = lex_pattern(pattern, &mut next);
    let tree = AstParser::new(&tokens).parse().unwrap();
    let mut tape = Tape::new(draws.to_vec());
    let text = generate_from_ast(&tree, &mut tape, &TokenContext::new()).unwrap();
    (text, tape.entries_read())
}

fn class(members: &str) -> Token {
    Token::Class(members.chars().collect())
}

fn times(token: Token, min: usize, max: usize, greedy: bool) -> Token {
    Token::Quantifier { token: Box::new(token), min, max, greedy }
}

fn done(text: &str, read: usize) -> (String, usize) {
    (text.to_string(), read)
}

#[test]
fn tape_hands_out_its_entries_in_order() {
    let mut tape = Tape::new(vec![3, 9, 0]);
    assert_eq!(tape.entries_read(), 0);
    assert_eq!(tape.draw(0, 5), 3);
    assert_eq!(tape.draw(0, 9), 9);
    assert_eq!(tape.draw(0, 0), 0);
    assert_eq!(tape.entries_read(), 3);
}

#[test]
fn tape_answers_with_the_lower_end_outside_the_range() {
    let mut tape = Tape::new(vec![7, 1, 4]);
    assert_eq!(tape.draw(2, 6), 2);
    assert_eq!(tape.draw(2, 6), 2);
    assert_eq!(tape.draw(4, 4), 4);
    assert_eq!(tape.entries_read(), 3);
}

#[test]
fn tape_answers_with_the_lower_end_behind_its_end() {
    let mut tape = Tape::new(vec![1]);
    assert_eq!(tape.draw(0, 3), 1);
    assert_eq!(tape.draw(2, 3), 2);
    assert_eq!(tape.draw(0, 3), 0);
    assert_eq!(tape.entries_read(), 1);
    let mut empty = Tape::new(vec![]);
    assert_eq!(empty.draw(5, 9), 5);
    assert_eq!(empty.entries_read(), 0);
}

#[test]
fn literal_and_anchors_read_no_draw() {
    assert_eq!(replay(&Token::Literal('x'), &[4]), done("x", 0));
    assert_eq!(replay(&Token::AnchorStart, &[4]), done("", 0));
    assert_eq!(replay(&Token::AnchorEnd, &[4]), done("", 0));
    assert_eq!(replay(&Token::WordBoundary, &[4]), done("", 0));
}

#[test]
fn class_yields_the_member_that_the_draw_selects() {
    assert_eq!(replay(&class("abc"), &[0]), done("a", 1));
    assert_eq!(replay(&class("abc"), &[1]), done("b", 1));
    assert_eq!(replay(&class("abc"), &[2]), done("c", 1));
    assert_eq!(replay(&class("abc"), &[3]), done("a", 1));
    assert_eq!(replay(&class("abc"), &[]), done("a", 0));
    assert_eq!(replay(&class("é€"), &[1]), done("€", 1));
}

#[test]
fn wildcard_yields_the_letter_or_digit_that_the_draw_selects() {
    assert_eq!(replay(&Token::Wildcard, &[0]), done("A", 1));
    assert_eq!(replay(&Token::Wildcard, &[25]), done("Z", 1));
    assert_eq!(replay(&Token::Wildcard, &[26]), done("a", 1));
    assert_eq!(replay(&Token::Wildcard, &[51]), done("z", 1));
    assert_eq!(replay(&Token::Wildcard, &[52]), done("0", 1));
    assert_eq!(replay(&Token::Wildcard, &[61]), done("9", 1));
    assert_eq!(replay(&Token::Wildcard, &[62]), done("A", 1));
}

#[test]
fn alternation_yields_the_branch_that_the_draw_selects() {
    let tok = Token::Alternation(vec![Token::Literal('x'), class("pq"), Token::Literal('z')]);
    assert_eq!(replay(&tok, &[0]), done("x", 1));
    assert_eq!(replay(&tok, &[1, 1]), done("q", 2));
    assert_eq!(replay(&tok, &[2]), done("z", 1));
    assert_eq!(replay(&tok, &[3]), done("x", 1));
}

#[test]
fn concatenation_reads_the_draws_part_by_part() {
    let tok = Token::Concatenation(vec![class("ab"), Token::Literal('-'), class("xyz")]);
    assert_eq!(replay(&tok, &[1, 2]), done("b-z", 2));
    assert_eq!(replay(&tok, &[0, 1, 9]), done("a-y", 2));
}

#[test]
fn greedy_quantifier_takes_the_larger_of_two_draws() {
    let tok = times(Token::Literal('z'), 2, 5, true);
    assert_eq!(replay(&tok, &[3, 4]), done("zzzz", 2));
    assert_eq!(replay(&tok, &[4, 3]), done("zzzz", 2));
    assert_eq!(replay(&tok, &[5, 2]), done("zzzzz", 2));
    assert_eq!(replay(&tok, &[2, 2]), done("zz", 2));
}

#[test]
fn lazy_quantifier_takes_the_smaller_of_two_draws() {
    let tok = times(Token::Literal('z'), 2, 5, false);
    assert_eq!(replay(&tok, &[3, 4]), done("zzz", 2));
    assert_eq!(replay(&tok, &[4, 3]), done("zzz", 2));
    assert_eq!(replay(&tok, &[5, 2]), done("zz", 2));
    assert_eq!(replay(&tok, &[5, 5]), done("zzzzz", 2));
}

#[test]
fn quantifier_reads_draws_outside_its_bounds_as_the_lower_bound() {
    let tok = times(Token::Literal('z'), 2, 5, true);
    assert_eq!(replay(&tok, &[6, 1]), done("zz", 2));
    assert_eq!(replay(&tok, &[0, 4]), done("zzzz", 2));
    assert_eq!(replay(&tok, &[]), done("zz", 0));
}

#[test]
fn quantifier_with_equal_bounds_reads_no_draw() {
    assert_eq!(replay(&times(Token::Literal('z'), 3, 3, true), &[9, 9]), done("zzz", 0));
    assert_eq!(replay(&times(class("ab"), 2, 2, false), &[1, 0, 1]), done("ba", 2));
}

#[test]
fn unbounded_quantifier_goes_up_to_its_lower_bound_plus_the_bound_of_the_context() {
    let tok = times(Token::Literal('z'), 1, usize::MAX, true);
    assert_eq!(replay(&tok, &[33, 7]).0.len(), 33);
    assert_eq!(replay(&tok, &[34, 7]).0.len(), 7);
    let mut tape = Tape::new(vec![4, 2]);
    let mut ctx = TokenContext::new_with_max_repeat(3);
    assert_eq!(generate_with(&tok, &mut tape, &mut ctx).unwrap(), "zzzz");
    let mut tape = Tape::new(vec![5, 2]);
    assert_eq!(generate_with(&tok, &mut tape, &mut ctx).unwrap(), "zz");
}

#[test]
fn repetitions_read_their_draws_after_the_count() {
    let greedy = times(class("abc"), 1, 3, true);
    let lazy = times(class("abc"), 1, 3, false);
    assert_eq!(replay(&greedy, &[2, 3, 0, 1, 2]), done("abc", 5));
    assert_eq!(replay(&lazy, &[2, 3, 0, 1, 2]), done("ab", 4));
}

#[test]
fn reference_repeats_what_the_group_drew() {
    let tok = Token::Concatenation(vec![
        Token::Group(Box::new(class("ab")), 1),
        Token::Backreference(1),
        Token::Backreference(1),
    ]);
    assert_eq!(replay(&tok, &[0]), done("aaa", 1));
    assert_eq!(replay(&tok, &[1]), done("bbb", 1));
}

#[test]
fn errors_on_scripted_draws() {
    let mut tape = Tape::new(vec![1]);
    let tok = Token::Alternation(vec![Token::Literal('a'), Token::NegatedClass(vec!['x'])]);
    let res = generate_with(&tok, &mut tape, &mut TokenContext::new());
    assert!(matches!(res, Err(GenrexError::UnsupportedFeature(_))));
    let mut tape = Tape::new(vec![0]);
    let res = generate_with(&tok, &mut tape, &mut TokenContext::new());
    assert_eq!(res.unwrap(), "a");
}

#[test]
fn pattern_on_scripted_draws() {
    assert_eq!(replay_pattern("(a|b)c{1,2}", &[1, 2, 1]), done("bcc", 3));
    assert_eq!(replay_pattern("(a|b)c{1,2}?", &[0, 2, 1]), done("ac", 3));
    assert_eq!(replay_pattern("x\\d[pq]+?.", &[7, 1, 3, 1, 52]), done("x7q0", 5));
    assert_eq!(replay_pattern("([xy])-\\1", &[1]), done("y-y", 1));
    assert_eq!(replay_pattern("a|b|c", &[1, 1]), done("c", 2));
    assert_eq!(replay_pattern("a|b|c", &[1, 0]), done("b", 2));
    assert_eq!(replay_pattern("a|b|c", &[0, 1]), done("a", 1));
}

#[test]
fn tree_on_scripted_draws() {
    assert_eq!(replay_tree("(a|b)c{1,2}", &[1, 2, 1]), done("bcc", 3));
    assert_eq!(replay_tree("x\\d[pq]+?.", &[7, 1, 3, 1, 52]), done("x7q0", 5));
    assert_eq!(replay_tree("a{2,4}", &[3, 2]), done("aaa", 2));
    assert_eq!(replay_tree("a{2,4}?", &[3, 2]), done("aa", 2));
    assert_eq!(replay_tree("a*", &[32, 0]).0.len(), 32);
    assert_eq!(replay_tree("a*", &[33, 4]).0.len(), 4);
}
