//! The node generator on concrete trees and seeds.

use genrex::generate::generate_all;
use genrex::lexer::lex_pattern;
use genrex::{GenrexError, RegexToken, Token, TokenContext};
use rand::{rngs::StdRng, SeedableRng};

fn literal_times(c: char, min: usize, max: usize, greedy: bool) -> Token {
    Token::Quantifier { token: Box::new(Token::Literal(c)), min, max, greedy }
}

fn tokens_of(pattern: &str) -> Vec<Token> {
    let mut next = 1;
    lex_pattern(pattern, &mut next)
}

#[test]
fn equal_bounds_give_exactly_that_many_repetitions() {
    for seed in 0..50 {
        let mut rng = StdRng::seed_from_u64(seed);
        let mut ctx = TokenContext::new();
        assert_eq!(literal_times('z', 3, 3, true).generate(&mut rng, &mut ctx).unwrap(), "zzz");
        assert_eq!(literal_times('z', 3, 3, false).generate(&mut rng, &mut ctx).unwrap(), "zzz");
        assert_eq!(literal_times('z', 0, 0, true).generate(&mut rng, &mut ctx).unwrap(), "");
        let classes = Token::Quantifier {
            token: Box::new(Token::Class(vec!['a', 'b'])),
            min: 5,
            max: 5,
            greedy: true,
        };
        let s = classes.generate(&mut rng, &mut ctx).unwrap();
        assert_eq!(s.chars().count(), 5);
        assert!(s.chars().all(|c| c == 'a' || c == 'b'));
    }
}

#[test]
fn equal_bounds_ask_the_random_source_for_nothing() {
    let mut used = StdRng::seed_from_u64(77);
    let mut fresh = StdRng::seed_from_u64(77);
    let mut ctx = TokenContext::new();
    literal_times('z', 4, 4, true).generate(&mut used, &mut ctx).unwrap();
    assert_eq!(used, fresh);
    literal_times('z', 1, 4, true).generate(&mut used, &mut ctx).unwrap();
    assert_ne!(used, fresh);
    Token::Literal('q').generate(&mut fresh, &mut ctx).unwrap();
    assert_eq!(fresh, StdRng::seed_from_u64(77));
}

#[test]
fn inverted_bounds_are_an_internal_error() {
    for seed in 0..20 {
        let mut rng = StdRng::seed_from_u64(seed);
        let mut ctx = TokenContext::new();
        let res = literal_times('z', 4, 2, true).generate(&mut rng, &mut ctx);
        match res {
            Err(GenrexError::Internal(detail)) => assert_eq!(detail, "Quantifier min > max"),
            other => panic!("unexpected: {:?}", other),
        }
    }
}

#[test]
fn negated_class_is_unsupported_whatever_the_seed() {
    for seed in 0..20 {
        let mut rng = StdRng::seed_from_u64(seed);
        let mut ctx = TokenContext::new();
        let res = Token::NegatedClass(vec!['a', 'b']).generate(&mut rng, &mut ctx);
        match res {
            Err(GenrexError::UnsupportedFeature(detail)) => {
                assert_eq!(detail, "Negated class generation")
            }
            other => panic!("unexpected: {:?}", other),
        }
        let res = Token::NegatedClass(vec![]).generate(&mut rng, &mut ctx);
        assert!(matches!(res, Err(GenrexError::UnsupportedFeature(_))));
    }
}

#[test]
fn empty_class_is_an_internal_error() {
    let mut rng = StdRng::seed_from_u64(1);
    let mut ctx = TokenContext::new();
    match Token::Class(vec![]).generate(&mut rng, &mut ctx) {
        Err(GenrexError::Internal(detail)) => assert_eq!(detail, "Empty class"),
        other => panic!("unexpected: {:?}", other),
    }
}

#[test]
fn empty_alternation_is_an_internal_error() {
    let mut rng = StdRng::seed_from_u64(1);
    let mut ctx = TokenContext::new();
    match Token::Alternation(vec![]).generate(&mut rng, &mut ctx) {
        Err(GenrexError::Internal(detail)) => assert_eq!(detail, "Empty alternation"),
        other => panic!("unexpected: {:?}", other),
    }
}

#[test]
fn lazy_output_is_a_prefix_of_greedy_output_on_the_same_draws() {
    for seed in 0..200 {
        let inner = || Box::new(Token::Class(vec!['a', 'b', 'c']));
        let greedy = Token::Quantifier { token: inner(), min: 1, max: 6, greedy: true };
        let lazy = Token::Quantifier { token: inner(), min: 1, max: 6, greedy: false };
        let mut rng_g = StdRng::seed_from_u64(seed);
        let mut rng_l = StdRng::seed_from_u64(seed);
        let long = greedy.generate(&mut rng_g, &mut TokenContext::new()).unwrap();
        let short = lazy.generate(&mut rng_l, &mut TokenContext::new()).unwrap();
        assert!(long.starts_with(&short), "{:?} {:?}", short, long);
    }
}

#[test]
fn greedy_and_lazy_differ_on_some_draws() {
    let mut differ = false;
    for seed in 0..50 {
        let mut rng_g = StdRng::seed_from_u64(seed);
        let mut rng_l = StdRng::seed_from_u64(seed);
        let long = literal_times('z', 0, 9, true).generate(&mut rng_g, &mut TokenContext::new());
        let short = literal_times('z', 0, 9, false).generate(&mut rng_l, &mut TokenContext::new());
        differ = differ || long.unwrap().len() > short.unwrap().len();
    }
    assert!(differ);
}

#[test]
fn counts_stay_within_the_bounds_and_vary() {
    let mut seen = [false; 8];
    for seed in 0..300 {
        let mut rng = StdRng::seed_from_u64(seed);
        let s = literal_times('z', 3, 7, seed % 2 == 0)
            .generate(&mut rng, &mut TokenContext::new())
            .unwrap();
        assert!((3..=7).contains(&s.len()));
        seen[s.len()] = true;
    }
    assert_eq!(seen, [false, false, false, true, true, true, true, true]);
}

#[test]
fn unbounded_quantifier_adds_at_most_the_bound_of_the_context() {
    let mut longest = 0;
    for seed in 0..300 {
        let mut rng = StdRng::seed_from_u64(seed);
        let mut ctx = TokenContext::new();
        let s = literal_times('z', 2, usize::MAX, true).generate(&mut rng, &mut ctx).unwrap();
        assert!((2..=34).contains(&s.len()));
        longest = longest.max(s.len());

        let mut small = TokenContext::new_with_max_repeat(3);
        let s = literal_times('z', 2, usize::MAX, true).generate(&mut rng, &mut small).unwrap();
        assert!((2..=5).contains(&s.len()));

        let mut none = TokenContext::new_with_max_repeat(0);
        let s = literal_times('z', 2, usize::MAX, false).generate(&mut rng, &mut none).unwrap();
        assert_eq!(s, "zz");
    }
    assert!(longest > 5);
}

#[test]
fn class_picks_every_member_over_many_seeds() {
    let mut seen = Vec::new();
    for seed in 0..100 {
        let mut rng = StdRng::seed_from_u64(seed);
        let s = Token::Class(vec!['a', 'b', 'c']).generate(&mut rng, &mut TokenContext::new());
        let s = s.unwrap();
        if !seen.contains(&s) {
            seen.push(s);
        }
    }
    seen.sort();
    assert_eq!(seen, vec!["a", "b", "c"]);
}

#[test]
fn alternation_picks_every_branch_over_many_seeds() {
    let mut seen = Vec::new();
    for seed in 0..100 {
        let mut rng = StdRng::seed_from_u64(seed);
        let tok = Token::Alternation(vec![Token::Literal('x'), Token::Literal('y')]);
        let s = tok.generate(&mut rng, &mut TokenContext::new()).unwrap();
        if !seen.contains(&s) {
            seen.push(s);
        }
    }
    seen.sort();
    assert_eq!(seen, vec!["x", "y"]);
}

#[test]
fn wildcard_picks_letters_and_digits() {
    let mut seen = Vec::new();
    for seed in 0..400 {
        let mut rng = StdRng::seed_from_u64(seed);
        let s = Token::Wildcard.generate(&mut rng, &mut TokenContext::new()).unwrap();
        let c = s.chars().next().unwrap();
        assert!(c.is_ascii_alphanumeric());
        assert_eq!(s.chars().count(), 1);
        if !seen.contains(&c) {
            seen.push(c);
        }
    }
    assert!(seen.len() > 40);
}

#[test]
fn group_records_its_text() {
    let mut rng = StdRng::seed_from_u64(1);
    let mut ctx = TokenContext::new();
    let tok = Token::Group(Box::new(Token::Literal('g')), 2);
    assert_eq!(tok.generate(&mut rng, &mut ctx).unwrap(), "g");
    assert_eq!(ctx.captures, vec![None, Some("g".to_string())]);
}

#[test]
fn non_capturing_group_records_nothing() {
    let tokens = tokens_of("(?:a)");
    let mut rng = StdRng::seed_from_u64(1);
    let mut ctx = TokenContext::new();
    assert_eq!(generate_all(&tokens, &mut rng, &mut ctx).unwrap(), "a");
    assert!(ctx.captures.is_empty());
    assert!(ctx.unresolved_refs.is_empty());
}

#[test]
fn tokens_without_groups_leave_the_captures_alone() {
    let tokens = tokens_of("a(?:b|c)[de]{2,3}.\\bx*");
    for seed in 0..50 {
        let mut rng = StdRng::seed_from_u64(seed);
        let mut ctx = TokenContext::new();
        ctx.record_capture(2, "kept".to_string());
        generate_all(&tokens, &mut rng, &mut ctx).unwrap();
        assert_eq!(ctx.captures, vec![None, Some("kept".to_string())]);
    }
}

#[test]
fn counted_pattern_yields_two_to_four_letters() {
    let tokens = tokens_of("a{2,4}");
    let mut lengths = Vec::new();
    for seed in 0..200 {
        let mut rng = StdRng::seed_from_u64(seed);
        let s = generate_all(&tokens, &mut rng, &mut TokenContext::new()).unwrap();
        assert!((2..=4).contains(&s.len()));
        assert!(s.chars().all(|c| c == 'a'));
        if !lengths.contains(&s.len()) {
            lengths.push(s.len());
        }
    }
    lengths.sort();
    assert_eq!(lengths, vec![2, 3, 4]);
}

#[test]
fn backward_reference_repeats_the_group() {
    let tokens = tokens_of("(a)\\1");
    for seed in 0..50 {
        let mut rng = StdRng::seed_from_u64(seed);
        assert_eq!(generate_all(&tokens, &mut rng, &mut TokenContext::new()).unwrap(), "aa");
    }
    let tokens = tokens_of("([ab])\\1\\1");
    for seed in 0..50 {
        let mut rng = StdRng::seed_from_u64(seed);
        let s = generate_all(&tokens, &mut rng, &mut TokenContext::new()).unwrap();
        assert!(s == "aaa" || s == "bbb", "{:?}", s);
    }
}

#[test]
fn reference_to_group_zero_is_an_error() {
    let mut rng = StdRng::seed_from_u64(1);
    let mut ctx = TokenContext::new();
    ctx.record_capture(1, "a".to_string());
    match Token::Backreference(0).generate(&mut rng, &mut ctx) {
        Err(GenrexError::BackreferenceError(detail)) => {
            assert_eq!(detail, "backreference index 0 is invalid")
        }
        other => panic!("unexpected: {:?}", other),
    }
}

#[test]
fn reference_without_any_capture_yields_nothing_and_is_noted() {
    let mut rng = StdRng::seed_from_u64(1);
    let mut ctx = TokenContext::new();
    assert_eq!(Token::Backreference(13).generate(&mut rng, &mut ctx).unwrap(), "");
    assert_eq!(ctx.unresolved_refs, vec![(0, 13)]);
    assert!(ctx.captures.is_empty());
}

#[test]
fn reference_before_its_group_on_a_fresh_context() {
    let tok = Token::Concatenation(vec![
        Token::Backreference(1),
        Token::Group(Box::new(Token::Literal('a')), 1),
    ]);
    for seed in 0..10 {
        let mut rng = StdRng::seed_from_u64(seed);
        let mut ctx = TokenContext::new();
        assert_eq!(tok.generate(&mut rng, &mut ctx).unwrap(), "a");
        assert_eq!(ctx.unresolved_refs, vec![(0, 1)]);
        assert_eq!(ctx.get_capture(1), Some("a".to_string()));
    }
}

#[test]
fn forward_reference_yields_nothing_and_is_noted_at_the_cursor() {
    // Group 2 captures first; the reference to group 1 has no text yet.
    let tok = Token::Concatenation(vec![
        Token::Group(Box::new(Token::Literal('é')), 2),
        Token::Literal('x'),
        Token::Backreference(1),
        Token::Group(Box::new(Token::Literal('b')), 1),
    ]);
    let mut rng = StdRng::seed_from_u64(1);
    let mut ctx = TokenContext::new();
    assert_eq!(tok.generate(&mut rng, &mut ctx).unwrap(), "éxb");
    assert_eq!(ctx.unresolved_refs, vec![(3, 1)]);
    assert_eq!(ctx.captures, vec![Some("b".to_string()), Some("é".to_string())]);
}

#[test]
fn reference_inside_a_group_is_noted_at_the_start_of_the_group() {
    let tok = Token::Concatenation(vec![
        Token::Group(Box::new(Token::Literal('a')), 2),
        Token::Group(Box::new(Token::Backreference(1)), 3),
    ]);
    let mut rng = StdRng::seed_from_u64(1);
    let mut ctx = TokenContext::new();
    assert_eq!(tok.generate(&mut rng, &mut ctx).unwrap(), "a");
    assert_eq!(ctx.unresolved_refs, vec![(0, 1)]);
    assert_eq!(ctx.captures, vec![None, Some("a".to_string()), Some("".to_string())]);
}

#[test]
fn last_completion_of_a_repeated_group_wins() {
    let tokens = tokens_of("([ab]){4}\\1");
    let mut mixed = false;
    for seed in 0..100 {
        let mut rng = StdRng::seed_from_u64(seed);
        let s = generate_all(&tokens, &mut rng, &mut TokenContext::new()).unwrap();
        let chars: Vec<char> = s.chars().collect();
        assert_eq!(chars.len(), 5);
        assert_eq!(chars[4], chars[3]);
        mixed = mixed || chars[0] != chars[3];
    }
    assert!(mixed);
}

#[test]
fn error_in_a_part_ends_the_walk_and_keeps_earlier_captures() {
    let tok = Token::Concatenation(vec![
        Token::Group(Box::new(Token::Literal('a')), 1),
        Token::NegatedClass(vec!['x']),
        Token::Group(Box::new(Token::Literal('b')), 2),
    ]);
    let mut rng = StdRng::seed_from_u64(1);
    let mut ctx = TokenContext::new();
    assert!(matches!(tok.generate(&mut rng, &mut ctx), Err(GenrexError::UnsupportedFeature(_))));
    assert_eq!(ctx.captures, vec![Some("a".to_string())]);
}

#[test]
fn failed_group_records_nothing() {
    let tok = Token::Group(Box::new(Token::Class(vec![])), 1);
    let mut rng = StdRng::seed_from_u64(1);
    let mut ctx = TokenContext::new();
    assert!(matches!(tok.generate(&mut rng, &mut ctx), Err(GenrexError::Internal(_))));
    assert!(ctx.captures.is_empty());
}

#[test]
fn generate_all_concatenates_the_tokens() {
    let tokens = tokens_of("^ab\\bc$");
    let mut rng = StdRng::seed_from_u64(1);
    assert_eq!(generate_all(&tokens, &mut rng, &mut TokenContext::new()).unwrap(), "abc");
    let none: Vec<Token> = Vec::new();
    assert_eq!(generate_all(&none, &mut rng, &mut TokenContext::new()).unwrap(), "");
}

#[test]
fn describe_names_kind_and_parameter() {
    assert_eq!(Token::Literal('\'').describe(), "Literal(''')");
    assert_eq!(Token::NegatedClass(vec!['x', 'y']).describe(), "NegatedClass[xy]");
    assert_eq!(Token::Class(vec![]).describe(), "Class[]");
    let three = vec![Token::Wildcard, Token::AnchorEnd, Token::Literal('a')];
    assert_eq!(Token::Concatenation(three.clone()).describe(), "Concat(3)");
    assert_eq!(Token::Alternation(three).describe(), "Alt(3)");
    assert_eq!(Token::Alternation(vec![]).describe(), "Alt(0)");
    assert_eq!(literal_times('a', 2, 14, false).describe(), "Quantifier{2,14}");
    assert_eq!(
        literal_times('a', 0, usize::MAX, true).describe(),
        format!("Quantifier{{0,{}}}", usize::MAX)
    );
    assert_eq!(Token::Group(Box::new(Token::Wildcard), 120).describe(), "Group(120)");
    assert_eq!(Token::Backreference(7).describe(), "Backreference(7)");
    assert_eq!(Token::Wildcard.describe(), "Wildcard");
}

#[test]
fn clone_copies_the_whole_tree() {
    let tokens = tokens_of("(a|[bc]){2,3}?\\1(?:x)+.");
    let copies = tokens.clone();
    assert_eq!(format!("{:?}", tokens), format!("{:?}", copies));
}
