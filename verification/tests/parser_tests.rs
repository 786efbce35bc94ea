//! The older tree form: parsing tokens into it and generating from it.

use genrex::ast::AstNode;
use genrex::legacy::generate_from_ast;
use genrex::lexer::lex_pattern;
use genrex::parser::AstParser;
use genrex::{GenError, Token, TokenContext};
use rand::{rngs::StdRng, SeedableRng};

// Writes a tree out in full, so that two trees can be compared.
fn shape(node: &AstNode) -> String {
    match node {
        AstNode::Sequence(parts) => format!("({})", shapes(parts, ",")),
        AstNode::Alternation(branches) => format!("A{{{}}}", shapes(branches, "|")),
        AstNode::Repeat { node, min, max, greedy } => {
            let top = if *max == usize::MAX { "inf".to_string() } else { format!("{}", max) };
            format!("Q{{{},{},{}}}<{}>", min, top, if *greedy { "g" } else { "l" }, shape(node))
        }
        AstNode::Group(inner) => format!("G<{}>", shape(inner)),
        AstNode::NonCapturingGroup(inner) => format!("NC<{}>", shape(inner)),
        AstNode::Backreference => "R".to_string(),
        AstNode::Class(chars) => format!("C[{}]", chars.iter().collect::<String>()),
        AstNode::NegatedClass => "N".to_string(),
        AstNode::Literal(c) => format!("L({})", c),
        AstNode::AnchorStart => "^".to_string(),
        AstNode::AnchorEnd => "$".to_string(),
        AstNode::WordBoundary => "B".to_string(),
        AstNode::Wildcard => ".".to_string(),
    }
}

fn shapes(nodes: &[AstNode], separator: &str) -> String {
    let inner: Vec<String> = nodes.iter().map(shape).collect();
    inner.join(separator)
}

fn parsed(tokens: &[Token]) -> Option<String> {
    AstParser::new(tokens).parse().map(|tree| shape(&tree))
}

fn parsed_pattern(pattern: &str) -> Option<String> {
    let mut next = 1;
    let tokens = lex_pattern(pattern, &mut next);
    parsed(&tokens)
}

fn alt(branches: Vec<Token>) -> Token {
    Token::Alternation(branches)
}

#[test]
fn parse_nothing_gives_no_tree() {
    assert_eq!(parsed(&[]), None);
    assert_eq!(parsed_pattern(""), None);
}

#[test]
fn parse_one_token_gives_its_tree() {
    assert_eq!(parsed_pattern("a"), Some("L(a)".to_string()));
    assert_eq!(parsed_pattern("[xy]"), Some("C[xy]".to_string()));
    assert_eq!(parsed_pattern("[^xy]"), Some("N".to_string()));
    assert_eq!(parsed_pattern("\\3"), Some("R".to_string()));
    assert_eq!(parsed_pattern("."), Some(".".to_string()));
}

#[test]
fn parse_several_tokens_gives_a_sequence() {
    assert_eq!(parsed_pattern("^a.\\b$"), Some("(^,L(a),.,B,$)".to_string()));
}

#[test]
fn parse_groups_and_quantifiers() {
    assert_eq!(parsed_pattern("(a)"), Some("G<L(a)>".to_string()));
    assert_eq!(parsed_pattern("(ab)"), Some("G<(L(a),L(b))>".to_string()));
    assert_eq!(parsed_pattern("(?:ab)+?"), Some("Q{1,inf,l}<NC<(L(a),L(b))>>".to_string()));
    assert_eq!(parsed_pattern("a{2,4}b"), Some("(Q{2,4,g}<L(a)>,L(b))".to_string()));
}

#[test]
fn parse_empty_group_gets_a_blank() {
    assert_eq!(parsed_pattern("()"), Some("G<L( )>".to_string()));
    assert_eq!(parsed(&[Token::Concatenation(vec![])]), Some("L( )".to_string()));
}

#[test]
fn parse_alternation_token_as_an_atom() {
    assert_eq!(parsed_pattern("a|b"), Some("A{L(a)|L(b)}".to_string()));
    assert_eq!(parsed_pattern("ab|c"), Some("A{(L(a),L(b))|L(c)}".to_string()));
    assert_eq!(parsed_pattern("a|"), Some("A{L(a)|L( )}".to_string()));
    assert_eq!(parsed_pattern("a|b|c"), Some("A{L(a)|A{L(b)|L(c)}}".to_string()));
}

#[test]
fn parse_alternation_token_between_sequences_is_a_separator() {
    let tokens = vec![
        Token::Literal('a'),
        Token::Literal('b'),
        alt(vec![Token::Literal('x')]),
        Token::Literal('c'),
    ];
    assert_eq!(parsed(&tokens), Some("A{(L(a),L(b))|L(c)}".to_string()));
    let tokens = vec![
        Token::Literal('a'),
        alt(vec![]),
        Token::Literal('b'),
        alt(vec![]),
        Token::Literal('c'),
        Token::Literal('d'),
    ];
    assert_eq!(parsed(&tokens), Some("A{L(a)|L(b)|(L(c),L(d))}".to_string()));
}

#[test]
fn parse_first_token_is_an_atom_even_if_it_is_an_alternation() {
    let tokens = vec![alt(vec![Token::Literal('x')]), Token::Literal('c')];
    assert_eq!(parsed(&tokens), Some("(A{L(x)},L(c))".to_string()));
    let tokens = vec![Token::Literal('a'), alt(vec![]), alt(vec![Token::Literal('y')])];
    assert_eq!(parsed(&tokens), Some("A{L(a)|A{L(y)}}".to_string()));
}

#[test]
fn parse_trailing_separator_gives_no_tree() {
    let tokens = vec![Token::Literal('a'), alt(vec![Token::Literal('x')])];
    assert_eq!(parsed(&tokens), None);
}

#[test]
fn parse_goes_on_from_the_current_position() {
    let tokens = vec![Token::Literal('a'), Token::Literal('b')];
    let mut parser = AstParser::new(&tokens);
    assert!(parser.parse().is_some());
    assert!(parser.parse().is_none());
}

fn generated(tree: &AstNode, seed: u64) -> Result<String, GenError> {
    let mut rng = StdRng::seed_from_u64(seed);
    generate_from_ast(tree, &mut rng, &TokenContext::new())
}

fn tree_of(pattern: &str) -> AstNode {
    let mut next = 1;
    let tokens = lex_pattern(pattern, &mut next);
    AstParser::new(&tokens).parse().unwrap()
}

#[test]
fn tree_generation_of_fixed_text() {
    assert_eq!(generated(&tree_of("^ab(c)(?:d)\\b$"), 1).unwrap(), "abcd");
    assert_eq!(generated(&tree_of("a{3}"), 1).unwrap(), "aaa");
    assert_eq!(generated(&AstNode::Alternation(vec![]), 1).unwrap(), "");
    assert_eq!(generated(&AstNode::Sequence(vec![]), 1).unwrap(), "");
}

#[test]
fn tree_generation_of_choices() {
    for seed in 0..50 {
        let s = generated(&tree_of("(a|b)[xy].{2,3}"), seed).unwrap();
        let chars: Vec<char> = s.chars().collect();
        assert!((4..=5).contains(&chars.len()));
        assert!(chars[0] == 'a' || chars[0] == 'b');
        assert!(chars[1] == 'x' || chars[1] == 'y');
        assert!(chars[2..].iter().all(|c| c.is_ascii_alphanumeric()));
    }
}

#[test]
fn tree_generation_respects_the_repetition_bound() {
    let tree = tree_of("a*");
    for seed in 0..100 {
        assert!(generated(&tree, seed).unwrap().len() <= 32);
        let mut rng = StdRng::seed_from_u64(seed);
        let ctx = TokenContext::new_with_max_repeat(2);
        assert!(generate_from_ast(&tree, &mut rng, &ctx).unwrap().len() <= 2);
    }
}

#[test]
fn tree_generation_misses_where_it_cannot_generate() {
    assert!(matches!(generated(&AstNode::Backreference, 1), Err(GenError::NoMatch)));
    assert!(matches!(generated(&AstNode::NegatedClass, 1), Err(GenError::NoMatch)));
    assert!(matches!(generated(&AstNode::Class(vec![]), 1), Err(GenError::NoMatch)));
    assert!(matches!(generated(&tree_of("a{3,1}"), 1), Err(GenError::NoMatch)));
    assert!(matches!(generated(&tree_of("ab[^c]d"), 1), Err(GenError::NoMatch)));
    assert!(matches!(generated(&tree_of("(a)\\1"), 1), Err(GenError::NoMatch)));
}

#[test]
fn tree_lazy_output_is_a_prefix_of_greedy_output() {
    for seed in 0..100 {
        let long = generated(&tree_of("[ab]{1,6}"), seed).unwrap();
        let short = generated(&tree_of("[ab]{1,6}?"), seed).unwrap();
        assert!(long.starts_with(&short));
    }
}
