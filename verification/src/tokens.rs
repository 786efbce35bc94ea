//! The token tree of a pattern and its mathematical view.

use crate::text::char_string;
use crate::text::decimal_string;
use crate::text::decimal_text;
use crate::text::string_of;
use vstd::prelude::*;
use vstd::string::StringExecFns;

verus! {

/// One node of a tokenized pattern.
#[derive(Debug)]
pub enum Token {
    /// A single character.
    Literal(char),
    /// One of the listed characters.
    Class(Vec<char>),
    /// Any character but the listed ones.
    NegatedClass(Vec<char>),
    /// The parts one after the other.
    Concatenation(Vec<Token>),
    /// One of the branches.
    Alternation(Vec<Token>),
    /// Between `min` and `max` repetitions of `token`; a `max` of
    /// `usize::MAX` means that there is no upper bound.
    Quantifier { token: Box<Token>, min: usize, max: usize, greedy: bool },
    /// A capturing group with its 1-based identity.
    Group(Box<Token>, usize),
    /// A group that records no capture.
    NonCapturingGroup(Box<Token>),
    /// The text last captured by the group with the given identity.
    Backreference(usize),
    AnchorStart,
    AnchorEnd,
    WordBoundary,
    /// Any alphanumeric character.
    Wildcard,
}

/// Mathematical view of a [`Token`].
pub enum Node {
    Literal(char),
    Class(Seq<char>),
    NegatedClass(Seq<char>),
    Concatenation(Seq<Node>),
    Alternation(Seq<Node>),
    Quantifier { node: Box<Node>, min: nat, max: nat, greedy: bool },
    Group(Box<Node>, nat),
    NonCapturingGroup(Box<Node>),
    Backreference(nat),
    AnchorStart,
    AnchorEnd,
    WordBoundary,
    Wildcard,
}

/// The upper bound that stands for "no upper bound" in a quantifier.
pub open spec fn unbounded() -> nat {
    usize::MAX as nat
}

/// The node that a token stands for.
pub open spec fn token_node(t: Token) -> Node
    decreases t,
{
    match t {
        Token::Literal(c) => Node::Literal(c),
        Token::Class(chars) => Node::Class(chars@),
        Token::NegatedClass(chars) => Node::NegatedClass(chars@),
        Token::Concatenation(parts) => Node::Concatenation(nodes_of(parts@)),
        Token::Alternation(branches) => Node::Alternation(nodes_of(branches@)),
        Token::Quantifier { token, min, max, greedy } => Node::Quantifier {
            node: Box::new(token_node(*token)),
            min: min as nat,
            max: max as nat,
            greedy,
        },
        Token::Group(inner, id) => Node::Group(Box::new(token_node(*inner)), id as nat),
        Token::NonCapturingGroup(inner) => Node::NonCapturingGroup(Box::new(token_node(*inner))),
        Token::Backreference(id) => Node::Backreference(id as nat),
        Token::AnchorStart => Node::AnchorStart,
        Token::AnchorEnd => Node::AnchorEnd,
        Token::WordBoundary => Node::WordBoundary,
        Token::Wildcard => Node::Wildcard,
    }
}

/// The nodes that a list of tokens stands for, in order.
pub open spec fn nodes_of(tokens: Seq<Token>) -> Seq<Node>
    decreases tokens,
{
    Seq::new(
        tokens.len(),
        |i: int|
            if 0 <= i < tokens.len() {
                token_node(tokens[i])
            } else {
                Node::Wildcard
            },
    )
}

impl View for Token {
    type V = Node;

    open spec fn view(&self) -> Node {
        token_node(*self)
    }
}

/// The nodes of a list of tokens are the nodes of its tokens, one for one.
pub proof fn lemma_nodes_of(tokens: Seq<Token>)
    ensures
        nodes_of(tokens).len() == tokens.len(),
        forall|i: int| 0 <= i < tokens.len() ==> #[trigger] nodes_of(tokens)[i] == tokens[i]@,
{
}

/// Appending a token appends its node.
pub proof fn lemma_nodes_push(tokens: Seq<Token>, t: Token)
    ensures
        nodes_of(tokens.push(t)) == nodes_of(tokens).push(t@),
{
    assert(nodes_of(tokens.push(t)) =~= nodes_of(tokens).push(t@));
}

impl Clone for Token {
    /// A copy of the whole tree.
    fn clone(&self) -> (r: Token)
        ensures
            r@ == self@,
        decreases self,
    {
        match self {
            Token::Literal(c) => Token::Literal(*c),
            Token::Class(chars) => Token::Class(chars.clone()),
            Token::NegatedClass(chars) => Token::NegatedClass(chars.clone()),
            Token::Concatenation(parts) => {
                assert(self->Concatenation_0 == *parts);
                Token::Concatenation(clone_all(parts))
            },
            Token::Alternation(branches) => {
                assert(self->Alternation_0 == *branches);
                Token::Alternation(clone_all(branches))
            },
            Token::Quantifier { token, min, max, greedy } => Token::Quantifier {
                token: Box::new((**token).clone()),
                min: *min,
                max: *max,
                greedy: *greedy,
            },
            Token::Group(inner, id) => Token::Group(Box::new((**inner).clone()), *id),
            Token::NonCapturingGroup(inner) => Token::NonCapturingGroup(
                Box::new((**inner).clone()),
            ),
            Token::Backreference(id) => Token::Backreference(*id),
            Token::AnchorStart => Token::AnchorStart,
            Token::AnchorEnd => Token::AnchorEnd,
            Token::WordBoundary => Token::WordBoundary,
            Token::Wildcard => Token::Wildcard,
        }
    }
}

/// Copies of the given tokens, in order.
fn clone_all(tokens: &Vec<Token>) -> (copies: Vec<Token>)
    ensures
        nodes_of(copies@) == nodes_of(tokens@),
    decreases tokens,
{
    let mut copies: Vec<Token> = Vec::new();
    let mut i: usize = 0;
    while i < tokens.len()
        invariant
            i <= tokens.len(),
            copies.len() == i,
            forall|k: int| 0 <= k < i ==> copies[k]@ == tokens[k]@,
        decreases tokens.len() - i,
    {
        copies.push(tokens[i].clone());
        i += 1;
    }
    assert(nodes_of(copies@) =~= nodes_of(tokens@));
    copies
}

/// The short description of a node: its kind and its main parameter.
pub open spec fn describe_node(node: Node) -> Seq<char> {
    match node {
        Node::Literal(c) => "Literal('"@ + seq![c] + "')"@,
        Node::Class(chars) => "Class["@ + chars + "]"@,
        Node::NegatedClass(chars) => "NegatedClass["@ + chars + "]"@,
        Node::Concatenation(parts) => "Concat("@ + decimal_text(parts.len()) + ")"@,
        Node::Alternation(branches) => "Alt("@ + decimal_text(branches.len()) + ")"@,
        Node::Quantifier { min, max, .. } => "Quantifier{"@ + (decimal_text(min) + ","@
            + decimal_text(max)) + "}"@,
        Node::Group(_, id) => "Group("@ + decimal_text(id) + ")"@,
        Node::NonCapturingGroup(_) => "NonCapturingGroup"@,
        Node::Backreference(id) => "Backreference("@ + decimal_text(id) + ")"@,
        Node::AnchorStart => "AnchorStart"@,
        Node::AnchorEnd => "AnchorEnd"@,
        Node::WordBoundary => "WordBoundary"@,
        Node::Wildcard => "Wildcard"@,
    }
}

/// `body` between `open` and `close`.
fn enclosed(open: &str, body: &String, close: &str) -> (text: String)
    ensures
        text@ == open@ + body@ + close@,
{
    let mut text = String::from_str(open);
    text.append(body.as_str());
    text.append(close);
    text
}

impl Token {
    /// A short description of the token: its kind and its main parameter.
    pub(crate) fn describe_token(&self) -> (text: String)
        ensures
            text@ == describe_node(self@),
    {
        let text = match self {
            Token::Literal(c) => enclosed("Literal('", &char_string(*c), "')"),
            Token::Class(chars) => {
                assert(chars@.subrange(0, chars.len() as int) =~= chars@);
                enclosed("Class[", &string_of(chars, 0, chars.len()), "]")
            },
            Token::NegatedClass(chars) => {
                assert(chars@.subrange(0, chars.len() as int) =~= chars@);
                enclosed("NegatedClass[", &string_of(chars, 0, chars.len()), "]")
            },
            Token::Concatenation(parts) => enclosed("Concat(", &decimal_string(parts.len()), ")"),
            Token::Alternation(branches) => enclosed(
                "Alt(",
                &decimal_string(branches.len()),
                ")",
            ),
            Token::Quantifier { min, max, .. } => {
                let mut bounds = decimal_string(*min);
                bounds.append(",");
                bounds.append(decimal_string(*max).as_str());
                assert(bounds@ =~= decimal_text(*min as nat) + ","@ + decimal_text(*max as nat));
                enclosed("Quantifier{", &bounds, "}")
            },
            Token::Group(_, id) => enclosed("Group(", &decimal_string(*id), ")"),
            Token::NonCapturingGroup(_) => String::from_str("NonCapturingGroup"),
            Token::Backreference(id) => enclosed("Backreference(", &decimal_string(*id), ")"),
            Token::AnchorStart => String::from_str("AnchorStart"),
            Token::AnchorEnd => String::from_str("AnchorEnd"),
            Token::WordBoundary => String::from_str("WordBoundary"),
            Token::Wildcard => String::from_str("Wildcard"),
        };
        proof {
            match self {
                Token::Concatenation(parts) => lemma_nodes_of(parts@),
                Token::Alternation(branches) => lemma_nodes_of(branches@),
                _ => {},
            }
        }
        assert(text@ =~= describe_node(self@));
        text
    }
}

} // verus!
