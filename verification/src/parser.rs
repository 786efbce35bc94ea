//! The parser from a list of tokens to the older tree form.

use crate::ast::asts_of;
use crate::ast::lemma_asts_of;
use crate::ast::lemma_asts_push;
use crate::ast::option_ast;
use crate::ast::Ast;
use crate::ast::AstNode;
use crate::tokens::lemma_nodes_of;
use crate::tokens::nodes_of;
use crate::tokens::Node;
use crate::tokens::Token;
use vstd::prelude::*;

verus! {

/// The tree used where a list of tokens yields none.
pub open spec fn filler() -> Ast {
    Ast::Literal(' ')
}

/// The index at which the sequence that starts at `from` ends: the first
/// index behind `from` that holds an alternation, or the length. The token
/// at `from` belongs to the sequence whatever it is.
pub open spec fn sequence_end(tokens: Seq<Node>, from: int) -> int {
    sequence_end_from(tokens, from + 1)
}

/// The first index at or behind `at` that holds an alternation, or the
/// length.
pub open spec fn sequence_end_from(tokens: Seq<Node>, at: int) -> int
    decreases tokens.len() - at,
{
    if at >= tokens.len() {
        tokens.len() as int
    } else if tokens[at] is Alternation {
        at
    } else {
        sequence_end_from(tokens, at + 1)
    }
}

/// The end of a sequence lies within the tokens, and a token at the end is
/// an alternation.
pub proof fn lemma_sequence_end_from(tokens: Seq<Node>, at: int)
    requires
        0 <= at <= tokens.len(),
    ensures
        at <= sequence_end_from(tokens, at) <= tokens.len(),
        sequence_end_from(tokens, at) < tokens.len() ==> tokens[sequence_end_from(
            tokens,
            at,
        )] is Alternation,
    decreases tokens.len() - at,
{
    if at < tokens.len() && !(tokens[at] is Alternation) {
        lemma_sequence_end_from(tokens, at + 1);
    }
}

/// The tree of one token.
pub open spec fn atom(node: Node) -> Ast
    decreases node, 0nat, 0nat,
{
    match node {
        Node::Literal(c) => Ast::Literal(c),
        Node::Class(chars) => Ast::Class(chars),
        Node::NegatedClass(_) => Ast::NegatedClass,
        Node::Concatenation(parts) => match parse_at(parts, 0) {
            Some(tree) => tree,
            None => filler(),
        },
        Node::Alternation(branches) => Ast::Alternation(atoms(branches, 0, branches.len() as int)),
        Node::Quantifier { node: inner, min, max, greedy } => Ast::Repeat {
            node: Box::new(atom(*inner)),
            min,
            max,
            greedy,
        },
        Node::Group(inner, _) => Ast::Group(Box::new(atom(*inner))),
        Node::NonCapturingGroup(inner) => Ast::NonCapturingGroup(Box::new(atom(*inner))),
        Node::Backreference(_) => Ast::Backreference,
        Node::AnchorStart => Ast::AnchorStart,
        Node::AnchorEnd => Ast::AnchorEnd,
        Node::WordBoundary => Ast::WordBoundary,
        Node::Wildcard => Ast::Wildcard,
    }
}

/// The trees of the tokens `tokens[from..to]`, one for one.
pub open spec fn atoms(tokens: Seq<Node>, from: int, to: int) -> Seq<Ast>
    decreases tokens, 0nat, 0nat,
{
    Seq::new(
        (to - from) as nat,
        |k: int|
            if 0 <= from + k < tokens.len() {
                atom(tokens[from + k])
            } else {
                filler()
            },
    )
}

/// The tree of the sequence that starts at `from`: the tree of its one
/// token, or a sequence of the trees of its tokens. There is none if no
/// token is left.
pub open spec fn parse_sequence_at(tokens: Seq<Node>, from: int) -> Option<Ast>
    decreases tokens, 1nat, 0nat,
{
    if from < 0 || from >= tokens.len() {
        None
    } else {
        let parts = atoms(tokens, from, sequence_end(tokens, from));
        if parts.len() == 1 {
            Some(parts[0])
        } else {
            Some(Ast::Sequence(parts))
        }
    }
}

/// The branches read from `from` on, after the branches `acc`: sequences
/// separated by alternation tokens. There is no result if a separator is
/// the last token.
pub open spec fn parse_branches_at(tokens: Seq<Node>, from: int, acc: Seq<Ast>) -> Option<
    Seq<Ast>,
>
    decreases tokens, 2nat, tokens.len() - from,
{
    if from < 0 || from >= tokens.len() {
        None
    } else {
        match parse_sequence_at(tokens, from) {
            None => None,
            Some(tree) => {
                let end = sequence_end(tokens, from);
                proof {
                    lemma_sequence_end_from(tokens, from + 1);
                }
                if end < tokens.len() {
                    parse_branches_at(tokens, end + 1, acc.push(tree))
                } else {
                    Some(acc.push(tree))
                }
            },
        }
    }
}

/// The tree of the tokens from `from` on: the one branch, or an alternation
/// of the branches.
pub open spec fn parse_at(tokens: Seq<Node>, from: int) -> Option<Ast>
    decreases tokens, 3nat, 0nat,
{
    match parse_branches_at(tokens, from, Seq::empty()) {
        None => None,
        Some(branches) => if branches.len() == 1 {
            Some(branches[0])
        } else {
            Some(Ast::Alternation(branches))
        },
    }
}

/// A parser over a list of tokens, with the position of the next token.
pub struct AstParser<'a> {
    tokens: &'a [Token],
    pos: usize,
}

/// The tree of one token.
fn convert(token: &Token) -> (node: AstNode)
    ensures
        node@ == atom(token@),
    decreases token, 0nat, 0nat,
{
    match token {
        Token::Literal(c) => AstNode::Literal(*c),
        Token::Class(chars) => AstNode::Class(chars.clone()),
        Token::NegatedClass(_) => AstNode::NegatedClass,
        Token::Concatenation(parts) => {
            assert(token->Concatenation_0 == *parts);
            let mut inner = AstParser { tokens: parts.as_slice(), pos: 0 };
            assert(inner.tokens@ == parts@);
            match inner.parse_alternation() {
                Some(tree) => tree,
                None => AstNode::Literal(' '),
            }
        },
        Token::Alternation(branches) => {
            assert(token->Alternation_0 == *branches);
            AstNode::Alternation(convert_all(branches))
        },
        Token::Quantifier { token: inner, min, max, greedy } => AstNode::Repeat {
            node: Box::new(convert(inner)),
            min: *min,
            max: *max,
            greedy: *greedy,
        },
        Token::Group(inner, _) => AstNode::Group(Box::new(convert(inner))),
        Token::NonCapturingGroup(inner) => AstNode::NonCapturingGroup(Box::new(convert(inner))),
        Token::Backreference(_) => AstNode::Backreference,
        Token::AnchorStart => AstNode::AnchorStart,
        Token::AnchorEnd => AstNode::AnchorEnd,
        Token::WordBoundary => AstNode::WordBoundary,
        Token::Wildcard => AstNode::Wildcard,
    }
}

/// The trees of the given tokens, one for one.
fn convert_all(tokens: &Vec<Token>) -> (trees: Vec<AstNode>)
    ensures
        asts_of(trees@) == atoms(nodes_of(tokens@), 0, tokens.len() as int),
    decreases tokens, 0nat, 0nat,
{
    let mut trees: Vec<AstNode> = Vec::new();
    let mut i: usize = 0;
    proof {
        lemma_nodes_of(tokens@);
    }
    while i < tokens.len()
        invariant
            i <= tokens.len(),
            trees.len() == i,
            nodes_of(tokens@).len() == tokens.len(),
            forall|k: int| 0 <= k < i ==> trees[k]@ == atom(#[trigger] nodes_of(tokens@)[k]),
        decreases tokens.len() - i,
    {
        proof {
            lemma_nodes_of(tokens@);
        }
        trees.push(convert(&tokens[i]));
        i += 1;
    }
    proof {
        lemma_asts_of(trees@);
        assert(asts_of(trees@) =~= atoms(nodes_of(tokens@), 0, tokens.len() as int));
    }
    trees
}

impl<'a> AstParser<'a> {
    /// The nodes of the tokens that the parser reads.
    pub closed spec fn nodes(&self) -> Seq<Node> {
        nodes_of(self.tokens@)
    }

    /// The index of the next token.
    pub closed spec fn position(&self) -> int {
        self.pos as int
    }

    /// A parser at the start of `tokens`.
    pub fn new(tokens: &'a [Token]) -> (parser: Self)
        ensures
            parser.nodes() == nodes_of(tokens@),
            parser.position() == 0,
    {
        AstParser { tokens, pos: 0 }
    }

    /// Parses the tokens from the current position on: a sequence, or an
    /// alternation of sequences. There is no tree if no token is left, or if
    /// an alternation token that separates two sequences is the last token.
    pub fn parse(&mut self) -> (tree: Option<AstNode>)
        ensures
            option_ast(tree) == parse_at(old(self).nodes(), old(self).position()),
            final(self).nodes() == old(self).nodes(),
            final(self).position() == if old(self).position() < old(self).nodes().len() {
                old(self).nodes().len() as int
            } else {
                old(self).position()
            },
    {
        self.parse_alternation()
    }

    /// Parses sequences separated by alternation tokens.
    fn parse_alternation(&mut self) -> (tree: Option<AstNode>)
        ensures
            option_ast(tree) == parse_at(old(self).nodes(), old(self).position()),
            final(self).tokens == old(self).tokens,
            final(self).pos == if old(self).pos < old(self).tokens@.len() {
                old(self).tokens@.len()
            } else {
                old(self).pos as nat
            },
        decreases old(self).tokens@, 2nat, 1nat,
    {
        let ghost toks = self.nodes();
        let ghost from = self.pos as int;
        let mut branches: Vec<AstNode> = Vec::new();
        let mut separated = true;
        proof {
            lemma_nodes_of(self.tokens@);
        }
        assert(asts_of(branches@) =~= Seq::empty());
        while separated
            invariant
                self.tokens == old(self).tokens,
                toks == nodes_of(self.tokens@),
                toks == old(self).nodes(),
                from == old(self).pos,
                toks.len() == self.tokens@.len(),
                self.pos <= self.tokens@.len() || self.pos == from,
                self.pos != from ==> from < self.tokens@.len(),
                !separated ==> self.pos == self.tokens@.len() && from < self.tokens@.len(),
                separated ==> parse_branches_at(toks, from, Seq::empty()) == parse_branches_at(
                    toks,
                    self.pos as int,
                    asts_of(branches@),
                ),
                !separated ==> parse_branches_at(toks, from, Seq::empty()) == Some(
                    asts_of(branches@),
                ),
            decreases self.tokens@.len() - self.pos + (if separated { 1int } else { 0int }),
        {
            let ghost at = self.pos as int;
            match self.parse_sequence() {
                None => {
                    return None;
                },
                Some(tree) => {
                    proof {
                        lemma_asts_push(branches@, tree);
                        lemma_sequence_end_from(toks, at + 1);
                    }
                    branches.push(tree);
                },
            }
            if self.peek_is_alternation() {
                self.pos += 1;
            } else {
                separated = false;
            }
        }
        proof {
            lemma_asts_of(branches@);
        }
        if branches.len() == 1 {
            Some(branches.remove(0))
        } else {
            Some(AstNode::Alternation(branches))
        }
    }

    /// Parses the tokens up to the next alternation token or the end; the
    /// first token is taken whatever it is.
    fn parse_sequence(&mut self) -> (tree: Option<AstNode>)
        ensures
            final(self).tokens == old(self).tokens,
            option_ast(tree) == parse_sequence_at(old(self).nodes(), old(self).position()),
            tree is Some ==> final(self).position() == sequence_end(
                old(self).nodes(),
                old(self).position(),
            ),
            tree is None ==> old(self).position() >= old(self).nodes().len() && final(self).pos
                == old(self).pos,
        decreases old(self).tokens@, 1nat, 1nat,
    {
        let ghost toks = self.nodes();
        let ghost from = self.pos as int;
        let mut parts: Vec<AstNode> = Vec::new();
        proof {
            lemma_nodes_of(self.tokens@);
        }
        match self.parse_atom() {
            None => {
                return None;
            },
            Some(node) => {
                parts.push(node);
            },
        }
        while !(self.peek_is_alternation() || self.is_end())
            invariant
                self.tokens == old(self).tokens,
                toks == nodes_of(self.tokens@),
                toks == old(self).nodes(),
                from == old(self).pos,
                toks.len() == self.tokens@.len(),
                0 <= from < self.pos <= self.tokens@.len(),
                parts.len() == self.pos - from,
                sequence_end(toks, from) == sequence_end_from(toks, self.pos as int),
                forall|k: int| 0 <= k < parts.len() ==> parts[k]@ == atom(#[trigger] toks[from + k]),
            decreases self.tokens@.len() - self.pos,
        {
            match self.parse_atom() {
                None => {},
                Some(node) => {
                    parts.push(node);
                },
            }
        }
        proof {
            lemma_asts_of(parts@);
            assert(asts_of(parts@) =~= atoms(toks, from, sequence_end(toks, from)));
        }
        if parts.len() == 1 {
            Some(parts.remove(0))
        } else {
            Some(AstNode::Sequence(parts))
        }
    }

    /// Takes the next token, if there is one, and gives its tree.
    fn parse_atom(&mut self) -> (tree: Option<AstNode>)
        ensures
            final(self).tokens == old(self).tokens,
            old(self).pos < old(self).tokens@.len() ==> final(self).pos == old(self).pos + 1
                && option_ast(tree) == Some(atom(old(self).nodes()[old(self).pos as int])),
            old(self).pos >= old(self).tokens@.len() ==> final(self).pos == old(self).pos
                && tree is None,
        decreases old(self).tokens@, 0nat, 1nat,
    {
        if self.pos < self.tokens.len() {
            proof {
                lemma_nodes_of(self.tokens@);
            }
            let node = convert(&self.tokens[self.pos]);
            self.pos += 1;
            Some(node)
        } else {
            None
        }
    }

    /// Whether the next token is an alternation.
    fn peek_is_alternation(&self) -> (b: bool)
        ensures
            b == (self.pos < self.tokens@.len() && self.nodes()[self.pos as int] is Alternation),
            b ==> self.pos < usize::MAX,
    {
        if self.pos < self.tokens.len() {
            proof {
                lemma_nodes_of(self.tokens@);
            }
            match &self.tokens[self.pos] {
                Token::Alternation(_) => true,
                _ => false,
            }
        } else {
            false
        }
    }

    /// Whether no token is left.
    fn is_end(&self) -> (b: bool)
        ensures
            b == (self.pos >= self.tokens@.len()),
    {
        self.pos >= self.tokens.len()
    }
}

} // verus!
