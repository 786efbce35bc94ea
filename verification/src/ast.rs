//! The older tree form of a pattern, kept as a fallback for generation.

use vstd::prelude::*;

verus! {

/// A node of the older tree form of a pattern. Unlike a token it carries no
/// group identities and no members of negated classes.
#[derive(Debug)]
pub enum AstNode {
    /// The parts one after the other.
    Sequence(Vec<AstNode>),
    /// One of the branches.
    Alternation(Vec<AstNode>),
    /// Between `min` and `max` repetitions of `node`; a `max` of
    /// `usize::MAX` means that there is no upper bound.
    Repeat { node: Box<AstNode>, min: usize, max: usize, greedy: bool },
    /// A capturing group.
    Group(Box<AstNode>),
    /// A non-capturing group.
    NonCapturingGroup(Box<AstNode>),
    /// A back-reference; it cannot be generated from this form.
    Backreference,
    /// One of the listed characters.
    Class(Vec<char>),
    /// A negated class; it cannot be generated.
    NegatedClass,
    /// A single character.
    Literal(char),
    AnchorStart,
    AnchorEnd,
    WordBoundary,
    /// Any alphanumeric character.
    Wildcard,
}

/// Mathematical view of an [`AstNode`].
pub enum Ast {
    Sequence(Seq<Ast>),
    Alternation(Seq<Ast>),
    Repeat { node: Box<Ast>, min: nat, max: nat, greedy: bool },
    Group(Box<Ast>),
    NonCapturingGroup(Box<Ast>),
    Backreference,
    Class(Seq<char>),
    NegatedClass,
    Literal(char),
    AnchorStart,
    AnchorEnd,
    WordBoundary,
    Wildcard,
}

/// The tree that an [`AstNode`] stands for.
pub open spec fn ast_of(node: AstNode) -> Ast
    decreases node,
{
    match node {
        AstNode::Sequence(parts) => Ast::Sequence(asts_of(parts@)),
        AstNode::Alternation(branches) => Ast::Alternation(asts_of(branches@)),
        AstNode::Repeat { node: inner, min, max, greedy } => Ast::Repeat {
            node: Box::new(ast_of(*inner)),
            min: min as nat,
            max: max as nat,
            greedy,
        },
        AstNode::Group(inner) => Ast::Group(Box::new(ast_of(*inner))),
        AstNode::NonCapturingGroup(inner) => Ast::NonCapturingGroup(Box::new(ast_of(*inner))),
        AstNode::Backreference => Ast::Backreference,
        AstNode::Class(chars) => Ast::Class(chars@),
        AstNode::NegatedClass => Ast::NegatedClass,
        AstNode::Literal(c) => Ast::Literal(c),
        AstNode::AnchorStart => Ast::AnchorStart,
        AstNode::AnchorEnd => Ast::AnchorEnd,
        AstNode::WordBoundary => Ast::WordBoundary,
        AstNode::Wildcard => Ast::Wildcard,
    }
}

/// The trees that a list of nodes stands for, in order.
pub open spec fn asts_of(nodes: Seq<AstNode>) -> Seq<Ast>
    decreases nodes,
{
    Seq::new(
        nodes.len(),
        |i: int|
            if 0 <= i < nodes.len() {
                ast_of(nodes[i])
            } else {
                Ast::Wildcard
            },
    )
}

impl View for AstNode {
    type V = Ast;

    open spec fn view(&self) -> Ast {
        ast_of(*self)
    }
}

/// The trees of a list of nodes are the trees of its nodes, one for one.
pub proof fn lemma_asts_of(nodes: Seq<AstNode>)
    ensures
        asts_of(nodes).len() == nodes.len(),
        forall|i: int| 0 <= i < nodes.len() ==> #[trigger] asts_of(nodes)[i] == nodes[i]@,
{
}

/// Appending a node appends its tree.
pub proof fn lemma_asts_push(nodes: Seq<AstNode>, node: AstNode)
    ensures
        asts_of(nodes.push(node)) == asts_of(nodes).push(node@),
{
    assert(asts_of(nodes.push(node)) =~= asts_of(nodes).push(node@));
}

/// The view of an optional tree.
pub open spec fn option_ast(node: Option<AstNode>) -> Option<Ast> {
    match node {
        Some(n) => Some(n@),
        None => None,
    }
}

impl Clone for AstNode {
    /// A copy of the whole tree.
    fn clone(&self) -> (r: AstNode)
        ensures
            r@ == self@,
        decreases self,
    {
        match self {
            AstNode::Sequence(parts) => {
                assert(self->Sequence_0 == *parts);
                AstNode::Sequence(clone_all(parts))
            },
            AstNode::Alternation(branches) => {
                assert(self->Alternation_0 == *branches);
                AstNode::Alternation(clone_all(branches))
            },
            AstNode::Repeat { node, min, max, greedy } => AstNode::Repeat {
                node: Box::new((**node).clone()),
                min: *min,
                max: *max,
                greedy: *greedy,
            },
            AstNode::Group(inner) => AstNode::Group(Box::new((**inner).clone())),
            AstNode::NonCapturingGroup(inner) => AstNode::NonCapturingGroup(
                Box::new((**inner).clone()),
            ),
            AstNode::Backreference => AstNode::Backreference,
            AstNode::Class(chars) => AstNode::Class(chars.clone()),
            AstNode::NegatedClass => AstNode::NegatedClass,
            AstNode::Literal(c) => AstNode::Literal(*c),
            AstNode::AnchorStart => AstNode::AnchorStart,
            AstNode::AnchorEnd => AstNode::AnchorEnd,
            AstNode::WordBoundary => AstNode::WordBoundary,
            AstNode::Wildcard => AstNode::Wildcard,
        }
    }
}

/// Copies of the given nodes, in order.
fn clone_all(nodes: &Vec<AstNode>) -> (copies: Vec<AstNode>)
    ensures
        asts_of(copies@) == asts_of(nodes@),
    decreases nodes,
{
    let mut copies: Vec<AstNode> = Vec::new();
    let mut i: usize = 0;
    while i < nodes.len()
        invariant
            i <= nodes.len(),
            copies.len() == i,
            forall|k: int| 0 <= k < i ==> copies[k]@ == nodes[k]@,
        decreases nodes.len() - i,
    {
        copies.push(nodes[i].clone());
        i += 1;
    }
    assert(asts_of(copies@) =~= asts_of(nodes@));
    copies
}

} // verus!
