//! The shape of the trees that building yields.

use crate::builder::{
    accessed, accesses, after, arguments, atom_node, binary_kind, binary_node, call_kind,
    ends_operand, expression, is_atom, leaf, operations, primary, ranged, remaining, token_at,
    tree_of, unary, unary_level, unary_node,
};
use crate::token::{Operator, SpecToken};
use crate::tree::{arity, well_formed, SpecKind, SpecNode};
use vstd::prelude::*;

verus! {

/// The operand, where there is one, is well formed.
pub open spec fn operand_well_formed(node: Option<SpecNode>) -> bool {
    node matches Some(n) ==> well_formed(n)
}

/// Every node of the sequence is well formed.
pub open spec fn all_well_formed(nodes: Seq<SpecNode>) -> bool {
    forall|i: int| 0 <= i < nodes.len() ==> well_formed(#[trigger] nodes[i])
}

/// The leaf of a literal or a name is well formed.
pub proof fn lemma_atom_well_formed(token: SpecToken)
    requires
        is_atom(token),
    ensures
        well_formed(atom_node(token)),
{
    let node = atom_node(token);
    assert(node.children.len() == 0);
}

/// An operator with its one operand is well formed if the operand is.
pub proof fn lemma_unary_node_well_formed(kind: SpecKind, operand: Option<SpecNode>)
    requires
        arity(kind) == Some(1int),
        operand_well_formed(operand),
        unary_node(kind, operand) is Ok,
    ensures
        well_formed(unary_node(kind, operand)->Ok_0),
{
    let node = unary_node(kind, operand)->Ok_0;
    assert(node.children.len() == 1);
    assert(node.children[0] == operand->0);
}

/// An operator with its two operands is well formed if the operands are.
pub proof fn lemma_binary_node_well_formed(
    kind: SpecKind,
    left: Option<SpecNode>,
    right: Option<SpecNode>,
)
    requires
        arity(kind) == Some(2int),
        operand_well_formed(left),
        operand_well_formed(right),
        binary_node(kind, left, right) is Ok,
    ensures
        well_formed(binary_node(kind, left, right)->Ok_0),
{
    let node = binary_node(kind, left, right)->Ok_0;
    assert(node.children.len() == 2);
    assert(node.children[0] == left->0);
    assert(node.children[1] == right->0);
}

/// A call or an array of well-formed arguments is well formed.
pub proof fn lemma_call_well_formed(name: Seq<char>, children: Seq<SpecNode>)
    requires
        all_well_formed(children),
    ensures
        well_formed(SpecNode { kind: call_kind(name), children }),
{
    let node = SpecNode { kind: call_kind(name), children };
    assert(arity(node.kind) is None);
}

/// The arguments that are read are well formed.
pub proof fn lemma_arguments_well_formed(
    tokens: Seq<SpecToken>,
    pos: int,
    found: Seq<SpecNode>,
    taken: int,
)
    requires
        all_well_formed(found),
        arguments(tokens, pos, found, taken) is Ok,
    ensures
        all_well_formed(arguments(tokens, pos, found, taken)->Ok_0.nodes),
    decreases remaining(tokens, pos), 30int,
{
    if found.len() == 0 && token_at(tokens, pos) == Some(SpecToken::CloseParen) {
    } else {
        let argument = expression(tokens, pos, 0);
        assert(argument is Ok);
        lemma_expression_well_formed(tokens, pos, 0);
        let next = after(pos, argument->Ok_0.length);
        assert(argument->Ok_0.node is Some);
        let node = argument->Ok_0.node->0;
        let more = found.push(node);
        assert forall|i: int| 0 <= i < more.len() implies well_formed(#[trigger] more[i]) by {
            if i < found.len() {
                assert(more[i] == found[i]);
            }
        }
        if token_at(tokens, next) == Some(SpecToken::Comma) {
            lemma_arguments_well_formed(
                tokens,
                next + 1,
                more,
                taken + argument->Ok_0.length + 1,
            );
        }
    }
}

/// The expression that is read is well formed.
pub proof fn lemma_expression_well_formed(tokens: Seq<SpecToken>, pos: int, level: int)
    requires
        expression(tokens, pos, level) is Ok,
    ensures
        operand_well_formed(expression(tokens, pos, level)->Ok_0.node),
    decreases remaining(tokens, pos),
        if 0 <= level < unary_level() {
            25 - level
        } else {
            20
        },
{
    if 0 <= level < unary_level() {
        let left = expression(tokens, pos, level + 1);
        assert(left is Ok);
        lemma_expression_well_formed(tokens, pos, level + 1);
        lemma_operations_well_formed(
            tokens,
            after(pos, left->Ok_0.length),
            level,
            left->Ok_0.node,
            left->Ok_0.length,
        );
    } else {
        lemma_unary_well_formed(tokens, pos);
    }
}

/// The operators that follow a well-formed operand build a well-formed
/// tree.
pub proof fn lemma_operations_well_formed(
    tokens: Seq<SpecToken>,
    pos: int,
    level: int,
    left: Option<SpecNode>,
    taken: int,
)
    requires
        operand_well_formed(left),
        operations(tokens, pos, level, left, taken) is Ok,
    ensures
        operand_well_formed(operations(tokens, pos, level, left, taken)->Ok_0.node),
    decreases remaining(tokens, pos), 0int,
{
    if token_at(tokens, pos) is Some && binary_kind(token_at(tokens, pos)->0, level) is Some {
        let kind = binary_kind(token_at(tokens, pos)->0, level)->0;
        assert(arity(kind) == Some(2int));
        let right = expression(tokens, pos + 1, level + 1);
        assert(right is Ok);
        lemma_expression_well_formed(tokens, pos + 1, level + 1);
        let node = binary_node(kind, left, right->Ok_0.node);
        assert(node is Ok);
        lemma_binary_node_well_formed(kind, left, right->Ok_0.node);
        lemma_operations_well_formed(
            tokens,
            after(pos + 1, right->Ok_0.length),
            level,
            Some(node->Ok_0),
            taken + 1 + right->Ok_0.length,
        );
    }
}

/// The chain of unary operators that is read is well formed.
pub proof fn lemma_unary_well_formed(tokens: Seq<SpecToken>, pos: int)
    requires
        unary(tokens, pos) is Ok,
    ensures
        operand_well_formed(unary(tokens, pos)->Ok_0.node),
    decreases remaining(tokens, pos), 10int,
{
    match token_at(tokens, pos) {
        Some(SpecToken::Operator(Operator::Minus)) => {
            assert(unary(tokens, pos + 1) is Ok);
            lemma_unary_well_formed(tokens, pos + 1);
            lemma_unary_node_well_formed(SpecKind::Neg, unary(tokens, pos + 1)->Ok_0.node);
        },
        Some(SpecToken::Operator(Operator::Not)) => {
            assert(unary(tokens, pos + 1) is Ok);
            lemma_unary_well_formed(tokens, pos + 1);
            lemma_unary_node_well_formed(SpecKind::Not, unary(tokens, pos + 1)->Ok_0.node);
        },
        _ => {
            lemma_ranged_well_formed(tokens, pos);
        },
    }
}

/// The operand or range that is read is well formed.
pub proof fn lemma_ranged_well_formed(tokens: Seq<SpecToken>, pos: int)
    requires
        ranged(tokens, pos) is Ok,
    ensures
        operand_well_formed(ranged(tokens, pos)->Ok_0.node),
    decreases remaining(tokens, pos), 9int,
{
    let low = accessed(tokens, pos);
    assert(low is Ok);
    lemma_accessed_well_formed(tokens, pos);
    let next = after(pos, low->Ok_0.length);
    if token_at(tokens, next) == Some(SpecToken::RangeDots) {
        assert(accessed(tokens, next + 1) is Ok);
        lemma_accessed_well_formed(tokens, next + 1);
        lemma_binary_node_well_formed(
            SpecKind::Range,
            low->Ok_0.node,
            accessed(tokens, next + 1)->Ok_0.node,
        );
    }
}

/// The primary with its accesses that is read is well formed.
pub proof fn lemma_accessed_well_formed(tokens: Seq<SpecToken>, pos: int)
    requires
        accessed(tokens, pos) is Ok,
    ensures
        operand_well_formed(accessed(tokens, pos)->Ok_0.node),
    decreases remaining(tokens, pos), 8int,
{
    let base = primary(tokens, pos);
    assert(base is Ok);
    lemma_primary_well_formed(tokens, pos);
    lemma_accesses_well_formed(
        tokens,
        after(pos, base->Ok_0.length),
        base->Ok_0.node,
        base->Ok_0.length,
    );
}

/// The accesses that follow a well-formed primary build a well-formed
/// tree.
pub proof fn lemma_accesses_well_formed(
    tokens: Seq<SpecToken>,
    pos: int,
    base: Option<SpecNode>,
    taken: int,
)
    requires
        operand_well_formed(base),
        accesses(tokens, pos, base, taken) is Ok,
    ensures
        operand_well_formed(accesses(tokens, pos, base, taken)->Ok_0.node),
    decreases remaining(tokens, pos), 0int,
{
    match token_at(tokens, pos) {
        Some(SpecToken::Dot) => {
            match token_at(tokens, pos + 1) {
                Some(SpecToken::Identifier(name)) => {
                    let node = unary_node(SpecKind::Member(name), base);
                    assert(node is Ok);
                    lemma_unary_node_well_formed(SpecKind::Member(name), base);
                    lemma_accesses_well_formed(tokens, pos + 2, Some(node->Ok_0), taken + 2);
                },
                _ => {},
            }
        },
        Some(SpecToken::OpenBracket) => {
            let index = expression(tokens, pos + 1, 0);
            assert(index is Ok);
            lemma_expression_well_formed(tokens, pos + 1, 0);
            let next = after(pos + 1, index->Ok_0.length);
            assert(token_at(tokens, next) == Some(SpecToken::CloseBracket));
            let node = binary_node(SpecKind::Index, base, index->Ok_0.node);
            assert(node is Ok);
            lemma_binary_node_well_formed(SpecKind::Index, base, index->Ok_0.node);
            lemma_accesses_well_formed(
                tokens,
                next + 1,
                Some(node->Ok_0),
                taken + index->Ok_0.length + 2,
            );
        },
        _ => {},
    }
}

/// The primary that is read is well formed.
pub proof fn lemma_primary_well_formed(tokens: Seq<SpecToken>, pos: int)
    requires
        primary(tokens, pos) is Ok,
    ensures
        operand_well_formed(primary(tokens, pos)->Ok_0.node),
    decreases remaining(tokens, pos), 7int,
{
    let token = token_at(tokens, pos);
    if ends_operand(token) {
    } else {
        match token->0 {
            SpecToken::Identifier(name) => {
                match token_at(tokens, pos + 1) {
                    Some(SpecToken::OpenParen) => {
                        let list = arguments(tokens, pos + 2, Seq::empty(), 2);
                        assert(list is Ok);
                        lemma_arguments_well_formed(tokens, pos + 2, Seq::empty(), 2);
                        lemma_call_well_formed(name, list->Ok_0.nodes);
                    },
                    Some(argument) => {
                        if is_atom(argument) && argument is Identifier && token_at(
                            tokens,
                            pos + 2,
                        ) == Some(SpecToken::OpenParen) {
                            let list = arguments(tokens, pos + 3, Seq::empty(), 3);
                            assert(list is Ok);
                            lemma_arguments_well_formed(tokens, pos + 3, Seq::empty(), 3);
                            lemma_call_well_formed(argument->Identifier_0, list->Ok_0.nodes);
                            let call = SpecNode {
                                kind: call_kind(argument->Identifier_0),
                                children: list->Ok_0.nodes,
                            };
                            let children = seq![call];
                            assert(children[0] == call);
                            lemma_call_well_formed(name, children);
                        } else if is_atom(argument) {
                            lemma_atom_well_formed(argument);
                            let children = seq![atom_node(argument)];
                            assert(children[0] == atom_node(argument));
                            lemma_call_well_formed(name, children);
                        } else {
                            assert(leaf(SpecKind::Variable(name)).children.len() == 0);
                        }
                    },
                    None => {
                        assert(leaf(SpecKind::Variable(name)).children.len() == 0);
                    },
                }
            },
            SpecToken::OpenParen => {
                assert(expression(tokens, pos + 1, 0) is Ok);
                lemma_expression_well_formed(tokens, pos + 1, 0);
            },
            other => {
                lemma_atom_well_formed(other);
            },
        }
    }
}

/// Building yields well-formed trees only: every node of a tree that is
/// built has as many children as its kind takes.
pub proof fn law_built_trees_are_well_formed(tokens: Seq<SpecToken>)
    requires
        tree_of(tokens) is Ok,
    ensures
        well_formed(tree_of(tokens)->Ok_0),
{
    lemma_expression_well_formed(tokens, 0, 0);
}

} // verus!
