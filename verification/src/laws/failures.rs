//! The failures that building can end with.

use crate::builder::{
    accessed, accesses, after, arguments, binary_kind, binary_node, ends_operand, expression,
    is_atom, operations, primary, ranged, remaining, starts_operand, token_at, tree_of, unary,
    unary_level, unary_node, Parsed,
};
use crate::error::SpecError;
use crate::token::{Operator, SpecToken};
use crate::tree::{SpecKind, SpecNode};
use vstd::prelude::*;

verus! {

/// A failure of building: an operand is missing, a closing bracket is
/// missing, or a token stands where it cannot.
pub open spec fn is_syntactic(e: SpecError) -> bool {
    e is MissingOperand || e is MissingClosingBracket || e is UnexpectedToken
}

/// Reading arguments fails with a failure of building only.
pub proof fn lemma_arguments_failure(
    tokens: Seq<SpecToken>,
    pos: int,
    found: Seq<SpecNode>,
    taken: int,
)
    requires
        arguments(tokens, pos, found, taken) is Err,
    ensures
        is_syntactic(arguments(tokens, pos, found, taken)->Err_0),
    decreases remaining(tokens, pos), 30int,
{
    if found.len() == 0 && token_at(tokens, pos) == Some(SpecToken::CloseParen) {
    } else {
        let argument = expression(tokens, pos, 0);
        if argument is Err {
            lemma_expression_failure(tokens, pos, 0);
        } else {
            let next = after(pos, argument->Ok_0.length);
            if argument->Ok_0.node is Some && token_at(tokens, next) == Some(SpecToken::Comma) {
                lemma_arguments_failure(
                    tokens,
                    next + 1,
                    found.push(argument->Ok_0.node->0),
                    taken + argument->Ok_0.length + 1,
                );
            }
        }
    }
}

/// Reading an expression fails with a failure of building only.
pub proof fn lemma_expression_failure(tokens: Seq<SpecToken>, pos: int, level: int)
    requires
        expression(tokens, pos, level) is Err,
    ensures
        is_syntactic(expression(tokens, pos, level)->Err_0),
    decreases remaining(tokens, pos),
        if 0 <= level < unary_level() {
            25 - level
        } else {
            20
        },
{
    if 0 <= level < unary_level() {
        let left = expression(tokens, pos, level + 1);
        if left is Err {
            lemma_expression_failure(tokens, pos, level + 1);
        } else {
            lemma_operations_failure(
                tokens,
                after(pos, left->Ok_0.length),
                level,
                left->Ok_0.node,
                left->Ok_0.length,
            );
        }
    } else {
        lemma_unary_failure(tokens, pos);
    }
}

/// Reading the operators behind an operand fails with a failure of
/// building only.
pub proof fn lemma_operations_failure(
    tokens: Seq<SpecToken>,
    pos: int,
    level: int,
    left: Option<SpecNode>,
    taken: int,
)
    requires
        operations(tokens, pos, level, left, taken) is Err,
    ensures
        is_syntactic(operations(tokens, pos, level, left, taken)->Err_0),
    decreases remaining(tokens, pos), 0int,
{
    if token_at(tokens, pos) is Some && binary_kind(token_at(tokens, pos)->0, level) is Some {
        let kind = binary_kind(token_at(tokens, pos)->0, level)->0;
        let right = expression(tokens, pos + 1, level + 1);
        if right is Err {
            lemma_expression_failure(tokens, pos + 1, level + 1);
        } else {
            let node = binary_node(kind, left, right->Ok_0.node);
            if node is Ok {
                lemma_operations_failure(
                    tokens,
                    after(pos + 1, right->Ok_0.length),
                    level,
                    Some(node->Ok_0),
                    taken + 1 + right->Ok_0.length,
                );
            }
        }
    }
}

/// Reading a chain of unary operators fails with a failure of building
/// only.
pub proof fn lemma_unary_failure(tokens: Seq<SpecToken>, pos: int)
    requires
        unary(tokens, pos) is Err,
    ensures
        is_syntactic(unary(tokens, pos)->Err_0),
    decreases remaining(tokens, pos), 10int,
{
    match token_at(tokens, pos) {
        Some(SpecToken::Operator(Operator::Minus)) => {
            if unary(tokens, pos + 1) is Err {
                lemma_unary_failure(tokens, pos + 1);
            }
        },
        Some(SpecToken::Operator(Operator::Not)) => {
            if unary(tokens, pos + 1) is Err {
                lemma_unary_failure(tokens, pos + 1);
            }
        },
        _ => {
            lemma_ranged_failure(tokens, pos);
        },
    }
}

/// Reading an operand or a range fails with a failure of building only.
pub proof fn lemma_ranged_failure(tokens: Seq<SpecToken>, pos: int)
    requires
        ranged(tokens, pos) is Err,
    ensures
        is_syntactic(ranged(tokens, pos)->Err_0),
    decreases remaining(tokens, pos), 9int,
{
    let low = accessed(tokens, pos);
    if low is Err {
        lemma_accessed_failure(tokens, pos);
    } else {
        let next = after(pos, low->Ok_0.length);
        if token_at(tokens, next) == Some(SpecToken::RangeDots) {
            if accessed(tokens, next + 1) is Err {
                lemma_accessed_failure(tokens, next + 1);
            }
        }
    }
}

/// Reading a primary with its accesses fails with a failure of building
/// only.
pub proof fn lemma_accessed_failure(tokens: Seq<SpecToken>, pos: int)
    requires
        accessed(tokens, pos) is Err,
    ensures
        is_syntactic(accessed(tokens, pos)->Err_0),
    decreases remaining(tokens, pos), 8int,
{
    let base = primary(tokens, pos);
    if base is Err {
        lemma_primary_failure(tokens, pos);
    } else {
        lemma_accesses_failure(
            tokens,
            after(pos, base->Ok_0.length),
            base->Ok_0.node,
            base->Ok_0.length,
        );
    }
}

/// Reading the accesses behind a primary fails with a failure of building
/// only.
pub proof fn lemma_accesses_failure(
    tokens: Seq<SpecToken>,
    pos: int,
    base: Option<SpecNode>,
    taken: int,
)
    requires
        accesses(tokens, pos, base, taken) is Err,
    ensures
        is_syntactic(accesses(tokens, pos, base, taken)->Err_0),
    decreases remaining(tokens, pos), 0int,
{
    match token_at(tokens, pos) {
        Some(SpecToken::Dot) => {
            match token_at(tokens, pos + 1) {
                Some(SpecToken::Identifier(name)) => {
                    let node = unary_node(SpecKind::Member(name), base);
                    if node is Ok {
                        lemma_accesses_failure(tokens, pos + 2, Some(node->Ok_0), taken + 2);
                    }
                },
                _ => {},
            }
        },
        Some(SpecToken::OpenBracket) => {
            let index = expression(tokens, pos + 1, 0);
            if index is Err {
                lemma_expression_failure(tokens, pos + 1, 0);
            } else {
                let next = after(pos + 1, index->Ok_0.length);
                if token_at(tokens, next) == Some(SpecToken::CloseBracket) {
                    let node = binary_node(SpecKind::Index, base, index->Ok_0.node);
                    if node is Ok {
                        lemma_accesses_failure(
                            tokens,
                            next + 1,
                            Some(node->Ok_0),
                            taken + index->Ok_0.length + 2,
                        );
                    }
                }
            }
        },
        _ => {},
    }
}

/// Reading a primary fails with a failure of building only.
pub proof fn lemma_primary_failure(tokens: Seq<SpecToken>, pos: int)
    requires
        primary(tokens, pos) is Err,
    ensures
        is_syntactic(primary(tokens, pos)->Err_0),
    decreases remaining(tokens, pos), 7int,
{
    let token = token_at(tokens, pos);
    if ends_operand(token) {
    } else {
        match token->0 {
            SpecToken::Identifier(name) => {
                match token_at(tokens, pos + 1) {
                    Some(SpecToken::OpenParen) => {
                        lemma_arguments_failure(tokens, pos + 2, Seq::empty(), 2);
                    },
                    Some(argument) => {
                        if is_atom(argument) && argument is Identifier && token_at(
                            tokens,
                            pos + 2,
                        ) == Some(SpecToken::OpenParen) {
                            lemma_arguments_failure(tokens, pos + 3, Seq::empty(), 3);
                        }
                    },
                    None => {},
                }
            },
            SpecToken::OpenParen => {
                if expression(tokens, pos + 1, 0) is Err {
                    lemma_expression_failure(tokens, pos + 1, 0);
                }
            },
            _ => {},
        }
    }
}

/// Building fails in three ways only: an operand is missing, a closing
/// bracket is missing, or a token stands where it cannot. No sequence of
/// tokens makes it fail as a tree with a wrong number of children would.
pub proof fn law_building_failures(tokens: Seq<SpecToken>)
    requires
        tree_of(tokens) is Err,
    ensures
        is_syntactic(tree_of(tokens)->Err_0),
{
    if expression(tokens, 0, 0) is Err {
        lemma_expression_failure(tokens, 0, 0);
    }
}


/// Where no operand can start, no operand is read, and no token.
pub proof fn lemma_nothing_to_read(tokens: Seq<SpecToken>, pos: int, level: int)
    requires
        ends_operand(token_at(tokens, pos)),
        0 <= level <= unary_level(),
    ensures
        expression(tokens, pos, level) == Ok::<Parsed, SpecError>(Parsed { node: None, length: 0 }),
    decreases unary_level() - level,
{
    let nothing = Parsed { node: None, length: 0 };
    assert(after(pos, 0) == pos);
    if level < unary_level() {
        lemma_nothing_to_read(tokens, pos, level + 1);
        if token_at(tokens, pos) is Some {
            assert(binary_kind(token_at(tokens, pos)->0, level) is None);
        }
        assert(operations(tokens, pos, level, None, 0) == Ok::<Parsed, SpecError>(nothing));
    } else {
        assert(primary(tokens, pos) == Ok::<Parsed, SpecError>(nothing));
        assert(!starts_operand(token_at(tokens, pos)));
        assert(accesses(tokens, pos, None, 0) == Ok::<Parsed, SpecError>(nothing));
        assert(accessed(tokens, pos) == Ok::<Parsed, SpecError>(nothing));
        assert(ranged(tokens, pos) == Ok::<Parsed, SpecError>(nothing));
        assert(unary(tokens, pos) == Ok::<Parsed, SpecError>(nothing));
    }
}

/// What fails at one level fails the same at every lower level.
pub proof fn lemma_failure_lower(tokens: Seq<SpecToken>, pos: int, from: int, level: int)
    requires
        expression(tokens, pos, from) is Err,
        0 <= level <= from <= unary_level(),
    ensures
        expression(tokens, pos, level) == expression(tokens, pos, from),
    decreases from - level,
{
    if level < from {
        lemma_failure_lower(tokens, pos, from, level + 1);
    }
}

/// A binary operator behind which no operand can start lacks its right
/// operand: a text that ends so, as `true-` does, fails with
/// `MissingOperand`.
pub proof fn law_operator_without_operand(tokens: Seq<SpecToken>, level: int)
    requires
        0 <= level < unary_level(),
        expression(tokens, 0, level + 1) is Ok,
        expression(tokens, 0, level + 1)->Ok_0.length >= 0,
        token_at(tokens, expression(tokens, 0, level + 1)->Ok_0.length) is Some,
        binary_kind(
            token_at(tokens, expression(tokens, 0, level + 1)->Ok_0.length)->0,
            level,
        ) is Some,
        ends_operand(token_at(tokens, expression(tokens, 0, level + 1)->Ok_0.length + 1)),
    ensures
        tree_of(tokens) == Err::<SpecNode, SpecError>(SpecError::MissingOperand),
{
    let left = expression(tokens, 0, level + 1)->Ok_0;
    let at = left.length;
    assert(after(0, at) == at);
    lemma_nothing_to_read(tokens, at + 1, level + 1);
    let kind = binary_kind(token_at(tokens, at)->0, level)->0;
    assert(binary_node(kind, left.node, None) == Err::<SpecNode, SpecError>(
        SpecError::MissingOperand,
    ));
    assert(operations(tokens, at, level, left.node, at) == Err::<Parsed, SpecError>(
        SpecError::MissingOperand,
    ));
    assert(expression(tokens, 0, level) == Err::<Parsed, SpecError>(SpecError::MissingOperand));
    lemma_failure_lower(tokens, 0, level, 0);
}

/// A unary operator behind which no operand can start lacks its operand:
/// `-` and `!` alone fail with `MissingOperand`.
pub proof fn law_unary_without_operand(tokens: Seq<SpecToken>)
    requires
        token_at(tokens, 0) == Some(SpecToken::Operator(Operator::Minus)) || token_at(tokens, 0)
            == Some(SpecToken::Operator(Operator::Not)),
        ends_operand(token_at(tokens, 1)),
    ensures
        tree_of(tokens) == Err::<SpecNode, SpecError>(SpecError::MissingOperand),
{
    lemma_nothing_to_read(tokens, 1, unary_level());
    assert(unary(tokens, 1) == Ok::<Parsed, SpecError>(Parsed { node: None, length: 0 }));
    assert(unary(tokens, 0) == Err::<Parsed, SpecError>(SpecError::MissingOperand));
    assert(expression(tokens, 0, unary_level()) == unary(tokens, 0));
    lemma_failure_lower(tokens, 0, unary_level(), 0);
}

/// An operand that starts directly behind a complete primary is
/// unexpected: `1 2` fails with the token `2`.
pub proof fn law_operand_behind_operand(tokens: Seq<SpecToken>)
    requires
        primary(tokens, 0) is Ok,
        primary(tokens, 0)->Ok_0.length >= 0,
        starts_operand(token_at(tokens, primary(tokens, 0)->Ok_0.length)),
    ensures
        tree_of(tokens) == Err::<SpecNode, SpecError>(
            SpecError::UnexpectedToken(token_at(tokens, primary(tokens, 0)->Ok_0.length)->0),
        ),
{
    let first = primary(tokens, 0)->Ok_0;
    let token = token_at(tokens, first.length)->0;
    let failure = SpecError::UnexpectedToken(token);
    assert(after(0, first.length) == first.length);
    assert(accesses(tokens, first.length, first.node, first.length) == Err::<Parsed, SpecError>(
        failure,
    ));
    assert(accessed(tokens, 0) == Err::<Parsed, SpecError>(failure));
    assert(ranged(tokens, 0) == Err::<Parsed, SpecError>(failure));
    assert(unary(tokens, 0) == Err::<Parsed, SpecError>(failure));
    assert(expression(tokens, 0, unary_level()) == unary(tokens, 0));
    lemma_failure_lower(tokens, 0, unary_level(), 0);
}

/// In an empty pair of parentheses the `)` is unexpected, wherever the
/// pair stands.
pub proof fn law_empty_parentheses(tokens: Seq<SpecToken>, pos: int)
    requires
        token_at(tokens, pos) == Some(SpecToken::OpenParen),
        token_at(tokens, pos + 1) == Some(SpecToken::CloseParen),
    ensures
        primary(tokens, pos) == Err::<Parsed, SpecError>(
            SpecError::UnexpectedToken(SpecToken::CloseParen),
        ),
{
    lemma_nothing_to_read(tokens, pos + 1, 0);
    assert(after(pos + 1, 0) == pos + 1);
}

} // verus!
