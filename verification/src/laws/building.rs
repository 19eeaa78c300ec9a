//! What building makes of tokens that stand in parentheses.

use crate::builder::{
    accessed, accesses, after, arguments, binary_kind, binary_node, ends_operand, expression,
    is_atom, operations, primary, ranged, remaining, starts_operand, token_at, tree_of, unary,
    unary_level, unary_node, Parsed,
};
use crate::error::SpecError;
use crate::token::{Operator, SpecToken};
use crate::tree::{SpecKind, SpecNode};
use vstd::prelude::*;

verus! {

/// `inner` stands within `outer` from the place `offset` on, and a `)`
/// follows it there.
pub open spec fn enclosed(inner: Seq<SpecToken>, outer: Seq<SpecToken>, offset: int) -> bool {
    &&& 0 <= offset
    &&& offset + inner.len() < outer.len()
    &&& forall|i: int| 0 <= i < inner.len() ==> outer[offset + i] == #[trigger] inner[i]
    &&& outer[offset + inner.len()] == SpecToken::CloseParen
}

/// Within `inner` both sequences show the same token; where `inner` ends,
/// `outer` shows the `)`.
pub proof fn lemma_enclosed_token(inner: Seq<SpecToken>, outer: Seq<SpecToken>, offset: int, i: int)
    requires
        enclosed(inner, outer, offset),
        0 <= i <= inner.len(),
    ensures
        i < inner.len() ==> token_at(outer, offset + i) == token_at(inner, i) && token_at(
            inner,
            i,
        ) is Some,
        i == inner.len() ==> token_at(outer, offset + i) == Some(SpecToken::CloseParen) && token_at(
            inner,
            i,
        ) is None,
{
    if i < inner.len() {
        assert(outer[offset + i] == inner[i]);
    }
}

/// Arguments that are read to their `)` within `inner` are read the same
/// within `outer`.
pub proof fn lemma_arguments_enclosed(
    inner: Seq<SpecToken>,
    outer: Seq<SpecToken>,
    offset: int,
    pos: int,
    found: Seq<SpecNode>,
    taken: int,
)
    requires
        enclosed(inner, outer, offset),
        0 <= pos <= inner.len(),
        arguments(inner, pos, found, taken) is Ok,
    ensures
        arguments(outer, offset + pos, found, taken) == arguments(inner, pos, found, taken),
        arguments(inner, pos, found, taken)->Ok_0.length >= taken,
        pos + arguments(inner, pos, found, taken)->Ok_0.length - taken <= inner.len(),
    decreases remaining(inner, pos), 30int,
{
    lemma_enclosed_token(inner, outer, offset, pos);
    if found.len() == 0 && token_at(inner, pos) == Some(SpecToken::CloseParen) {
    } else {
        let argument = expression(inner, pos, 0);
        assert(argument is Ok);
        lemma_expression_enclosed(inner, outer, offset, pos, 0);
        let length = argument->Ok_0.length;
        let next = pos + length;
        assert(after(pos, length) == next);
        assert(after(offset + pos, length) == offset + next);
        lemma_enclosed_token(inner, outer, offset, next);
        let node = argument->Ok_0.node->0;
        assert(argument->Ok_0.node is Some);
        if token_at(inner, next) == Some(SpecToken::Comma) {
            lemma_arguments_enclosed(
                inner,
                outer,
                offset,
                next + 1,
                found.push(node),
                taken + length + 1,
            );
        }
    }
}

/// An expression that is read within `inner` is read the same within
/// `outer`.
pub proof fn lemma_expression_enclosed(
    inner: Seq<SpecToken>,
    outer: Seq<SpecToken>,
    offset: int,
    pos: int,
    level: int,
)
    requires
        enclosed(inner, outer, offset),
        0 <= pos <= inner.len(),
        expression(inner, pos, level) is Ok,
    ensures
        expression(outer, offset + pos, level) == expression(inner, pos, level),
        expression(inner, pos, level)->Ok_0.length >= 0,
        pos + expression(inner, pos, level)->Ok_0.length <= inner.len(),
    decreases remaining(inner, pos),
        if 0 <= level < unary_level() {
            25 - level
        } else {
            20
        },
{
    if 0 <= level < unary_level() {
        let left = expression(inner, pos, level + 1);
        assert(left is Ok);
        lemma_expression_enclosed(inner, outer, offset, pos, level + 1);
        let length = left->Ok_0.length;
        assert(after(pos, length) == pos + length);
        assert(after(offset + pos, length) == offset + pos + length);
        lemma_operations_enclosed(inner, outer, offset, pos + length, level, left->Ok_0.node, length);
    } else {
        lemma_unary_enclosed(inner, outer, offset, pos);
    }
}

/// The operators that follow an operand within `inner` are read the same
/// within `outer`.
pub proof fn lemma_operations_enclosed(
    inner: Seq<SpecToken>,
    outer: Seq<SpecToken>,
    offset: int,
    pos: int,
    level: int,
    left: Option<SpecNode>,
    taken: int,
)
    requires
        enclosed(inner, outer, offset),
        0 <= pos <= inner.len(),
        operations(inner, pos, level, left, taken) is Ok,
    ensures
        operations(outer, offset + pos, level, left, taken) == operations(
            inner,
            pos,
            level,
            left,
            taken,
        ),
        operations(inner, pos, level, left, taken)->Ok_0.length >= taken,
        pos + operations(inner, pos, level, left, taken)->Ok_0.length - taken <= inner.len(),
    decreases remaining(inner, pos), 0int,
{
    lemma_enclosed_token(inner, outer, offset, pos);
    if token_at(inner, pos) is Some && binary_kind(token_at(inner, pos)->0, level) is Some {
        let right = expression(inner, pos + 1, level + 1);
        assert(right is Ok);
        lemma_expression_enclosed(inner, outer, offset, pos + 1, level + 1);
        let length = right->Ok_0.length;
        let node = binary_node(binary_kind(token_at(inner, pos)->0, level)->0, left, right->Ok_0.node);
        assert(node is Ok);
        assert(after(pos + 1, length) == pos + 1 + length);
        assert(after(offset + pos + 1, length) == offset + pos + 1 + length);
        lemma_operations_enclosed(
            inner,
            outer,
            offset,
            pos + 1 + length,
            level,
            Some(node->Ok_0),
            taken + 1 + length,
        );
    } else {
        assert(binary_kind(SpecToken::CloseParen, level) is None);
    }
}

/// A chain of unary operators that is read within `inner` is read the same
/// within `outer`.
pub proof fn lemma_unary_enclosed(inner: Seq<SpecToken>, outer: Seq<SpecToken>, offset: int, pos: int)
    requires
        enclosed(inner, outer, offset),
        0 <= pos <= inner.len(),
        unary(inner, pos) is Ok,
    ensures
        unary(outer, offset + pos) == unary(inner, pos),
        unary(inner, pos)->Ok_0.length >= 0,
        pos + unary(inner, pos)->Ok_0.length <= inner.len(),
    decreases remaining(inner, pos), 10int,
{
    lemma_enclosed_token(inner, outer, offset, pos);
    match token_at(inner, pos) {
        Some(SpecToken::Operator(Operator::Minus)) => {
            assert(unary(inner, pos + 1) is Ok);
            lemma_unary_enclosed(inner, outer, offset, pos + 1);
        },
        Some(SpecToken::Operator(Operator::Not)) => {
            assert(unary(inner, pos + 1) is Ok);
            lemma_unary_enclosed(inner, outer, offset, pos + 1);
        },
        _ => {
            lemma_ranged_enclosed(inner, outer, offset, pos);
        },
    }
}

/// An operand or a range that is read within `inner` is read the same
/// within `outer`.
#[verifier::rlimit(50)]
pub proof fn lemma_ranged_enclosed(inner: Seq<SpecToken>, outer: Seq<SpecToken>, offset: int, pos: int)
    requires
        enclosed(inner, outer, offset),
        0 <= pos <= inner.len(),
        ranged(inner, pos) is Ok,
    ensures
        ranged(outer, offset + pos) == ranged(inner, pos),
        ranged(inner, pos)->Ok_0.length >= 0,
        pos + ranged(inner, pos)->Ok_0.length <= inner.len(),
    decreases remaining(inner, pos), 9int,
{
    let low = accessed(inner, pos);
    assert(low is Ok);
    lemma_accessed_enclosed(inner, outer, offset, pos);
    assert(accessed(outer, offset + pos) == low);
    let length = low->Ok_0.length;
    let next = pos + length;
    assert(after(pos, length) == next);
    assert(after(offset + pos, length) == offset + next);
    lemma_enclosed_token(inner, outer, offset, next);
    if token_at(inner, next) == Some(SpecToken::RangeDots) {
        assert(token_at(outer, offset + next) == Some(SpecToken::RangeDots));
        let high = accessed(inner, next + 1);
        assert(high is Ok);
        lemma_accessed_enclosed(inner, outer, offset, next + 1);
        assert(accessed(outer, offset + next + 1) == high);
        assert(ranged(inner, pos)->Ok_0.length == length + 1 + high->Ok_0.length);
    } else {
        assert(token_at(outer, offset + next) != Some(SpecToken::RangeDots));
        assert(ranged(inner, pos) == low);
        assert(ranged(outer, offset + pos) == low);
    }
}

/// A primary with its accesses that is read within `inner` is read the
/// same within `outer`.
pub proof fn lemma_accessed_enclosed(inner: Seq<SpecToken>, outer: Seq<SpecToken>, offset: int, pos: int)
    requires
        enclosed(inner, outer, offset),
        0 <= pos <= inner.len(),
        accessed(inner, pos) is Ok,
    ensures
        accessed(outer, offset + pos) == accessed(inner, pos),
        accessed(inner, pos)->Ok_0.length >= 0,
        pos + accessed(inner, pos)->Ok_0.length <= inner.len(),
    decreases remaining(inner, pos), 8int,
{
    let base = primary(inner, pos);
    assert(base is Ok);
    lemma_primary_enclosed(inner, outer, offset, pos);
    let length = base->Ok_0.length;
    assert(after(pos, length) == pos + length);
    assert(after(offset + pos, length) == offset + pos + length);
    lemma_accesses_enclosed(inner, outer, offset, pos + length, base->Ok_0.node, length);
}

/// The accesses that follow a primary within `inner` are read the same
/// within `outer`.
#[verifier::rlimit(50)]
pub proof fn lemma_accesses_enclosed(
    inner: Seq<SpecToken>,
    outer: Seq<SpecToken>,
    offset: int,
    pos: int,
    base: Option<SpecNode>,
    taken: int,
)
    requires
        enclosed(inner, outer, offset),
        0 <= pos <= inner.len(),
        accesses(inner, pos, base, taken) is Ok,
    ensures
        accesses(outer, offset + pos, base, taken) == accesses(inner, pos, base, taken),
        accesses(inner, pos, base, taken)->Ok_0.length >= taken,
        pos + accesses(inner, pos, base, taken)->Ok_0.length - taken <= inner.len(),
    decreases remaining(inner, pos), 0int,
{
    lemma_enclosed_token(inner, outer, offset, pos);
    match token_at(inner, pos) {
        Some(SpecToken::Dot) => {
            lemma_enclosed_token(inner, outer, offset, pos + 1);
            match token_at(inner, pos + 1) {
                Some(SpecToken::Identifier(name)) => {
                    let node = unary_node(SpecKind::Member(name), base);
                    assert(node is Ok);
                    lemma_accesses_enclosed(
                        inner,
                        outer,
                        offset,
                        pos + 2,
                        Some(node->Ok_0),
                        taken + 2,
                    );
                },
                _ => {},
            }
        },
        Some(SpecToken::OpenBracket) => {
            let index = expression(inner, pos + 1, 0);
            assert(index is Ok);
            lemma_expression_enclosed(inner, outer, offset, pos + 1, 0);
            let length = index->Ok_0.length;
            let next = pos + 1 + length;
            assert(after(pos + 1, length) == next);
            assert(after(offset + pos + 1, length) == offset + next);
            lemma_enclosed_token(inner, outer, offset, next);
            assert(token_at(inner, next) == Some(SpecToken::CloseBracket));
            let node = binary_node(SpecKind::Index, base, index->Ok_0.node);
            assert(node is Ok);
            lemma_accesses_enclosed(
                inner,
                outer,
                offset,
                next + 1,
                Some(node->Ok_0),
                taken + length + 2,
            );
        },
        _ => {
            assert(!starts_operand(Some(SpecToken::CloseParen)));
        },
    }
}

/// A primary that is read within `inner` is read the same within `outer`.
#[verifier::rlimit(50)]
pub proof fn lemma_primary_enclosed(inner: Seq<SpecToken>, outer: Seq<SpecToken>, offset: int, pos: int)
    requires
        enclosed(inner, outer, offset),
        0 <= pos <= inner.len(),
        primary(inner, pos) is Ok,
    ensures
        primary(outer, offset + pos) == primary(inner, pos),
        primary(inner, pos)->Ok_0.length >= 0,
        pos + primary(inner, pos)->Ok_0.length <= inner.len(),
    decreases remaining(inner, pos), 7int,
{
    lemma_enclosed_token(inner, outer, offset, pos);
    let token = token_at(inner, pos);
    assert(ends_operand(Some(SpecToken::CloseParen)));
    if ends_operand(token) {
    } else {
        lemma_enclosed_token(inner, outer, offset, pos + 1);
        match token->0 {
            SpecToken::Identifier(name) => {
                match token_at(inner, pos + 1) {
                    Some(SpecToken::OpenParen) => {
                        let list = arguments(inner, pos + 2, Seq::empty(), 2);
                        assert(list is Ok);
                        lemma_arguments_enclosed(inner, outer, offset, pos + 2, Seq::empty(), 2);
                    },
                    Some(argument) => {
                        if is_atom(argument) {
                            lemma_enclosed_token(inner, outer, offset, pos + 2);
                            if argument is Identifier && token_at(inner, pos + 2) == Some(
                                SpecToken::OpenParen,
                            ) {
                                let list = arguments(inner, pos + 3, Seq::empty(), 3);
                                assert(list is Ok);
                                lemma_arguments_enclosed(
                                    inner,
                                    outer,
                                    offset,
                                    pos + 3,
                                    Seq::empty(),
                                    3,
                                );
                            }
                        }
                    },
                    None => {
                        assert(!is_atom(SpecToken::CloseParen));
                    },
                }
            },
            SpecToken::OpenParen => {
                let inside = expression(inner, pos + 1, 0);
                assert(inside is Ok);
                lemma_expression_enclosed(inner, outer, offset, pos + 1, 0);
                let length = inside->Ok_0.length;
                let next = pos + 1 + length;
                assert(after(pos + 1, length) == next);
                assert(after(offset + pos + 1, length) == offset + next);
                lemma_enclosed_token(inner, outer, offset, next);
            },
            _ => {},
        }
    }
}

/// Tokens in parentheses build the tree that they build without them.
#[verifier::rlimit(50)]
pub proof fn lemma_tree_in_parentheses(tokens: Seq<SpecToken>)
    requires
        tree_of(tokens) is Ok,
    ensures
        tree_of(seq![SpecToken::OpenParen] + tokens + seq![SpecToken::CloseParen]) == tree_of(tokens),
{
    let outer = seq![SpecToken::OpenParen] + tokens + seq![SpecToken::CloseParen];
    let len = tokens.len() as int;
    assert(outer.len() == len + 2);
    assert(outer[0] == SpecToken::OpenParen);
    assert forall|i: int| 0 <= i < len implies outer[1 + i] == #[trigger] tokens[i] by {}
    assert(outer[1 + len] == SpecToken::CloseParen);
    assert(enclosed(tokens, outer, 1));
    let inside = expression(tokens, 0, 0);
    assert(inside is Ok);
    lemma_expression_enclosed(tokens, outer, 1, 0, 0);
    let length = inside->Ok_0.length;
    assert(after(0, length) == length);
    assert(token_at(tokens, length) is None);
    assert(length == len);
    assert(inside->Ok_0.node is Some);
    // The group is a primary of the outer tokens.
    assert(token_at(outer, 0) == Some(SpecToken::OpenParen));
    assert(after(1, length) == 1 + len);
    assert(token_at(outer, 1 + len) == Some(SpecToken::CloseParen));
    assert(primary(outer, 0) == Ok::<Parsed, SpecError>(
        Parsed { node: inside->Ok_0.node, length: len + 2 },
    ));
    assert(after(0, len + 2) == len + 2);
    assert(token_at(outer, len + 2) is None);
    assert(accesses(outer, len + 2, inside->Ok_0.node, len + 2) == Ok::<Parsed, SpecError>(
        Parsed { node: inside->Ok_0.node, length: len + 2 },
    ));
    assert(accessed(outer, 0) == primary(outer, 0));
    assert(ranged(outer, 0) == accessed(outer, 0));
    assert(unary(outer, 0) == ranged(outer, 0));
    lemma_operand_is_expression(outer, 0, 0);
}

/// The token is no binary operator, or there is none.
pub open spec fn ends_expression(token: Option<SpecToken>) -> bool {
    match token {
        Some(SpecToken::Operator(op)) => op == Operator::Not,
        _ => true,
    }
}

/// An operand behind which no binary operator stands is an expression of
/// every level.
pub proof fn lemma_operand_is_expression(tokens: Seq<SpecToken>, pos: int, level: int)
    requires
        unary(tokens, pos) is Ok,
        unary(tokens, pos)->Ok_0.length >= 0,
        ends_expression(token_at(tokens, pos + unary(tokens, pos)->Ok_0.length)),
        0 <= level <= unary_level(),
    ensures
        expression(tokens, pos, level) == unary(tokens, pos),
    decreases unary_level() - level,
{
    let operand = unary(tokens, pos)->Ok_0;
    if level < unary_level() {
        lemma_operand_is_expression(tokens, pos, level + 1);
        assert(after(pos, operand.length) == pos + operand.length);
        let token = token_at(tokens, pos + operand.length);
        if token is Some {
            assert(binary_kind(token->0, level) is None);
        }
        assert(operations(tokens, pos + operand.length, level, operand.node, operand.length)
            == Ok::<Parsed, SpecError>(operand));
    }
}

/// An expression behind which no binary operator stands is an expression
/// of every lower level too.
pub proof fn lemma_expression_lower(tokens: Seq<SpecToken>, pos: int, from: int, level: int)
    requires
        expression(tokens, pos, from) is Ok,
        expression(tokens, pos, from)->Ok_0.length >= 0,
        ends_expression(token_at(tokens, pos + expression(tokens, pos, from)->Ok_0.length)),
        0 <= level <= from <= unary_level(),
    ensures
        expression(tokens, pos, level) == expression(tokens, pos, from),
    decreases from - level,
{
    let found = expression(tokens, pos, from)->Ok_0;
    if level < from {
        lemma_expression_lower(tokens, pos, from, level + 1);
        assert(after(pos, found.length) == pos + found.length);
        let token = token_at(tokens, pos + found.length);
        if token is Some {
            assert(binary_kind(token->0, level) is None);
        }
        assert(operations(tokens, pos + found.length, level, found.node, found.length)
            == Ok::<Parsed, SpecError>(found));
    }
}

} // verus!
