//! Laws of expressions with numbers that have a decimal point.

use crate::builder::{
    accessed, accesses, after, atom_node, binary_kind, binary_node, expression, leaf, operations,
    primary, ranged, token_at, tree_of, unary, Parsed,
};
use crate::configuration::Context;
use crate::error::SpecError;
use crate::float::{all_digits, float_of_text, float_quotient, is_decimal_literal, is_digit};
use crate::laws::building::lemma_expression_lower;
use crate::laws::scanning::{lemma_digits_end_of_run, lemma_scan_single, lemma_scan_space, preceded};
use crate::operator::{arithmetic, promoted, Arithmetic};
use crate::token::{
    decimal_value, float_lexeme, lexeme, number, scan, Lexeme, Operator, ScanFailure, SpecToken,
};
use crate::tree::{apply, arguments_of, evaluation, SpecKind, SpecNode};
use crate::value::SpecValue;
use crate::value_of_text;
use vstd::prelude::*;

verus! {

/// The number that a decimal literal writes: an `Int` where the literal is
/// digits only and the number fits 64 bits, else a `Float`.
pub open spec fn literal_value(text: Seq<char>) -> SpecValue {
    if all_digits(text) && decimal_value(text) <= i64::MAX {
        SpecValue::Int(decimal_value(text))
    } else {
        SpecValue::Float(float_of_text(text) as int)
    }
}

/// The token that a decimal literal is scanned as.
pub open spec fn literal_token(text: Seq<char>) -> SpecToken {
    match literal_value(text) {
        SpecValue::Int(value) => SpecToken::Int(value),
        SpecValue::Float(bits) => SpecToken::Float(bits),
        _ => SpecToken::Int(0),
    }
}

/// A decimal literal is scanned as one token, its number, where the text
/// ends behind it, or goes on with something that is neither a digit nor a
/// dot.
pub proof fn lemma_scan_literal(text: Seq<char>, rest: Seq<char>)
    requires
        is_decimal_literal(text),
        rest.len() == 0 || (!is_digit(rest[0]) && rest[0] != '.'),
    ensures
        scan(text + rest) == preceded(literal_token(text), scan(rest)),
{
    let s = text + rest;
    let n = text.len() as int;
    assert forall|i: int| 0 <= i < n implies s[i] == text[i] by {}
    if n < s.len() {
        assert(s[n] == rest[0]);
    }
    assert(s.subrange(0, n) =~= text);
    assert(s.skip(n) =~= rest);
    if text.len() > 0 && all_digits(text) {
        assert forall|i: int| 0 <= i < n implies is_digit(#[trigger] s[i]) by {
            assert(s[i] == text[i]);
        }
        lemma_digits_end_of_run(s, 0, n);
        assert(!(n + 1 < s.len() && s[n] == '.' && is_digit(s[n + 1])));
        assert(float_lexeme(s, n).token == SpecToken::Float(float_of_text(text) as int));
        assert(number(s) == (Lexeme { token: literal_token(text), length: n }));
    } else {
        let dot = choose|dot: int|
            0 < dot < text.len() - 1 && #[trigger] text[dot] == '.' && all_digits(
                text.subrange(0, dot),
            ) && all_digits(text.subrange(dot + 1, text.len() as int));
        assert forall|i: int| 0 <= i < dot implies is_digit(#[trigger] s[i]) by {
            assert(s[i] == text.subrange(0, dot)[i]);
        }
        assert(s[dot] == '.');
        lemma_digits_end_of_run(s, 0, dot);
        assert forall|i: int| dot + 1 <= i < n implies is_digit(#[trigger] s[i]) by {
            assert(s[i] == text.subrange(dot + 1, n)[i - dot - 1]);
        }
        lemma_digits_end_of_run(s, dot + 1, n);
        assert(is_digit(s[dot + 1]));
        assert(!all_digits(text)) by {
            assert(!is_digit(text[dot]));
        }
        assert(float_lexeme(s, n).token == SpecToken::Float(float_of_text(text) as int));
        assert(number(s) == (Lexeme { token: literal_token(text), length: n }));
    }
    assert(is_digit(s[0])) by {
        if text.len() > 0 && all_digits(text) {
            assert(is_digit(text[0]));
        } else {
            let dot = choose|dot: int|
                0 < dot < text.len() - 1 && #[trigger] text[dot] == '.' && all_digits(
                    text.subrange(0, dot),
                ) && all_digits(text.subrange(dot + 1, text.len() as int));
            assert(text.subrange(0, dot)[0] == text[0]);
            assert(is_digit(text.subrange(0, dot)[0]));
        }
    }
    assert(lexeme(s) == Ok::<Lexeme, ScanFailure>(number(s)));
}

/// A literal builds its leaf, where an operator or nothing stands behind
/// it.
pub proof fn lemma_literal_operand(tokens: Seq<SpecToken>, pos: int)
    requires
        0 <= pos < tokens.len(),
        tokens[pos] is Int || tokens[pos] is Float,
        token_at(tokens, pos + 1) is None || token_at(tokens, pos + 1)->0 is Operator,
    ensures
        unary(tokens, pos) == Ok::<Parsed, SpecError>(
            Parsed { node: Some(atom_node(tokens[pos])), length: 1 },
        ),
{
    let found = Parsed { node: Some(atom_node(tokens[pos])), length: 1 };
    assert(token_at(tokens, pos) == Some(tokens[pos]));
    assert(primary(tokens, pos) == Ok::<Parsed, SpecError>(found));
    assert(after(pos, 1) == pos + 1);
    assert(accesses(tokens, pos + 1, found.node, 1) == Ok::<Parsed, SpecError>(found));
    assert(accessed(tokens, pos) == Ok::<Parsed, SpecError>(found));
    assert(ranged(tokens, pos) == Ok::<Parsed, SpecError>(found));
}

/// The text of a division of two numbers as they are written.
pub open spec fn quotient_text(x: Seq<char>, y: Seq<char>) -> Seq<char> {
    x + seq![' ', '/', ' '] + y
}

/// The division of two numbers of which one at least is a `Float` is the
/// division of `Float`s, the other number being promoted: where one of two
/// decimal literals has a decimal point, their quotient is a `Float`, never
/// an `Int`, and it is the quotient that the float arithmetic gives for the
/// two numbers, in every context.
#[verifier::rlimit(50)]
pub proof fn law_float_division(x: Seq<char>, y: Seq<char>, context: Context)
    requires
        is_decimal_literal(x),
        is_decimal_literal(y),
        !all_digits(x) || !all_digits(y),
    ensures
        value_of_text(quotient_text(x, y), context) == Ok::<SpecValue, SpecError>(
            SpecValue::Float(
                float_quotient(
                    promoted(literal_value(x)) as u64,
                    promoted(literal_value(y)) as u64,
                ) as int,
            ),
        ),
{
    let nothing = Seq::<char>::empty();
    let slash = SpecToken::Operator(Operator::Slash);
    let tx = literal_token(x);
    let ty = literal_token(y);
    // Scanning.
    let behind_x = seq![' '] + (seq!['/'] + (seq![' '] + y));
    assert(quotient_text(x, y) =~= x + behind_x);
    assert(behind_x[0] == ' ');
    lemma_scan_literal(x, behind_x);
    lemma_scan_space(' ', seq!['/'] + (seq![' '] + y));
    lemma_scan_single('/', seq![' '] + y);
    lemma_scan_space(' ', y);
    assert(y + nothing =~= y);
    lemma_scan_literal(y, nothing);
    assert(scan(nothing) == Ok::<Seq<SpecToken>, ScanFailure>(Seq::empty()));
    assert(seq![ty] + Seq::<SpecToken>::empty() =~= seq![ty]);
    assert(seq![slash] + seq![ty] =~= seq![slash, ty]);
    assert(seq![tx] + seq![slash, ty] =~= seq![tx, slash, ty]);
    let tokens = seq![tx, slash, ty];
    assert(scan(quotient_text(x, y)) == Ok::<Seq<SpecToken>, ScanFailure>(tokens));
    // Building.
    assert(token_at(tokens, 1) == Some(slash));
    assert(token_at(tokens, 3) is None);
    lemma_literal_operand(tokens, 0);
    lemma_literal_operand(tokens, 2);
    let vx = literal_value(x);
    let vy = literal_value(y);
    let left = Parsed { node: Some(leaf(SpecKind::Const(vx))), length: 1 };
    let right = Parsed { node: Some(leaf(SpecKind::Const(vy))), length: 1 };
    assert(atom_node(tx) == leaf(SpecKind::Const(vx)));
    assert(atom_node(ty) == leaf(SpecKind::Const(vy)));
    assert(expression(tokens, 0, 5) == Ok::<Parsed, SpecError>(left));
    assert(expression(tokens, 2, 5) == Ok::<Parsed, SpecError>(right));
    let kind = SpecKind::Arithmetic(Arithmetic::Div);
    assert(binary_kind(slash, 4) == Some(kind));
    let node = SpecNode { kind, children: seq![left.node->0, right.node->0] };
    assert(binary_node(kind, left.node, right.node) == Ok::<SpecNode, SpecError>(node));
    let whole = Parsed { node: Some(node), length: 3 };
    assert(after(2, 1) == 3);
    assert(operations(tokens, 3, 4, Some(node), 3) == Ok::<Parsed, SpecError>(whole));
    assert(operations(tokens, 1, 4, left.node, 1) == Ok::<Parsed, SpecError>(whole));
    assert(after(0, 1) == 1);
    assert(expression(tokens, 0, 4) == Ok::<Parsed, SpecError>(whole));
    lemma_expression_lower(tokens, 0, 4, 0);
    assert(after(0, 3) == 3);
    assert(tree_of(tokens) == Ok::<SpecNode, SpecError>(node));
    // Evaluating.
    let none = Seq::<SpecValue>::empty();
    let first = node.children[0];
    let second = node.children[1];
    assert(arguments_of(first, context, 0) == Ok::<Seq<SpecValue>, SpecError>(none));
    assert(apply(first.kind, none, context) == Ok::<SpecValue, SpecError>(vx));
    assert(evaluation(first, context) == Ok::<SpecValue, SpecError>(vx));
    assert(arguments_of(second, context, 0) == Ok::<Seq<SpecValue>, SpecError>(none));
    assert(apply(second.kind, none, context) == Ok::<SpecValue, SpecError>(vy));
    assert(evaluation(second, context) == Ok::<SpecValue, SpecError>(vy));
    assert(arguments_of(node, context, 0) == Ok::<Seq<SpecValue>, SpecError>(none));
    let one = none.push(vx);
    assert(arguments_of(node, context, 1) == Ok::<Seq<SpecValue>, SpecError>(one));
    let both = one.push(vy);
    assert(arguments_of(node, context, 2) == Ok::<Seq<SpecValue>, SpecError>(both));
    assert(both[0] == vx && both[1] == vy);
    assert(vx is Float || vy is Float);
    assert(apply(node.kind, both, context) == arithmetic(Arithmetic::Div, vx, vy));
}

} // verus!
