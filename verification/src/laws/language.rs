//! Laws of whole expressions.

use crate::builder::{
    accessed, accesses, after, arguments, atom_node, binary_kind, binary_node, call_kind,
    expression, is_atom, leaf, operations, primary, ranged, token_at, tree_of,
    unary, Parsed, ParsedList,
};
use crate::configuration::Context;
use crate::error::SpecError;
use crate::float::is_digit;
use crate::laws::building::{
    lemma_expression_lower, lemma_operand_is_expression, lemma_tree_in_parentheses,
};
use crate::laws::scanning::{
    is_word, lemma_scan_in_parentheses, lemma_scan_integer, lemma_scan_single, lemma_scan_space,
    lemma_scan_word, word_token,
};
use crate::operator::{
    arithmetic, integer_arithmetic, modulus, negated, truncated_quotient, wrapped, Arithmetic,
};
use crate::token::{
    continued, decimal_value, digit_value, scan, tokens_of, Operator, ScanFailure, SpecToken,
};
use crate::tree::{apply, arguments_of, evaluation, SpecKind, SpecNode};
use crate::value::SpecValue;
use crate::{tree_of_text, value_of_text};
use vstd::prelude::*;

verus! {

/// A text in parentheses.
pub open spec fn in_parentheses(text: Seq<char>) -> Seq<char> {
    seq!['('] + text + seq![')']
}

/// Parentheses around a whole expression change nothing: an expression that
/// has a tree has the same tree in parentheses, and so the same value in
/// every context.
pub proof fn law_parentheses(text: Seq<char>, context: Context)
    requires
        tree_of_text(text) is Ok,
    ensures
        tree_of_text(in_parentheses(text)) == tree_of_text(text),
        value_of_text(in_parentheses(text), context) == value_of_text(text, context),
{
    assert(scan(text) is Ok);
    lemma_scan_in_parentheses(text);
    lemma_tree_in_parentheses(scan(text)->Ok_0);
}

/// `count` minus signs.
pub open spec fn minus_signs(count: nat) -> Seq<char> {
    Seq::new(count, |i: int| '-')
}

/// `count` tokens `-`.
pub open spec fn minus_tokens(count: nat) -> Seq<SpecToken> {
    Seq::new(count, |i: int| SpecToken::Operator(Operator::Minus))
}

/// The literal `3` under `count` unary minus signs.
pub open spec fn negations(count: nat) -> SpecNode
    decreases count,
{
    if count == 0 {
        leaf(SpecKind::Const(SpecValue::Int(3)))
    } else {
        SpecNode { kind: SpecKind::Neg, children: seq![negations((count - 1) as nat)] }
    }
}

/// Minus signs in front of a text are as many tokens in front of the
/// text's tokens.
pub proof fn lemma_scan_minus_signs(count: nat, rest: Seq<char>)
    ensures
        scan(minus_signs(count) + rest) == continued(minus_tokens(count), scan(rest)),
    decreases count,
{
    if count == 0 {
        assert(minus_signs(count) + rest =~= rest);
        match scan(rest) {
            Ok(tokens) => {
                assert(minus_tokens(count) + tokens =~= tokens);
            },
            Err(_) => {},
        }
    } else {
        let fewer = (count - 1) as nat;
        assert(minus_signs(count) + rest =~= seq!['-'] + (minus_signs(fewer) + rest));
        lemma_scan_single('-', minus_signs(fewer) + rest);
        lemma_scan_minus_signs(fewer, rest);
        match scan(rest) {
            Ok(tokens) => {
                assert(seq![SpecToken::Operator(Operator::Minus)] + (minus_tokens(fewer) + tokens)
                    =~= minus_tokens(count) + tokens);
            },
            Err(_) => {},
        }
    }
}

/// A chain of minus signs before the literal `3` builds as many negations.
pub proof fn lemma_unary_chain(count: nat, pos: int)
    requires
        0 <= pos <= count,
    ensures
        unary(minus_tokens(count).push(SpecToken::Int(3)), pos) == Ok::<Parsed, SpecError>(
            Parsed { node: Some(negations((count - pos) as nat)), length: count - pos + 1 },
        ),
    decreases count - pos,
{
    let tokens = minus_tokens(count).push(SpecToken::Int(3));
    if pos == count {
        assert(token_at(tokens, pos) == Some(SpecToken::Int(3)));
        assert(token_at(tokens, pos + 1) is None);
        let found = Parsed { node: Some(negations(0)), length: 1 };
        assert(atom_node(SpecToken::Int(3)) == negations(0));
        assert(primary(tokens, pos) == Ok::<Parsed, SpecError>(found));
        assert(after(pos, 1) == pos + 1);
        assert(accesses(tokens, pos + 1, found.node, 1) == Ok::<Parsed, SpecError>(found));
        assert(accessed(tokens, pos) == Ok::<Parsed, SpecError>(found));
        assert(ranged(tokens, pos) == Ok::<Parsed, SpecError>(found));
        assert(unary(tokens, pos) == Ok::<Parsed, SpecError>(found));
    } else {
        assert(token_at(tokens, pos) == Some(SpecToken::Operator(Operator::Minus)));
        lemma_unary_chain(count, pos + 1);
    }
}

/// The value of the literal `3` under `count` unary minus signs.
pub proof fn lemma_negations_value(count: nat, context: Context)
    ensures
        evaluation(negations(count), context) == Ok::<SpecValue, SpecError>(
            SpecValue::Int(
                if count % 2 == 0 {
                    3
                } else {
                    -3
                },
            ),
        ),
    decreases count,
{
    let node = negations(count);
    if count == 0 {
        assert(node.children.len() == 0);
        assert(arguments_of(node, context, 0) == Ok::<Seq<SpecValue>, SpecError>(Seq::empty()));
        assert(apply(node.kind, Seq::empty(), context) == Ok::<SpecValue, SpecError>(
            SpecValue::Int(3),
        ));
    } else {
        let fewer = (count - 1) as nat;
        lemma_negations_value(fewer, context);
        let inner = if fewer % 2 == 0 {
            3int
        } else {
            -3int
        };
        assert(node.children.len() == 1);
        assert(node.children[0] == negations(fewer));
        assert(arguments_of(node, context, 0) == Ok::<Seq<SpecValue>, SpecError>(Seq::empty()));
        let values = Seq::<SpecValue>::empty().push(SpecValue::Int(inner));
        assert(arguments_of(node, context, 1) == Ok::<Seq<SpecValue>, SpecError>(values));
        assert(values[0] == SpecValue::Int(inner));
        assert(wrapped(3) == 3 && wrapped(-3) == -3);
        assert(negated(values[0]) == Ok::<SpecValue, SpecError>(SpecValue::Int(-inner)));
        assert(apply(node.kind, values, context) == negated(values[0]));
    }
}

/// Unary minus signs in a chain apply one after the other: `3` under an
/// even number of them is `3`, under an odd number `-3`, in every context.
pub proof fn law_unary_chain(count: nat, context: Context)
    ensures
        value_of_text(minus_signs(count) + seq!['3'], context) == Ok::<SpecValue, SpecError>(
            SpecValue::Int(
                if count % 2 == 0 {
                    3
                } else {
                    -3
                },
            ),
        ),
{
    let digits = seq!['3'];
    assert(digits.drop_last() =~= Seq::<char>::empty());
    assert(decimal_value(digits.drop_last()) == 0);
    assert(digit_value('3') == 3);
    assert(decimal_value(digits) == 3);
    assert(digits + Seq::<char>::empty() =~= digits);
    lemma_scan_integer(digits, Seq::empty());
    assert(scan(Seq::<char>::empty()) == Ok::<Seq<SpecToken>, ScanFailure>(Seq::empty()));
    assert(seq![SpecToken::Int(3)] + Seq::<SpecToken>::empty() =~= seq![SpecToken::Int(3)]);
    lemma_scan_minus_signs(count, digits);
    let tokens = minus_tokens(count).push(SpecToken::Int(3));
    assert(minus_tokens(count) + seq![SpecToken::Int(3)] =~= tokens);
    assert(tokens_of(minus_signs(count) + digits) == Ok::<Seq<SpecToken>, SpecError>(tokens));
    lemma_unary_chain(count, 0);
    assert(token_at(tokens, count as int + 1) is None);
    lemma_operand_is_expression(tokens, 0, 0);
    assert(after(0, count as int + 1) == count + 1);
    assert(tree_of(tokens) == Ok::<SpecNode, SpecError>(negations(count)));
    lemma_negations_value(count, context);
}


/// A name applied to a word that follows it directly.
pub open spec fn juxtaposed(function: Seq<char>, argument: Seq<char>) -> Seq<char> {
    function + seq![' '] + argument
}

/// A name applied to a word in parentheses.
pub open spec fn called(function: Seq<char>, argument: Seq<char>) -> Seq<char> {
    function + seq!['('] + argument + seq![')']
}

/// What a name applied to a word builds, in either way of writing it.
pub open spec fn application(name: Seq<char>, argument: SpecToken) -> SpecNode {
    SpecNode { kind: call_kind(name), children: seq![atom_node(argument)] }
}

/// The tree of a name and a word behind it.
pub proof fn lemma_tree_juxtaposed(name: Seq<char>, argument: SpecToken)
    requires
        argument is Identifier || argument is Boolean,
    ensures
        tree_of(seq![SpecToken::Identifier(name), argument]) == Ok::<SpecNode, SpecError>(
            application(name, argument),
        ),
{
    let tokens = seq![SpecToken::Identifier(name), argument];
    assert(token_at(tokens, 0) == Some(SpecToken::Identifier(name)));
    assert(token_at(tokens, 1) == Some(argument));
    assert(token_at(tokens, 2) is None);
    assert(is_atom(argument));
    let found = Parsed { node: Some(application(name, argument)), length: 2 };
    assert(primary(tokens, 0) == Ok::<Parsed, SpecError>(found));
    assert(after(0, 2) == 2);
    assert(accesses(tokens, 2, found.node, 2) == Ok::<Parsed, SpecError>(found));
    assert(accessed(tokens, 0) == Ok::<Parsed, SpecError>(found));
    assert(ranged(tokens, 0) == Ok::<Parsed, SpecError>(found));
    assert(unary(tokens, 0) == Ok::<Parsed, SpecError>(found));
    lemma_operand_is_expression(tokens, 0, 0);
}

/// The tree of a name and a word in parentheses behind it.
#[verifier::rlimit(50)]
pub proof fn lemma_tree_called(name: Seq<char>, argument: SpecToken)
    requires
        argument is Identifier || argument is Boolean,
    ensures
        tree_of(
            seq![
                SpecToken::Identifier(name),
                SpecToken::OpenParen,
                argument,
                SpecToken::CloseParen,
            ],
        ) == Ok::<SpecNode, SpecError>(application(name, argument)),
{
    let tokens = seq![
        SpecToken::Identifier(name),
        SpecToken::OpenParen,
        argument,
        SpecToken::CloseParen,
    ];
    assert(token_at(tokens, 0) == Some(SpecToken::Identifier(name)));
    assert(token_at(tokens, 1) == Some(SpecToken::OpenParen));
    assert(token_at(tokens, 2) == Some(argument));
    assert(token_at(tokens, 3) == Some(SpecToken::CloseParen));
    assert(token_at(tokens, 4) is None);
    assert(is_atom(argument));
    let inside = Parsed { node: Some(atom_node(argument)), length: 1 };
    assert(primary(tokens, 2) == Ok::<Parsed, SpecError>(inside));
    assert(after(2, 1) == 3);
    assert(accesses(tokens, 3, inside.node, 1) == Ok::<Parsed, SpecError>(inside));
    assert(accessed(tokens, 2) == Ok::<Parsed, SpecError>(inside));
    assert(ranged(tokens, 2) == Ok::<Parsed, SpecError>(inside));
    assert(unary(tokens, 2) == Ok::<Parsed, SpecError>(inside));
    lemma_operand_is_expression(tokens, 2, 0);
    let children = Seq::<SpecNode>::empty().push(atom_node(argument));
    assert(children =~= seq![atom_node(argument)]);
    assert(arguments(tokens, 2, Seq::empty(), 2) == Ok::<ParsedList, SpecError>(
        ParsedList { nodes: children, length: 4 },
    ));
    let found = Parsed { node: Some(application(name, argument)), length: 4 };
    assert(primary(tokens, 0) == Ok::<Parsed, SpecError>(found));
    assert(after(0, 4) == 4);
    assert(accesses(tokens, 4, found.node, 4) == Ok::<Parsed, SpecError>(found));
    assert(accessed(tokens, 0) == Ok::<Parsed, SpecError>(found));
    assert(ranged(tokens, 0) == Ok::<Parsed, SpecError>(found));
    assert(unary(tokens, 0) == Ok::<Parsed, SpecError>(found));
    lemma_operand_is_expression(tokens, 0, 0);
}

/// A name applied to a word means the same whether the word follows the
/// name directly or stands in parentheses behind it: both texts have the
/// same tree, the application of the name to the word, and so the same value
/// in every context. A name is a word other than `true` and `false`.
#[verifier::rlimit(50)]
pub proof fn law_juxtaposition(function: Seq<char>, argument: Seq<char>, context: Context)
    requires
        is_word(function),
        word_token(function) is Identifier,
        is_word(argument),
    ensures
        tree_of_text(juxtaposed(function, argument)) == Ok::<SpecNode, SpecError>(
            application(function, word_token(argument)),
        ),
        tree_of_text(juxtaposed(function, argument)) == tree_of_text(called(function, argument)),
        value_of_text(juxtaposed(function, argument), context) == value_of_text(
            called(function, argument),
            context,
        ),
{
    let f = word_token(function);
    let x = word_token(argument);
    assert(f == SpecToken::Identifier(function));
    let nothing = Seq::<char>::empty();
    assert(scan(nothing) == Ok::<Seq<SpecToken>, ScanFailure>(Seq::empty()));
    // The word directly behind the name.
    assert(juxtaposed(function, argument) =~= function + (seq![' '] + argument));
    assert((seq![' '] + argument)[0] == ' ');
    lemma_scan_word(function, seq![' '] + argument);
    lemma_scan_space(' ', argument);
    assert(argument + nothing =~= argument);
    lemma_scan_word(argument, nothing);
    assert(seq![x] + Seq::<SpecToken>::empty() =~= seq![x]);
    assert(seq![f] + seq![x] =~= seq![f, x]);
    assert(scan(juxtaposed(function, argument)) == Ok::<Seq<SpecToken>, ScanFailure>(seq![f, x]));
    // The word in parentheses.
    let close = seq![')'];
    assert(called(function, argument) =~= function + (seq!['('] + (argument + close)));
    assert((seq!['('] + (argument + close))[0] == '(');
    lemma_scan_word(function, seq!['('] + (argument + close));
    lemma_scan_single('(', argument + close);
    assert(close[0] == ')');
    lemma_scan_word(argument, close);
    assert(close =~= seq![')'] + nothing);
    lemma_scan_single(')', nothing);
    assert(seq![SpecToken::CloseParen] + Seq::<SpecToken>::empty() =~= seq![SpecToken::CloseParen]);
    assert(seq![x] + seq![SpecToken::CloseParen] =~= seq![x, SpecToken::CloseParen]);
    assert(seq![SpecToken::OpenParen] + seq![x, SpecToken::CloseParen] =~= seq![
        SpecToken::OpenParen,
        x,
        SpecToken::CloseParen,
    ]);
    assert(seq![f] + seq![SpecToken::OpenParen, x, SpecToken::CloseParen] =~= seq![
        f,
        SpecToken::OpenParen,
        x,
        SpecToken::CloseParen,
    ]);
    assert(scan(called(function, argument)) == Ok::<Seq<SpecToken>, ScanFailure>(
        seq![f, SpecToken::OpenParen, x, SpecToken::CloseParen],
    ));
    lemma_tree_juxtaposed(function, x);
    lemma_tree_called(function, x);
}

/// The character that writes a digit.
pub open spec fn digit_char(digit: int) -> char {
    if digit == 0 {
        '0'
    } else if digit == 1 {
        '1'
    } else if digit == 2 {
        '2'
    } else if digit == 3 {
        '3'
    } else if digit == 4 {
        '4'
    } else if digit == 5 {
        '5'
    } else if digit == 6 {
        '6'
    } else if digit == 7 {
        '7'
    } else if digit == 8 {
        '8'
    } else {
        '9'
    }
}

/// The digits that write a number that is not negative, in base ten and
/// without leading zeros.
pub open spec fn digits_of(n: int) -> Seq<char>
    decreases n,
{
    if n < 10 {
        seq![digit_char(n)]
    } else {
        digits_of(n / 10).push(digit_char(n % 10))
    }
}

/// An integer as it is written: its digits, behind a minus sign where it is
/// negative.
pub open spec fn decimal(n: int) -> Seq<char> {
    if n < 0 {
        seq!['-'] + digits_of(-n)
    } else {
        digits_of(n)
    }
}

/// The tokens of an integer as it is written.
pub open spec fn signed_tokens(n: int) -> Seq<SpecToken> {
    if n < 0 {
        seq![SpecToken::Operator(Operator::Minus), SpecToken::Int(-n)]
    } else {
        seq![SpecToken::Int(n)]
    }
}

/// The tree of an integer as it is written.
pub open spec fn signed_node(n: int) -> SpecNode {
    if n < 0 {
        SpecNode { kind: SpecKind::Neg, children: seq![leaf(SpecKind::Const(SpecValue::Int(-n)))] }
    } else {
        leaf(SpecKind::Const(SpecValue::Int(n)))
    }
}

/// The digits that write a number write that number.
pub proof fn lemma_digits_of(n: int)
    requires
        0 <= n,
    ensures
        digits_of(n).len() > 0,
        forall|i: int| 0 <= i < digits_of(n).len() ==> is_digit(#[trigger] digits_of(n)[i]),
        decimal_value(digits_of(n)) == n,
    decreases n,
{
    if n < 10 {
        let digits = seq![digit_char(n)];
        assert(digits.drop_last() =~= Seq::<char>::empty());
        assert(decimal_value(digits.drop_last()) == 0);
        assert(digit_value(digit_char(n)) == n);
        assert(digits.last() == digit_char(n));
    } else {
        lemma_digits_of(n / 10);
        let front = digits_of(n / 10);
        let digits = front.push(digit_char(n % 10));
        assert(digits.drop_last() =~= front);
        assert(digits.last() == digit_char(n % 10));
        assert(digit_value(digit_char(n % 10)) == n % 10);
        assert forall|i: int| 0 <= i < digits.len() implies is_digit(#[trigger] digits[i]) by {
            if i < front.len() {
                assert(digits[i] == front[i]);
            }
        }
    }
}

/// A number that 64 bits hold is not changed by wrapping to 64 bits.
pub proof fn lemma_wrapped_in_range(x: int)
    requires
        i64::MIN <= x <= i64::MAX,
    ensures
        wrapped(x) == x,
{
    if x >= 0 {
        assert(x % modulus() == x);
    } else {
        assert(x % modulus() == x + modulus());
    }
}

/// The quotient that rounds toward zero is no larger in size than the
/// dividend.
pub proof fn lemma_truncated_quotient_bound(x: int, d: int)
    requires
        d != 0,
    ensures
        x >= 0 ==> -x <= truncated_quotient(x, d) <= x,
        x < 0 ==> x <= truncated_quotient(x, d) <= -x,
{
    let size_x = if x < 0 {
        -x
    } else {
        x
    };
    let size_d = if d < 0 {
        -d
    } else {
        d
    };
    assert(0 <= size_x / size_d <= size_x) by (nonlinear_arith)
        requires
            size_x >= 0,
            size_d > 0,
    ;
}

/// An integer as it is written is scanned as its tokens where the text ends
/// behind it, or goes on with something that is neither a digit nor a dot.
pub proof fn lemma_scan_decimal(n: int, rest: Seq<char>)
    requires
        -i64::MAX <= n <= i64::MAX,
        rest.len() == 0 || (!is_digit(rest[0]) && rest[0] != '.'),
    ensures
        scan(decimal(n) + rest) == continued(signed_tokens(n), scan(rest)),
{
    if n < 0 {
        lemma_digits_of(-n);
        assert(decimal(n) + rest =~= seq!['-'] + (digits_of(-n) + rest));
        lemma_scan_single('-', digits_of(-n) + rest);
        lemma_scan_integer(digits_of(-n), rest);
        match scan(rest) {
            Ok(tokens) => {
                assert(seq![SpecToken::Operator(Operator::Minus)] + (seq![SpecToken::Int(-n)]
                    + tokens) =~= signed_tokens(n) + tokens);
            },
            Err(_) => {},
        }
    } else {
        lemma_digits_of(n);
        lemma_scan_integer(digits_of(n), rest);
    }
}

/// An integer as it is written builds its tree, where an operator or
/// nothing stands behind it.
pub proof fn lemma_signed_operand(tokens: Seq<SpecToken>, pos: int, n: int)
    requires
        0 <= pos,
        pos + signed_tokens(n).len() <= tokens.len(),
        forall|i: int|
            0 <= i < signed_tokens(n).len() ==> tokens[pos + i] == #[trigger] signed_tokens(n)[i],
        token_at(tokens, pos + signed_tokens(n).len()) is None || token_at(
            tokens,
            pos + signed_tokens(n).len(),
        )->0 is Operator,
    ensures
        unary(tokens, pos) == Ok::<Parsed, SpecError>(
            Parsed { node: Some(signed_node(n)), length: signed_tokens(n).len() as int },
        ),
{
    let written = signed_tokens(n);
    let size = if n < 0 {
        -n
    } else {
        n
    };
    let start = if n < 0 {
        pos + 1
    } else {
        pos
    };
    assert(tokens[start] == SpecToken::Int(size)) by {
        if n < 0 {
            assert(written[1] == SpecToken::Int(size));
            assert(tokens[pos + 1] == written[1]);
        } else {
            assert(written[0] == SpecToken::Int(size));
            assert(tokens[pos + 0] == written[0]);
        }
    }
    assert(token_at(tokens, start) == Some(SpecToken::Int(size)));
    let found = Parsed { node: Some(leaf(SpecKind::Const(SpecValue::Int(size)))), length: 1 };
    assert(atom_node(SpecToken::Int(size)) == leaf(SpecKind::Const(SpecValue::Int(size))));
    assert(primary(tokens, start) == Ok::<Parsed, SpecError>(found));
    assert(after(start, 1) == start + 1);
    assert(start + 1 == pos + written.len());
    assert(accesses(tokens, start + 1, found.node, 1) == Ok::<Parsed, SpecError>(found));
    assert(accessed(tokens, start) == Ok::<Parsed, SpecError>(found));
    assert(ranged(tokens, start) == Ok::<Parsed, SpecError>(found));
    assert(unary(tokens, start) == Ok::<Parsed, SpecError>(found));
    if n < 0 {
        assert(written[0] == SpecToken::Operator(Operator::Minus));
        assert(tokens[pos + 0] == written[0]);
        assert(token_at(tokens, pos) == Some(SpecToken::Operator(Operator::Minus)));
    }
}

/// The value of an integer as it is written is that integer.
pub proof fn lemma_signed_value(n: int, context: Context)
    requires
        -i64::MAX <= n <= i64::MAX,
    ensures
        evaluation(signed_node(n), context) == Ok::<SpecValue, SpecError>(SpecValue::Int(n)),
{
    let node = signed_node(n);
    let nothing = Seq::<SpecValue>::empty();
    if n < 0 {
        let child = leaf(SpecKind::Const(SpecValue::Int(-n)));
        assert(arguments_of(child, context, 0) == Ok::<Seq<SpecValue>, SpecError>(nothing));
        assert(apply(child.kind, nothing, context) == Ok::<SpecValue, SpecError>(
            SpecValue::Int(-n),
        ));
        assert(evaluation(child, context) == Ok::<SpecValue, SpecError>(SpecValue::Int(-n)));
        assert(node.children[0] == child);
        assert(arguments_of(node, context, 0) == Ok::<Seq<SpecValue>, SpecError>(nothing));
        let values = nothing.push(SpecValue::Int(-n));
        assert(arguments_of(node, context, 1) == Ok::<Seq<SpecValue>, SpecError>(values));
        assert(values[0] == SpecValue::Int(-n));
        lemma_wrapped_in_range(n);
        assert(apply(node.kind, values, context) == negated(values[0]));
    } else {
        assert(arguments_of(node, context, 0) == Ok::<Seq<SpecValue>, SpecError>(nothing));
        assert(apply(node.kind, nothing, context) == Ok::<SpecValue, SpecError>(SpecValue::Int(n)));
    }
}

/// The text of a division of two integers as they are written.
pub open spec fn division_text(a: int, b: int) -> Seq<char> {
    decimal(a) + seq![' ', '/', ' '] + decimal(b)
}

/// The division of two integers is the integer division that rounds toward
/// zero: for every dividend and every divisor but zero that can be written
/// as integer literals, in every context.
#[verifier::rlimit(50)]
pub proof fn law_integer_division(a: int, b: int, context: Context)
    requires
        -i64::MAX <= a <= i64::MAX,
        -i64::MAX <= b <= i64::MAX,
        b != 0,
    ensures
        value_of_text(division_text(a, b), context) == Ok::<SpecValue, SpecError>(
            SpecValue::Int(truncated_quotient(a, b)),
        ),
{
    let nothing = Seq::<char>::empty();
    let slash = SpecToken::Operator(Operator::Slash);
    // Scanning.
    let behind_a = seq![' '] + (seq!['/'] + (seq![' '] + decimal(b)));
    assert(division_text(a, b) =~= decimal(a) + behind_a);
    assert(behind_a[0] == ' ');
    lemma_scan_decimal(a, behind_a);
    lemma_scan_space(' ', seq!['/'] + (seq![' '] + decimal(b)));
    lemma_scan_single('/', seq![' '] + decimal(b));
    lemma_scan_space(' ', decimal(b));
    assert(decimal(b) + nothing =~= decimal(b));
    lemma_scan_decimal(b, nothing);
    assert(scan(nothing) == Ok::<Seq<SpecToken>, ScanFailure>(Seq::empty()));
    assert(signed_tokens(b) + Seq::<SpecToken>::empty() =~= signed_tokens(b));
    let tokens = signed_tokens(a) + (seq![slash] + signed_tokens(b));
    assert(scan(division_text(a, b)) == Ok::<Seq<SpecToken>, ScanFailure>(tokens));
    // Building.
    let la = signed_tokens(a).len() as int;
    let lb = signed_tokens(b).len() as int;
    assert(tokens.len() == la + 1 + lb);
    assert forall|i: int| 0 <= i < la implies tokens[0 + i] == #[trigger] signed_tokens(a)[i] by {}
    assert(tokens[la] == slash);
    assert forall|i: int| 0 <= i < lb implies tokens[la + 1 + i] == #[trigger] signed_tokens(
        b,
    )[i] by {}
    assert(token_at(tokens, la) == Some(slash));
    assert(token_at(tokens, la + 1 + lb) is None);
    lemma_signed_operand(tokens, 0, a);
    lemma_signed_operand(tokens, la + 1, b);
    let left = Parsed { node: Some(signed_node(a)), length: la };
    let right = Parsed { node: Some(signed_node(b)), length: lb };
    assert(expression(tokens, 0, 5) == Ok::<Parsed, SpecError>(left));
    assert(expression(tokens, la + 1, 5) == Ok::<Parsed, SpecError>(right));
    let kind = SpecKind::Arithmetic(Arithmetic::Div);
    assert(binary_kind(slash, 4) == Some(kind));
    let node = SpecNode { kind, children: seq![signed_node(a), signed_node(b)] };
    assert(binary_node(kind, left.node, right.node) == Ok::<SpecNode, SpecError>(node));
    let whole = Parsed { node: Some(node), length: la + 1 + lb };
    assert(after(la + 1, lb) == la + 1 + lb);
    assert(operations(tokens, la + 1 + lb, 4, Some(node), la + 1 + lb) == Ok::<Parsed, SpecError>(
        whole,
    ));
    assert(operations(tokens, la, 4, left.node, la) == Ok::<Parsed, SpecError>(whole));
    assert(after(0, la) == la);
    assert(expression(tokens, 0, 4) == Ok::<Parsed, SpecError>(whole));
    lemma_expression_lower(tokens, 0, 4, 0);
    assert(after(0, la + 1 + lb) == la + 1 + lb);
    assert(tree_of(tokens) == Ok::<SpecNode, SpecError>(node));
    // Evaluating.
    lemma_signed_value(a, context);
    lemma_signed_value(b, context);
    let none = Seq::<SpecValue>::empty();
    assert(node.children[0] == signed_node(a));
    assert(node.children[1] == signed_node(b));
    assert(arguments_of(node, context, 0) == Ok::<Seq<SpecValue>, SpecError>(none));
    let one = none.push(SpecValue::Int(a));
    assert(arguments_of(node, context, 1) == Ok::<Seq<SpecValue>, SpecError>(one));
    let both = one.push(SpecValue::Int(b));
    assert(arguments_of(node, context, 2) == Ok::<Seq<SpecValue>, SpecError>(both));
    assert(both[0] == SpecValue::Int(a) && both[1] == SpecValue::Int(b));
    lemma_truncated_quotient_bound(a, b);
    lemma_wrapped_in_range(truncated_quotient(a, b));
    assert(integer_arithmetic(Arithmetic::Div, a, b) == Ok::<SpecValue, SpecError>(
        SpecValue::Int(truncated_quotient(a, b)),
    ));
    assert(arithmetic(Arithmetic::Div, both[0], both[1]) == integer_arithmetic(
        Arithmetic::Div,
        a,
        b,
    ));
    assert(apply(node.kind, both, context) == arithmetic(Arithmetic::Div, both[0], both[1]));
}

} // verus!
