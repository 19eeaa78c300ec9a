//! What scanning makes of texts that are put together from parts.

use crate::float::is_digit;
use crate::token::{
    continued, decimal_value, digits_end, float_lexeme, is_space, is_word_part, is_word_start,
    lemma_digits_end_bounds, lemma_lexeme_length, lemma_quote_position_bounds,
    lemma_word_end_bounds, lexeme, number, pair_symbol, quote_position, scan, single_symbol,
    string_literal, symbol, word, word_end, Lexeme, ScanFailure, SpecToken,
};
use vstd::prelude::*;

verus! {

/// A token in front of what scanning goes on to find.
pub open spec fn preceded(token: SpecToken, rest: Result<Seq<SpecToken>, ScanFailure>) -> Result<
    Seq<SpecToken>,
    ScanFailure,
> {
    continued(seq![token], rest)
}

/// Whitespace at the front of a text changes nothing.
pub proof fn lemma_scan_space(c: char, rest: Seq<char>)
    requires
        is_space(c),
    ensures
        scan(seq![c] + rest) == scan(rest),
{
    let s = seq![c] + rest;
    assert(s[0] == c);
    assert(s.skip(1) =~= rest);
}

/// A symbol of one character that starts no symbol of two is scanned by
/// itself.
pub proof fn lemma_scan_single(c: char, rest: Seq<char>)
    requires
        single_symbol(c) is Some,
        forall|d: char| pair_symbol(c, d) is None,
    ensures
        scan(seq![c] + rest) == preceded(single_symbol(c)->0, scan(rest)),
{
    let s = seq![c] + rest;
    assert(s[0] == c);
    assert(s.skip(1) =~= rest);
    if s.len() >= 2 {
        assert(pair_symbol(s[0], s[1]) is None);
    }
    assert(lexeme(s) == Ok::<Lexeme, ScanFailure>(Lexeme { token: single_symbol(c)->0, length: 1 }));
}

/// The run of digits at the front of a text ends where the digits end.
pub proof fn lemma_digits_end_of_run(s: Seq<char>, from: int, end: int)
    requires
        0 <= from <= end <= s.len(),
        forall|i: int| from <= i < end ==> is_digit(#[trigger] s[i]),
        end == s.len() || !is_digit(s[end]),
    ensures
        digits_end(s, from) == end,
    decreases end - from,
{
    if from < end {
        lemma_digits_end_of_run(s, from + 1, end);
    }
}

/// The word at the front of a text ends where its characters end.
pub proof fn lemma_word_end_of_run(s: Seq<char>, from: int, end: int)
    requires
        0 <= from <= end <= s.len(),
        forall|i: int| from <= i < end ==> is_word_part(#[trigger] s[i]),
        end == s.len() || !is_word_part(s[end]),
    ensures
        word_end(s, from) == end,
    decreases end - from,
{
    if from < end {
        lemma_word_end_of_run(s, from + 1, end);
    }
}

/// The next quote is found where it stands.
pub proof fn lemma_quote_position_found(s: Seq<char>, quote: char, from: int, end: int)
    requires
        0 <= from <= end <= s.len(),
        forall|i: int| from <= i < end ==> #[trigger] s[i] != quote,
        end == s.len() || s[end] == quote,
    ensures
        quote_position(s, quote, from) == end,
    decreases end - from,
{
    if from < end {
        lemma_quote_position_found(s, quote, from + 1, end);
    }
}

/// An integer literal is scanned as its number where the text ends behind
/// it, or goes on with something that is neither a digit nor a dot.
pub proof fn lemma_scan_integer(digits: Seq<char>, rest: Seq<char>)
    requires
        digits.len() > 0,
        forall|i: int| 0 <= i < digits.len() ==> is_digit(#[trigger] digits[i]),
        decimal_value(digits) <= i64::MAX,
        rest.len() == 0 || (!is_digit(rest[0]) && rest[0] != '.'),
    ensures
        scan(digits + rest) == preceded(SpecToken::Int(decimal_value(digits)), scan(rest)),
{
    let s = digits + rest;
    let n = digits.len() as int;
    assert(s[0] == digits[0]);
    assert(is_digit(s[0]));
    assert forall|i: int| 0 <= i < n implies is_digit(#[trigger] s[i]) by {
        assert(s[i] == digits[i]);
    }
    if n < s.len() {
        assert(s[n] == rest[0]);
    }
    lemma_digits_end_of_run(s, 0, n);
    assert(s.subrange(0, n) =~= digits);
    assert(s.skip(n) =~= rest);
    assert(!(n + 1 < s.len() && s[n] == '.' && is_digit(s[n + 1])));
    assert(number(s) == (Lexeme { token: SpecToken::Int(decimal_value(digits)), length: n }));
    assert(lexeme(s) == Ok::<Lexeme, ScanFailure>(number(s)));
}

/// A word: a character that can start a name, and behind it characters
/// that can continue one.
pub open spec fn is_word(word: Seq<char>) -> bool {
    &&& word.len() > 0
    &&& is_word_start(word[0])
    &&& forall|i: int| 0 <= i < word.len() ==> is_word_part(#[trigger] word[i])
}

/// The token that a word is scanned as.
pub open spec fn word_token(text: Seq<char>) -> SpecToken {
    if text == seq!['t', 'r', 'u', 'e'] {
        SpecToken::Boolean(true)
    } else if text == seq!['f', 'a', 'l', 's', 'e'] {
        SpecToken::Boolean(false)
    } else {
        SpecToken::Identifier(text)
    }
}

/// A word is scanned as one token where the text ends behind it, or goes on
/// with a character that cannot stand in a word.
pub proof fn lemma_scan_word(text: Seq<char>, rest: Seq<char>)
    requires
        is_word(text),
        rest.len() == 0 || !is_word_part(rest[0]),
    ensures
        scan(text + rest) == preceded(word_token(text), scan(rest)),
{
    let s = text + rest;
    let n = text.len() as int;
    assert(s[0] == text[0]);
    assert forall|i: int| 0 <= i < n implies is_word_part(#[trigger] s[i]) by {
        assert(s[i] == text[i]);
    }
    if n < s.len() {
        assert(s[n] == rest[0]);
    }
    lemma_word_end_of_run(s, 0, n);
    assert(s.subrange(0, n) =~= text);
    assert(s.skip(n) =~= rest);
    assert(word(s) == (Lexeme { token: word_token(text), length: n }));
    assert(lexeme(s) == Ok::<Lexeme, ScanFailure>(word(s)));
}


/// A `)` behind a text does not change the token at the text's front.
pub proof fn lemma_lexeme_before_close(s: Seq<char>)
    requires
        s.len() > 0,
        lexeme(s) is Ok,
    ensures
        lexeme(s + seq![')']) == lexeme(s),
{
    let t = s + seq![')'];
    let len = s.len() as int;
    assert(t.len() == len + 1);
    assert(t[len] == ')');
    assert forall|i: int| 0 <= i < len implies t[i] == s[i] by {}
    let c = s[0];
    if is_digit(c) {
        lemma_digits_end_bounds(s, 0);
        let whole = digits_end(s, 0);
        assert forall|i: int| 0 <= i < whole implies is_digit(#[trigger] t[i]) by {
            assert(t[i] == s[i]);
        }
        lemma_digits_end_of_run(t, 0, whole);
        assert(t.subrange(0, whole) =~= s.subrange(0, whole));
        if whole + 1 < s.len() && s[whole] == '.' && is_digit(s[whole + 1]) {
            lemma_digits_end_bounds(s, whole + 1);
            let end = digits_end(s, whole + 1);
            assert forall|i: int| whole + 1 <= i < end implies is_digit(#[trigger] t[i]) by {
                assert(t[i] == s[i]);
            }
            lemma_digits_end_of_run(t, whole + 1, end);
            assert(t.subrange(0, end) =~= s.subrange(0, end));
            assert(float_lexeme(t, end) == float_lexeme(s, end));
        } else {
            if whole + 1 < t.len() && t[whole] == '.' {
                assert(whole + 1 <= len);
                if whole + 1 == len {
                    assert(t[whole + 1] == ')');
                } else {
                    assert(t[whole + 1] == s[whole + 1]);
                }
            }
            assert(!(whole + 1 < t.len() && t[whole] == '.' && is_digit(t[whole + 1])));
            if !(decimal_value(s.subrange(0, whole)) <= i64::MAX) {
                assert(float_lexeme(t, whole) == float_lexeme(s, whole));
            }
        }
        assert(number(t) == number(s));
    } else if is_word_start(c) {
        lemma_word_end_bounds(s, 0);
        let end = word_end(s, 0);
        assert forall|i: int| 0 <= i < end implies is_word_part(#[trigger] t[i]) by {
            assert(t[i] == s[i]);
        }
        lemma_word_end_of_run(t, 0, end);
        assert(t.subrange(0, end) =~= s.subrange(0, end));
        assert(word(t) == word(s));
    } else if c == '"' || c == '\'' {
        lemma_quote_position_bounds(s, c, 1);
        let close = quote_position(s, c, 1);
        assert(close < s.len());
        assert forall|i: int| 1 <= i < close implies #[trigger] t[i] != c by {
            assert(t[i] == s[i]);
        }
        lemma_quote_position_found(t, c, 1, close);
        assert(t.subrange(1, close) =~= s.subrange(1, close));
        assert(string_literal(t) == string_literal(s));
    } else {
        if s.len() >= 2 {
            assert(t[1] == s[1]);
        } else {
            assert(t[1] == ')');
            assert(pair_symbol(t[0], t[1]) is None);
        }
        assert(symbol(t) == symbol(s));
    }
}

/// A `)` behind a text is one more token behind the text's tokens.
pub proof fn lemma_scan_before_close(s: Seq<char>)
    requires
        scan(s) is Ok,
    ensures
        scan(s + seq![')']) == Ok::<Seq<SpecToken>, ScanFailure>(
            scan(s)->Ok_0.push(SpecToken::CloseParen),
        ),
    decreases s.len(),
{
    let t = s + seq![')'];
    if s.len() == 0 {
        assert(t =~= seq![')'] + Seq::<char>::empty());
        lemma_scan_single(')', Seq::empty());
        assert(seq![SpecToken::CloseParen] + Seq::<SpecToken>::empty() =~= Seq::<SpecToken>::empty().push(
            SpecToken::CloseParen,
        ));
    } else if is_space(s[0]) {
        assert(t[0] == s[0]);
        assert(t.skip(1) =~= s.skip(1) + seq![')']);
        lemma_scan_before_close(s.skip(1));
    } else {
        assert(t[0] == s[0]);
        lemma_lexeme_length(s);
        lemma_lexeme_before_close(s);
        let found = lexeme(s)->Ok_0;
        assert(t.skip(found.length) =~= s.skip(found.length) + seq![')']);
        lemma_scan_before_close(s.skip(found.length));
        let rest = scan(s.skip(found.length))->Ok_0;
        assert(seq![found.token] + rest.push(SpecToken::CloseParen) =~= (seq![found.token]
            + rest).push(SpecToken::CloseParen));
    }
}

/// A text in parentheses has the tokens of the text, in parentheses.
pub proof fn lemma_scan_in_parentheses(s: Seq<char>)
    requires
        scan(s) is Ok,
    ensures
        scan(seq!['('] + s + seq![')']) == Ok::<Seq<SpecToken>, ScanFailure>(
            seq![SpecToken::OpenParen] + scan(s)->Ok_0 + seq![SpecToken::CloseParen],
        ),
{
    lemma_scan_before_close(s);
    lemma_scan_single('(', s + seq![')']);
    assert(seq!['('] + s + seq![')'] =~= seq!['('] + (s + seq![')']));
    assert(seq![SpecToken::OpenParen] + scan(s)->Ok_0.push(SpecToken::CloseParen) =~= seq![
        SpecToken::OpenParen,
    ] + scan(s)->Ok_0 + seq![SpecToken::CloseParen]);
}

} // verus!
