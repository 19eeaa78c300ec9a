//! Scanning: from a text to its tokens.

use crate::error::{Error, SpecError};
use crate::float::{bits_of_text, float_of_text, is_decimal_literal, is_digit, Float};
use vstd::pervasive::unreached;
use vstd::prelude::*;
use vstd::std_specs::iter::IteratorSpec;
use vstd::string::StringExecFns;

verus! {

/// An operator symbol.
#[derive(Clone, Copy, Debug, PartialEq, Eq, Structural)]
pub enum Operator {
    /// `+`
    Plus,
    /// `-`
    Minus,
    /// `*`
    Star,
    /// `/`
    Slash,
    /// `%`
    Percent,
    /// `==`
    Eq,
    /// `!=`
    Neq,
    /// `<`
    Lt,
    /// `>`
    Gt,
    /// `<=`
    Leq,
    /// `>=`
    Geq,
    /// `&&`
    And,
    /// `||`
    Or,
    /// `!`
    Not,
}

/// The mathematical content of a [`Token`].
pub enum SpecToken {
    Int(int),
    Float(int),
    Boolean(bool),
    Str(Seq<char>),
    Identifier(Seq<char>),
    Operator(Operator),
    OpenParen,
    CloseParen,
    OpenBracket,
    CloseBracket,
    Comma,
    Dot,
    RangeDots,
}

/// One token of a text.
#[derive(Debug, PartialEq)]
pub enum Token {
    /// An integer literal.
    Int(i64),
    /// A literal with a decimal point, or an integer literal too large for
    /// 64 bits.
    Float(Float),
    /// `true` or `false`.
    Boolean(bool),
    /// A string literal, without its quotes.
    String(String),
    /// A name.
    Identifier(String),
    /// An operator symbol.
    Operator(Operator),
    /// `(`
    OpenParen,
    /// `)`
    CloseParen,
    /// `[`
    OpenBracket,
    /// `]`
    CloseBracket,
    /// `,`
    Comma,
    /// `.`
    Dot,
    /// `..`
    RangeDots,
}

impl View for Token {
    type V = SpecToken;

    open spec fn view(&self) -> SpecToken {
        match self {
            Token::Int(i) => SpecToken::Int(*i as int),
            Token::Float(x) => SpecToken::Float(x.bits as int),
            Token::Boolean(b) => SpecToken::Boolean(*b),
            Token::String(s) => SpecToken::Str(s@),
            Token::Identifier(s) => SpecToken::Identifier(s@),
            Token::Operator(o) => SpecToken::Operator(*o),
            Token::OpenParen => SpecToken::OpenParen,
            Token::CloseParen => SpecToken::CloseParen,
            Token::OpenBracket => SpecToken::OpenBracket,
            Token::CloseBracket => SpecToken::CloseBracket,
            Token::Comma => SpecToken::Comma,
            Token::Dot => SpecToken::Dot,
            Token::RangeDots => SpecToken::RangeDots,
        }
    }
}

impl Clone for Token {
    fn clone(&self) -> (r: Token)
        ensures
            r@ == self@,
    {
        match self {
            Token::Int(i) => Token::Int(*i),
            Token::Float(x) => Token::Float(*x),
            Token::Boolean(b) => Token::Boolean(*b),
            Token::String(s) => Token::String(s.clone()),
            Token::Identifier(s) => Token::Identifier(s.clone()),
            Token::Operator(o) => Token::Operator(*o),
            Token::OpenParen => Token::OpenParen,
            Token::CloseParen => Token::CloseParen,
            Token::OpenBracket => Token::OpenBracket,
            Token::CloseBracket => Token::CloseBracket,
            Token::Comma => Token::Comma,
            Token::Dot => Token::Dot,
            Token::RangeDots => Token::RangeDots,
        }
    }
}

/// The contents of a sequence of tokens.
pub open spec fn token_views(tokens: Seq<Token>) -> Seq<SpecToken> {
    Seq::new(tokens.len(), |i: int| tokens[i]@)
}

/// ASCII whitespace: space, tab, line feed, form feed, carriage return.
pub open spec fn is_space(c: char) -> bool {
    c == ' ' || c == '\t' || c == '\n' || c == '\x0C' || c == '\r'
}

/// An ASCII letter.
pub open spec fn is_letter(c: char) -> bool {
    ('a' <= c && c <= 'z') || ('A' <= c && c <= 'Z')
}

/// A character that can start a name: a letter or an underscore.
pub open spec fn is_word_start(c: char) -> bool {
    is_letter(c) || c == '_'
}

/// A character that can continue a name: a letter, a digit or an underscore.
pub open spec fn is_word_part(c: char) -> bool {
    is_word_start(c) || is_digit(c)
}

/// The first index at or after `from` that holds no digit; the length of
/// `s` if there is none.
pub open spec fn digits_end(s: Seq<char>, from: int) -> int
    decreases s.len() - from,
{
    if 0 <= from < s.len() && is_digit(s[from]) {
        digits_end(s, from + 1)
    } else {
        from
    }
}

/// The first index at or after `from` that holds no character of a name;
/// the length of `s` if there is none.
pub open spec fn word_end(s: Seq<char>, from: int) -> int
    decreases s.len() - from,
{
    if 0 <= from < s.len() && is_word_part(s[from]) {
        word_end(s, from + 1)
    } else {
        from
    }
}

/// The first index at or after `from` that holds `quote`; the length of `s`
/// if there is none.
pub open spec fn quote_position(s: Seq<char>, quote: char, from: int) -> int
    decreases s.len() - from,
{
    if 0 <= from < s.len() && s[from] != quote {
        quote_position(s, quote, from + 1)
    } else {
        from
    }
}

/// The number that a digit stands for.
pub open spec fn digit_value(c: char) -> int {
    c as int - '0' as int
}

/// The number that a sequence of digits writes in base ten.
pub open spec fn decimal_value(digits: Seq<char>) -> int
    decreases digits.len(),
{
    if digits.len() == 0 {
        0
    } else {
        decimal_value(digits.drop_last()) * 10 + digit_value(digits.last())
    }
}

/// A token at the front of a text, with the number of characters it takes.
pub struct Lexeme {
    pub token: SpecToken,
    pub length: int,
}

/// Why a text has no token at its front. `remaining` counts the characters
/// from the offending one to the end of the text.
pub enum ScanFailure {
    UnmatchedQuote,
    UnexpectedCharacter { character: char, remaining: int },
}

/// The token that two characters spell together, if any.
pub open spec fn pair_symbol(a: char, b: char) -> Option<SpecToken> {
    if a == '=' && b == '=' {
        Some(SpecToken::Operator(Operator::Eq))
    } else if a == '!' && b == '=' {
        Some(SpecToken::Operator(Operator::Neq))
    } else if a == '<' && b == '=' {
        Some(SpecToken::Operator(Operator::Leq))
    } else if a == '>' && b == '=' {
        Some(SpecToken::Operator(Operator::Geq))
    } else if a == '&' && b == '&' {
        Some(SpecToken::Operator(Operator::And))
    } else if a == '|' && b == '|' {
        Some(SpecToken::Operator(Operator::Or))
    } else if a == '.' && b == '.' {
        Some(SpecToken::RangeDots)
    } else {
        None
    }
}

/// The token that one character spells alone, if any.
pub open spec fn single_symbol(c: char) -> Option<SpecToken> {
    if c == '+' {
        Some(SpecToken::Operator(Operator::Plus))
    } else if c == '-' {
        Some(SpecToken::Operator(Operator::Minus))
    } else if c == '*' {
        Some(SpecToken::Operator(Operator::Star))
    } else if c == '/' {
        Some(SpecToken::Operator(Operator::Slash))
    } else if c == '%' {
        Some(SpecToken::Operator(Operator::Percent))
    } else if c == '<' {
        Some(SpecToken::Operator(Operator::Lt))
    } else if c == '>' {
        Some(SpecToken::Operator(Operator::Gt))
    } else if c == '!' {
        Some(SpecToken::Operator(Operator::Not))
    } else if c == '(' {
        Some(SpecToken::OpenParen)
    } else if c == ')' {
        Some(SpecToken::CloseParen)
    } else if c == '[' {
        Some(SpecToken::OpenBracket)
    } else if c == ']' {
        Some(SpecToken::CloseBracket)
    } else if c == ',' {
        Some(SpecToken::Comma)
    } else if c == '.' {
        Some(SpecToken::Dot)
    } else {
        None
    }
}

/// The symbol at the front of `s`: two characters where they spell one
/// together, else one.
pub open spec fn symbol(s: Seq<char>) -> Option<Lexeme>
    recommends
        s.len() > 0,
{
    if s.len() >= 2 && pair_symbol(s[0], s[1]) is Some {
        Some(Lexeme { token: pair_symbol(s[0], s[1])->0, length: 2 })
    } else if single_symbol(s[0]) is Some {
        Some(Lexeme { token: single_symbol(s[0])->0, length: 1 })
    } else {
        None
    }
}

/// The `Float` that the first `length` characters of `s` write.
pub open spec fn float_lexeme(s: Seq<char>, length: int) -> Lexeme {
    Lexeme { token: SpecToken::Float(float_of_text(s.subrange(0, length)) as int), length }
}

/// The numeric literal at the front of `s`, which starts with a digit: the
/// longest run of digits, together with a dot and the digits behind it where
/// a dot and a digit follow the run. With a dot it is a `Float`. Without one
/// it is an `Int`, unless the number does not fit 64 bits: then it is a
/// `Float` too.
pub open spec fn number(s: Seq<char>) -> Lexeme
    recommends
        s.len() > 0,
        is_digit(s[0]),
{
    let whole = digits_end(s, 0);
    if whole + 1 < s.len() && s[whole] == '.' && is_digit(s[whole + 1]) {
        float_lexeme(s, digits_end(s, whole + 1))
    } else {
        let value = decimal_value(s.subrange(0, whole));
        if value <= i64::MAX {
            Lexeme { token: SpecToken::Int(value), length: whole }
        } else {
            float_lexeme(s, whole)
        }
    }
}

/// The word at the front of `s`: `true` and `false` are truth values, every
/// other word is a name.
pub open spec fn word(s: Seq<char>) -> Lexeme
    recommends
        s.len() > 0,
        is_word_start(s[0]),
{
    let length = word_end(s, 0);
    let text = s.subrange(0, length);
    if text == seq!['t', 'r', 'u', 'e'] {
        Lexeme { token: SpecToken::Boolean(true), length }
    } else if text == seq!['f', 'a', 'l', 's', 'e'] {
        Lexeme { token: SpecToken::Boolean(false), length }
    } else {
        Lexeme { token: SpecToken::Identifier(text), length }
    }
}

/// The string literal at the front of `s`, which starts with a quote: the
/// characters up to the next quote of the same kind, taken as they are.
pub open spec fn string_literal(s: Seq<char>) -> Result<Lexeme, ScanFailure>
    recommends
        s.len() > 0,
{
    let close = quote_position(s, s[0], 1);
    if close < s.len() {
        Ok(Lexeme { token: SpecToken::Str(s.subrange(1, close)), length: close + 1 })
    } else {
        Err(ScanFailure::UnmatchedQuote)
    }
}

/// The token at the front of `s`, which starts with a character that is no
/// whitespace.
pub open spec fn lexeme(s: Seq<char>) -> Result<Lexeme, ScanFailure>
    recommends
        s.len() > 0,
{
    let c = s[0];
    if is_digit(c) {
        Ok(number(s))
    } else if is_word_start(c) {
        Ok(word(s))
    } else if c == '"' || c == '\'' {
        string_literal(s)
    } else {
        match symbol(s) {
            Some(found) => Ok(found),
            None => Err(ScanFailure::UnexpectedCharacter { character: c, remaining: s.len() as int }),
        }
    }
}

/// A run of digits ends at or after its start and within the text.
pub proof fn lemma_digits_end_bounds(s: Seq<char>, from: int)
    requires
        0 <= from <= s.len(),
    ensures
        from <= digits_end(s, from) <= s.len(),
        forall|i: int| from <= i < digits_end(s, from) ==> is_digit(#[trigger] s[i]),
        digits_end(s, from) < s.len() ==> !is_digit(s[digits_end(s, from)]),
    decreases s.len() - from,
{
    if from < s.len() && is_digit(s[from]) {
        lemma_digits_end_bounds(s, from + 1);
    }
}

/// A word ends at or after its start and within the text.
pub proof fn lemma_word_end_bounds(s: Seq<char>, from: int)
    requires
        0 <= from <= s.len(),
    ensures
        from <= word_end(s, from) <= s.len(),
        forall|i: int| from <= i < word_end(s, from) ==> is_word_part(#[trigger] s[i]),
        word_end(s, from) < s.len() ==> !is_word_part(s[word_end(s, from)]),
    decreases s.len() - from,
{
    if from < s.len() && is_word_part(s[from]) {
        lemma_word_end_bounds(s, from + 1);
    }
}

/// The next quote stands at or after the start of the search, and no
/// character before it is that quote.
pub proof fn lemma_quote_position_bounds(s: Seq<char>, quote: char, from: int)
    requires
        0 <= from <= s.len(),
    ensures
        from <= quote_position(s, quote, from) <= s.len(),
        forall|i: int| from <= i < quote_position(s, quote, from) ==> #[trigger] s[i] != quote,
        quote_position(s, quote, from) < s.len() ==> s[quote_position(s, quote, from)] == quote,
    decreases s.len() - from,
{
    if from < s.len() && s[from] != quote {
        lemma_quote_position_bounds(s, quote, from + 1);
    }
}

/// A token takes at least one character and no more than the text has.
pub proof fn lemma_lexeme_length(s: Seq<char>)
    requires
        s.len() > 0,
    ensures
        lexeme(s) is Ok ==> 1 <= lexeme(s)->Ok_0.length <= s.len(),
{
    lemma_digits_end_bounds(s, 0);
    let whole = digits_end(s, 0);
    if whole + 1 < s.len() {
        lemma_digits_end_bounds(s, whole + 1);
    }
    lemma_word_end_bounds(s, 0);
    lemma_quote_position_bounds(s, s[0], 1);
}

/// The tokens of a text: whitespace between tokens is skipped, and each
/// token is the longest that can start where it starts.
pub open spec fn scan(s: Seq<char>) -> Result<Seq<SpecToken>, ScanFailure>
    decreases s.len(),
{
    if s.len() == 0 {
        Ok(Seq::empty())
    } else if is_space(s[0]) {
        scan(s.skip(1))
    } else {
        match lexeme(s) {
            Err(failure) => Err(failure),
            Ok(found) => {
                proof {
                    lemma_lexeme_length(s);
                }
                match scan(s.skip(found.length)) {
                    Err(failure) => Err(failure),
                    Ok(rest) => Ok(seq![found.token] + rest),
                }
            },
        }
    }
}

/// The tokens of a text, or the first failure with its place in the text.
pub open spec fn tokens_of(text: Seq<char>) -> Result<Seq<SpecToken>, SpecError> {
    match scan(text) {
        Ok(tokens) => Ok(tokens),
        Err(ScanFailure::UnmatchedQuote) => Err(SpecError::UnmatchedQuote),
        Err(ScanFailure::UnexpectedCharacter { character, remaining }) => Err(
            SpecError::UnexpectedCharacter { character, position: text.len() - remaining },
        ),
    }
}

/// The characters of a text, in order.
pub fn characters(text: &str) -> (chars: Vec<char>)
    ensures
        chars@ == text@,
{
    broadcast use vstd::string::group_string_axioms;

    let mut chars: Vec<char> = Vec::new();
    let mut rest = text.chars();
    loop
        invariant
            chars@ + rest.remaining() == text@,
        decreases text@.len() - chars@.len(),
    {
        let ghost before = rest.remaining();
        match rest.next() {
            Some(c) => {
                chars.push(c);
                assert(chars@ + rest.remaining() =~= text@) by {
                    assert(before =~= seq![c] + before.drop_first());
                }
            },
            None => {
                assert(chars@ =~= text@);
                return chars;
            },
        }
    }
}


/// The failure with its place in a text of `total` characters.
pub open spec fn located(failure: ScanFailure, total: int) -> SpecError {
    match failure {
        ScanFailure::UnmatchedQuote => SpecError::UnmatchedQuote,
        ScanFailure::UnexpectedCharacter { character, remaining } => SpecError::UnexpectedCharacter {
            character,
            position: total - remaining,
        },
    }
}

/// The tokens found so far, followed by what scanning the rest gives.
pub open spec fn continued(found: Seq<SpecToken>, rest: Result<Seq<SpecToken>, ScanFailure>) -> Result<
    Seq<SpecToken>,
    ScanFailure,
> {
    match rest {
        Ok(more) => Ok(found + more),
        Err(failure) => Err(failure),
    }
}

/// The content of what [`tokenize`] returns.
pub open spec fn scanned_view(r: Result<Vec<Token>, Error>) -> Result<Seq<SpecToken>, SpecError> {
    match r {
        Ok(tokens) => Ok(token_views(tokens@)),
        Err(e) => Err(e@),
    }
}

fn is_digit_char(c: char) -> (r: bool)
    ensures
        r == is_digit(c),
{
    '0' <= c && c <= '9'
}

fn is_space_char(c: char) -> (r: bool)
    ensures
        r == is_space(c),
{
    c == ' ' || c == '\t' || c == '\n' || c == '\x0C' || c == '\r'
}

fn is_word_start_char(c: char) -> (r: bool)
    ensures
        r == is_word_start(c),
{
    ('a' <= c && c <= 'z') || ('A' <= c && c <= 'Z') || c == '_'
}

fn is_word_part_char(c: char) -> (r: bool)
    ensures
        r == is_word_part(c),
{
    is_word_start_char(c) || is_digit_char(c)
}

/// The end of the run of digits at `from`, in the text that starts at
/// `start`.
fn find_digits_end(chars: &Vec<char>, start: usize, from: usize) -> (end: usize)
    requires
        start <= from <= chars.len(),
    ensures
        from <= end <= chars.len(),
        end - start == digits_end(chars@.skip(start as int), from - start),
{
    let mut end = from;
    while end < chars.len() && is_digit_char(chars[end])
        invariant
            start <= from <= end <= chars.len(),
            digits_end(chars@.skip(start as int), from - start) == digits_end(
                chars@.skip(start as int),
                end - start,
            ),
        decreases chars.len() - end,
    {
        end += 1;
    }
    end
}

/// The end of the word at `from`, in the text that starts at `start`.
fn find_word_end(chars: &Vec<char>, start: usize, from: usize) -> (end: usize)
    requires
        start <= from <= chars.len(),
    ensures
        from <= end <= chars.len(),
        end - start == word_end(chars@.skip(start as int), from - start),
{
    let mut end = from;
    while end < chars.len() && is_word_part_char(chars[end])
        invariant
            start <= from <= end <= chars.len(),
            word_end(chars@.skip(start as int), from - start) == word_end(
                chars@.skip(start as int),
                end - start,
            ),
        decreases chars.len() - end,
    {
        end += 1;
    }
    end
}

/// The place of the next `quote` at or after `from`, in the text that
/// starts at `start`.
fn find_quote(chars: &Vec<char>, start: usize, quote: char, from: usize) -> (end: usize)
    requires
        start <= from <= chars.len(),
    ensures
        from <= end <= chars.len(),
        end - start == quote_position(chars@.skip(start as int), quote, from - start),
{
    let mut end = from;
    while end < chars.len() && chars[end] != quote
        invariant
            start <= from <= end <= chars.len(),
            quote_position(chars@.skip(start as int), quote, from - start) == quote_position(
                chars@.skip(start as int),
                quote,
                end - start,
            ),
        decreases chars.len() - end,
    {
        end += 1;
    }
    end
}

/// A longer run of digits writes no smaller number.
proof fn lemma_decimal_value_grows(digits: Seq<char>, shorter: int)
    requires
        0 <= shorter <= digits.len(),
        forall|i: int| 0 <= i < digits.len() ==> is_digit(#[trigger] digits[i]),
    ensures
        0 <= decimal_value(digits.subrange(0, shorter)) <= decimal_value(digits),
    decreases digits.len(),
{
    if digits.len() == 0 {
        assert(digits.subrange(0, shorter) =~= digits);
    } else if shorter == digits.len() {
        assert(digits.subrange(0, shorter) =~= digits);
        lemma_decimal_value_grows(digits.drop_last(), shorter - 1);
    } else {
        lemma_decimal_value_grows(digits.drop_last(), shorter);
        assert(digits.drop_last().subrange(0, shorter) =~= digits.subrange(0, shorter));
        lemma_decimal_value_grows(digits.drop_last(), digits.len() - 1);
        assert(digits.drop_last().subrange(0, digits.len() - 1) =~= digits.drop_last());
    }
}

/// The number that the digits from `start` to `end` write, or nothing where
/// it does not fit 64 bits.
fn decimal_of(chars: &Vec<char>, start: usize, end: usize) -> (r: Option<i64>)
    requires
        start <= end <= chars.len(),
        forall|i: int| start <= i < end ==> is_digit(#[trigger] chars[i]),
    ensures
        match r {
            Some(value) => value == decimal_value(chars@.subrange(start as int, end as int)),
            None => decimal_value(chars@.subrange(start as int, end as int)) > i64::MAX,
        },
{
    let ghost digits = chars@.subrange(start as int, end as int);
    assert forall|j: int| 0 <= j < digits.len() implies is_digit(#[trigger] digits[j]) by {
        assert(digits[j] == chars[start + j]);
    }
    let mut value: i64 = 0;
    let mut i = start;
    while i < end
        invariant
            start <= i <= end <= chars.len(),
            digits == chars@.subrange(start as int, end as int),
            forall|j: int| start <= j < end ==> is_digit(#[trigger] chars[j]),
            forall|j: int| 0 <= j < digits.len() ==> is_digit(#[trigger] digits[j]),
            0 <= value,
            value == decimal_value(digits.subrange(0, i - start)),
        decreases end - i,
    {
        assert(is_digit(chars[i as int]));
        let digit: i64 = (chars[i] as u32 - '0' as u32) as i64;
        proof {
            assert(digits[i - start] == chars[i as int]);
            assert(is_digit(digits[i - start]));
            assert(digits.subrange(0, i - start + 1).drop_last() =~= digits.subrange(0, i - start));
            assert(digits.subrange(0, i - start + 1).last() == chars[i as int]);
            assert(digit == digit_value(chars[i as int]));
            lemma_decimal_value_grows(digits, i - start + 1);
            assert(digits.subrange(0, digits.len() as int) =~= digits);
        }
        if value > (i64::MAX - digit) / 10 {
            return None;
        }
        value = value * 10 + digit;
        i += 1;
    }
    assert(digits.subrange(0, end - start) =~= digits);
    Some(value)
}

/// The `Float` token that the characters from `start` to `end` write.
fn float_token(text: &str, chars: &Vec<char>, start: usize, end: usize) -> (r: (Token, usize))
    requires
        chars@ == text@,
        start < end <= chars.len(),
        is_decimal_literal(chars@.subrange(start as int, end as int)),
    ensures
        r.1 == end,
        float_lexeme(chars@.skip(start as int), end - start) == (Lexeme {
            token: r.0@,
            length: end - start,
        }),
{
    let literal = text.substring_char(start, end);
    assert(chars@.skip(start as int).subrange(0, end - start) =~= chars@.subrange(
        start as int,
        end as int,
    ));
    match bits_of_text(literal) {
        Some(bits) => (Token::Float(Float::from_bits(bits)), end),
        None => unreached(),
    }
}

/// The numeric literal that starts at `start`.
fn number_token(text: &str, chars: &Vec<char>, start: usize) -> (r: (Token, usize))
    requires
        chars@ == text@,
        start < chars.len(),
        is_digit(chars[start as int]),
    ensures
        start < r.1 <= chars.len(),
        number(chars@.skip(start as int)) == (Lexeme { token: r.0@, length: r.1 - start }),
{
    let ghost s = chars@.skip(start as int);
    let whole = find_digits_end(chars, start, start);
    proof {
        lemma_digits_end_bounds(s, 0);
        assert forall|i: int| start <= i < whole implies is_digit(#[trigger] chars[i]) by {
            assert(chars[i] == s[i - start]);
        }
        assert(chars@.subrange(start as int, whole as int) =~= s.subrange(0, whole - start));
    }
    if chars.len() - whole > 1 && chars[whole] == '.' && is_digit_char(chars[whole + 1]) {
        let end = find_digits_end(chars, start, whole + 1);
        proof {
            lemma_digits_end_bounds(s, whole - start + 1);
            let literal = chars@.subrange(start as int, end as int);
            let dot = whole - start;
            assert(literal[dot] == '.');
            assert forall|i: int| 0 <= i < dot implies is_digit(
                #[trigger] literal.subrange(0, dot)[i],
            ) by {
                assert(literal.subrange(0, dot)[i] == s[i]);
            }
            assert forall|i: int| 0 <= i < literal.len() - dot - 1 implies is_digit(
                #[trigger] literal.subrange(dot + 1, literal.len() as int)[i],
            ) by {
                assert(literal.subrange(dot + 1, literal.len() as int)[i] == s[dot + 1 + i]);
            }
            assert(0 < dot < literal.len() - 1);
        }
        float_token(text, chars, start, end)
    } else {
        match decimal_of(chars, start, whole) {
            Some(value) => (Token::Int(value), whole),
            None => {
                proof {
                    let literal = chars@.subrange(start as int, whole as int);
                    assert forall|i: int| 0 <= i < literal.len() implies is_digit(
                        #[trigger] literal[i],
                    ) by {
                        assert(literal[i] == chars[start + i]);
                    }
                }
                float_token(text, chars, start, whole)
            },
        }
    }
}

/// Whether the characters from `start` to `end` are those of `word`.
fn spells(chars: &Vec<char>, start: usize, end: usize, word: &Vec<char>) -> (r: bool)
    requires
        start <= end <= chars.len(),
    ensures
        r == (chars@.subrange(start as int, end as int) == word@),
{
    if end - start != word.len() {
        return false;
    }
    let mut i: usize = 0;
    while i < word.len()
        invariant
            start <= end <= chars.len(),
            end - start == word.len(),
            i <= word.len(),
            forall|j: int| 0 <= j < i ==> chars[start + j] == word[j],
        decreases word.len() - i,
    {
        if chars[start + i] != word[i] {
            assert(chars@.subrange(start as int, end as int)[i as int] != word@[i as int]);
            return false;
        }
        i += 1;
    }
    assert(chars@.subrange(start as int, end as int) =~= word@);
    true
}

/// The word that starts at `start`.
fn word_token(text: &str, chars: &Vec<char>, start: usize) -> (r: (Token, usize))
    requires
        chars@ == text@,
        start < chars.len(),
        is_word_start(chars[start as int]),
    ensures
        start < r.1 <= chars.len(),
        word(chars@.skip(start as int)) == (Lexeme { token: r.0@, length: r.1 - start }),
{
    let ghost s = chars@.skip(start as int);
    let end = find_word_end(chars, start, start);
    proof {
        lemma_word_end_bounds(s, 0);
        assert(s.subrange(0, end - start) =~= chars@.subrange(start as int, end as int));
    }
    let word_true: Vec<char> = vec!['t', 'r', 'u', 'e'];
    let word_false: Vec<char> = vec!['f', 'a', 'l', 's', 'e'];
    assert(word_true@ =~= seq!['t', 'r', 'u', 'e']);
    assert(word_false@ =~= seq!['f', 'a', 'l', 's', 'e']);
    if spells(chars, start, end, &word_true) {
        (Token::Boolean(true), end)
    } else if spells(chars, start, end, &word_false) {
        (Token::Boolean(false), end)
    } else {
        let name = String::from_str(text.substring_char(start, end));
        (Token::Identifier(name), end)
    }
}

/// The string literal that starts at `start`.
fn string_token(text: &str, chars: &Vec<char>, start: usize) -> (r: Result<(Token, usize), Error>)
    requires
        chars@ == text@,
        start < chars.len(),
    ensures
        match r {
            Ok((token, next)) => start < next <= chars.len() && string_literal(
                chars@.skip(start as int),
            ) == Ok::<Lexeme, ScanFailure>(Lexeme { token: token@, length: next - start }),
            Err(e) => string_literal(chars@.skip(start as int)) is Err && e@ == located(
                string_literal(chars@.skip(start as int))->Err_0,
                chars.len() as int,
            ),
        },
{
    let ghost s = chars@.skip(start as int);
    let close = find_quote(chars, start, chars[start], start + 1);
    if close < chars.len() {
        let content = String::from_str(text.substring_char(start + 1, close));
        assert(s.subrange(1, close - start) =~= chars@.subrange(start + 1, close as int));
        Ok((Token::String(content), close + 1))
    } else {
        Err(Error::UnmatchedQuote)
    }
}

/// The token that `a` and `b` spell together, if any.
fn pair_token(a: char, b: char) -> (r: Option<Token>)
    ensures
        match r {
            Some(token) => pair_symbol(a, b) == Some(token@),
            None => pair_symbol(a, b) is None,
        },
{
    if a == '=' && b == '=' {
        Some(Token::Operator(Operator::Eq))
    } else if a == '!' && b == '=' {
        Some(Token::Operator(Operator::Neq))
    } else if a == '<' && b == '=' {
        Some(Token::Operator(Operator::Leq))
    } else if a == '>' && b == '=' {
        Some(Token::Operator(Operator::Geq))
    } else if a == '&' && b == '&' {
        Some(Token::Operator(Operator::And))
    } else if a == '|' && b == '|' {
        Some(Token::Operator(Operator::Or))
    } else if a == '.' && b == '.' {
        Some(Token::RangeDots)
    } else {
        None
    }
}

/// The token that `c` spells alone, if any.
fn single_token(c: char) -> (r: Option<Token>)
    ensures
        match r {
            Some(token) => single_symbol(c) == Some(token@),
            None => single_symbol(c) is None,
        },
{
    if c == '+' {
        Some(Token::Operator(Operator::Plus))
    } else if c == '-' {
        Some(Token::Operator(Operator::Minus))
    } else if c == '*' {
        Some(Token::Operator(Operator::Star))
    } else if c == '/' {
        Some(Token::Operator(Operator::Slash))
    } else if c == '%' {
        Some(Token::Operator(Operator::Percent))
    } else if c == '<' {
        Some(Token::Operator(Operator::Lt))
    } else if c == '>' {
        Some(Token::Operator(Operator::Gt))
    } else if c == '!' {
        Some(Token::Operator(Operator::Not))
    } else if c == '(' {
        Some(Token::OpenParen)
    } else if c == ')' {
        Some(Token::CloseParen)
    } else if c == '[' {
        Some(Token::OpenBracket)
    } else if c == ']' {
        Some(Token::CloseBracket)
    } else if c == ',' {
        Some(Token::Comma)
    } else if c == '.' {
        Some(Token::Dot)
    } else {
        None
    }
}

/// The symbol that starts at `start`.
fn symbol_token(chars: &Vec<char>, start: usize) -> (r: Option<(Token, usize)>)
    requires
        start < chars.len(),
    ensures
        match r {
            Some((token, next)) => start < next <= chars.len() && symbol(chars@.skip(start as int))
                == Some(Lexeme { token: token@, length: next - start }),
            None => symbol(chars@.skip(start as int)) is None,
        },
{
    if start + 1 < chars.len() {
        match pair_token(chars[start], chars[start + 1]) {
            Some(token) => {
                return Some((token, start + 2));
            },
            None => {},
        }
    }
    match single_token(chars[start]) {
        Some(token) => Some((token, start + 1)),
        None => None,
    }
}

/// The token that starts at `start`, and where the text goes on behind it.
fn next_token(text: &str, chars: &Vec<char>, start: usize) -> (r: Result<(Token, usize), Error>)
    requires
        chars@ == text@,
        start < chars.len(),
    ensures
        match r {
            Ok((token, next)) => start < next <= chars.len() && lexeme(chars@.skip(start as int))
                == Ok::<Lexeme, ScanFailure>(Lexeme { token: token@, length: next - start }),
            Err(e) => lexeme(chars@.skip(start as int)) is Err && e@ == located(
                lexeme(chars@.skip(start as int))->Err_0,
                chars.len() as int,
            ),
        },
{
    let c = chars[start];
    if is_digit_char(c) {
        Ok(number_token(text, chars, start))
    } else if is_word_start_char(c) {
        Ok(word_token(text, chars, start))
    } else if c == '"' || c == '\'' {
        string_token(text, chars, start)
    } else {
        match symbol_token(chars, start) {
            Some(found) => Ok(found),
            None => Err(Error::UnexpectedCharacter { character: c, position: start }),
        }
    }
}

/// Scans a text into its tokens. Whitespace between tokens is skipped; each
/// token is the longest that can start where it starts; the first character
/// that starts no token, or a string literal without its closing quote, ends
/// the scan with that failure.
pub fn tokenize(text: &str) -> (r: Result<Vec<Token>, Error>)
    ensures
        scanned_view(r) == tokens_of(text@),
{
    let chars = characters(text);
    let mut tokens: Vec<Token> = Vec::new();
    let mut pos: usize = 0;
    assert(chars@.skip(0) =~= chars@);
    assert(token_views(tokens@) + scan(chars@)->Ok_0 =~= scan(chars@)->Ok_0);
    while pos < chars.len()
        invariant
            chars@ == text@,
            pos <= chars.len(),
            scan(chars@) == continued(token_views(tokens@), scan(chars@.skip(pos as int))),
        decreases chars.len() - pos,
    {
        let ghost s = chars@.skip(pos as int);
        if is_space_char(chars[pos]) {
            assert(s.skip(1) =~= chars@.skip(pos + 1));
            pos += 1;
        } else {
            match next_token(text, &chars, pos) {
                Err(e) => {
                    return Err(e);
                },
                Ok((token, next)) => {
                    proof {
                        assert(s.skip(next - pos) =~= chars@.skip(next as int));
                        let found = token_views(tokens@);
                        assert(token_views(tokens@.push(token)) =~= found.push(token@));
                        match scan(chars@.skip(next as int)) {
                            Ok(rest) => {
                                assert(found + (seq![token@] + rest) =~= found.push(token@) + rest);
                            },
                            Err(_) => {},
                        }
                    }
                    tokens.push(token);
                    pos = next;
                },
            }
        }
    }
    assert(token_views(tokens@) + Seq::<SpecToken>::empty() =~= token_views(tokens@));
    Ok(tokens)
}

} // verus!
