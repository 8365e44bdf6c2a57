//! General facts about the tokens of a text.

use crate::classes::{is_digit, is_whitespace, lemma_run_end, lemma_run_end_is, run_end, CharClass};
use crate::grammar::{
    escaping, is_number, keyword, lemma_closing_quote, lemma_number_end, lemma_token_at_cursor,
    number_end, number_scan, number_text, punctuation, token_at, tokens_from, tokens_of,
};
use crate::token::{tokens_outcome, NumberError, Token, TokenView, TokenizeError};
use vstd::prelude::*;

verus! {

/// Whether `c` can be the first character of a token.
pub open spec fn starts_token(c: char) -> bool {
    punctuation(c) is Some || keyword(c) is Some || is_digit(c) || c == '"'
}

/// Text that holds whitespace and nothing else has no tokens and is
/// refused: the input ends where a token is looked for.
pub proof fn lemma_whitespace_only(s: Seq<char>)
    requires
        s.len() > 0,
        forall|i: int| 0 <= i < s.len() ==> is_whitespace(#[trigger] s[i]),
    ensures
        tokens_of(s) == Err::<Seq<TokenView>, TokenizeError>(TokenizeError::UnexpectedEof),
{
    lemma_run_end_is(s, 0, s.len() as int, CharClass::Whitespace);
}

/// Text made of the six punctuation characters has one token for each
/// character, in the order of the characters, and no other token.
pub proof fn lemma_punctuation_only(s: Seq<char>)
    requires
        forall|i: int| 0 <= i < s.len() ==> punctuation(#[trigger] s[i]) is Some,
    ensures
        tokens_of(s) matches Ok(tokens) && tokens.len() == s.len() && forall|i: int|
            0 <= i < s.len() ==> punctuation(s[i]) == Some(#[trigger] tokens[i]),
{
    lemma_punctuation_from(s, 0);
}

/// From any position on, text made of punctuation characters has one token
/// for each character that is left.
proof fn lemma_punctuation_from(s: Seq<char>, from: int)
    requires
        0 <= from <= s.len(),
        forall|i: int| 0 <= i < s.len() ==> punctuation(#[trigger] s[i]) is Some,
    ensures
        tokens_from(s, from) matches Ok(tokens) && tokens.len() == s.len() - from && forall|i: int|
            0 <= i < s.len() - from ==> punctuation(s[from + i]) == Some(#[trigger] tokens[i]),
    decreases s.len() - from,
{
    if from < s.len() {
        lemma_punctuation_from(s, from + 1);
    }
}

/// A character that starts no token, met where a token is looked for, is
/// reported: the text is refused with that character, whatever follows it.
pub proof fn lemma_unrecognized_character(s: Seq<char>, at: int)
    requires
        0 <= at < s.len(),
        forall|i: int| 0 <= i < at ==> is_whitespace(#[trigger] s[i]),
        !is_whitespace(s[at]),
        !starts_token(s[at]),
    ensures
        tokens_of(s) == Err::<Seq<TokenView>, TokenizeError>(
            TokenizeError::CharNotRecognized(s[at]),
        ),
{
    lemma_run_end_is(s, 0, at, CharClass::Whitespace);
}

/// Scanning depends on the text alone: whatever two runs on the same text
/// return, the two results are the same, token for token and in the same
/// order, or the same error.
pub proof fn lemma_tokenize_twice(
    s: Seq<char>,
    first: Result<Vec<Token>, TokenizeError>,
    second: Result<Vec<Token>, TokenizeError>,
)
    requires
        tokens_outcome(first) == tokens_of(s),
        tokens_outcome(second) == tokens_of(s),
    ensures
        tokens_outcome(first) == tokens_outcome(second),
{
}

/// The last character of a token is no whitespace.
pub proof fn lemma_token_last_character(s: Seq<char>, from: int)
    requires
        0 <= from <= s.len(),
        token_at(s, from).outcome is Ok,
    ensures
        0 <= token_at(s, from).cursor < s.len(),
        !is_whitespace(s[token_at(s, from).cursor]),
{
    lemma_token_at_cursor(s, from);
    lemma_run_end(s, from, CharClass::Whitespace);
    let at = run_end(s, from, CharClass::Whitespace);
    let c = s[at];
    if is_digit(c) {
        lemma_number_end(s, at);
        assert(number_text(s, at).last() == s[number_end(s, at) - 1]);
    } else if c == '"' {
        lemma_closing_quote(s, at, at + 1);
    }
}

/// Text that ends in whitespace is refused: whitespace is passed over only
/// on the way to a token.
pub proof fn lemma_trailing_whitespace(s: Seq<char>)
    requires
        s.len() > 0,
        is_whitespace(s.last()),
    ensures
        tokens_of(s) is Err,
{
    lemma_trailing_whitespace_from(s, 0);
}

/// From no position do the tokens of a text that ends in whitespace come to
/// a good end.
proof fn lemma_trailing_whitespace_from(s: Seq<char>, from: int)
    requires
        0 <= from < s.len(),
        is_whitespace(s.last()),
    ensures
        tokens_from(s, from) is Err,
    decreases s.len() - from,
{
    if token_at(s, from).outcome is Ok {
        lemma_token_at_cursor(s, from);
        lemma_token_last_character(s, from);
        lemma_trailing_whitespace_from(s, token_at(s, from).cursor + 1);
    }
}

/// A number that starts with a digit is refused exactly when a minus sign
/// stands in its text, and then as invalid, never as empty.
pub proof fn lemma_number_at_digit(s: Seq<char>, from: int)
    requires
        0 <= from < s.len(),
        is_digit(s[from]),
    ensures
        number_scan(s, from).outcome is Ok <==> forall|k: int|
            from <= k < number_end(s, from) ==> #[trigger] s[k] != '-',
        number_scan(s, from).outcome is Err ==> number_scan(s, from).outcome == Err::<
            TokenView,
            TokenizeError,
        >(TokenizeError::ParseNumberError(NumberError::Invalid)),
{
    lemma_number_end(s, from);
    lemma_run_end(s, from, CharClass::DigitOrMinus);
    let whole = run_end(s, from, CharClass::DigitOrMinus);
    if whole < s.len() {
        lemma_run_end(s, whole + 1, CharClass::Digit);
    }
    let end = number_end(s, from);
    let text = number_text(s, from);
    if forall|k: int| from <= k < end ==> #[trigger] s[k] != '-' {
        assert(is_digit(text[0]));
    } else {
        let k = choose|k: int| from <= k < end && s[k] == '-';
        assert(text[k - from] == '-');
    }
}

/// Whether `token`, if it is a number, holds a decimal number that starts
/// with a digit.
pub open spec fn number_is_sound(token: TokenView) -> bool {
    token matches TokenView::Number(text) ==> is_number(text) && is_digit(text[0])
}

/// Every number among the tokens of a text holds a decimal number that
/// starts with a digit.
pub proof fn lemma_numbers_are_sound(s: Seq<char>)
    ensures
        tokens_of(s) matches Ok(tokens) ==> forall|i: int|
            0 <= i < tokens.len() ==> number_is_sound(#[trigger] tokens[i]),
{
    lemma_numbers_are_sound_from(s, 0);
}

/// Every number among the tokens from any position on is sound.
proof fn lemma_numbers_are_sound_from(s: Seq<char>, from: int)
    requires
        0 <= from,
    ensures
        tokens_from(s, from) matches Ok(tokens) ==> forall|i: int|
            0 <= i < tokens.len() ==> number_is_sound(#[trigger] tokens[i]),
    decreases s.len() - from,
{
    if from < s.len() {
        let step = token_at(s, from);
        if step.outcome is Ok {
            lemma_token_at_cursor(s, from);
            lemma_numbers_are_sound_from(s, step.cursor + 1);
            let at = run_end(s, from, CharClass::Whitespace);
            lemma_run_end(s, from, CharClass::Whitespace);
            if is_digit(s[at]) {
                lemma_number_end(s, at);
            }
        }
    }
}

/// How many backslashes stand in a row directly before position `at` of a
/// string whose opening quote is at `open`.
pub open spec fn backslashes_before(s: Seq<char>, open: int, at: int) -> nat
    decreases at - open,
{
    if at <= open + 1 || s[at - 1] != '\\' {
        0
    } else {
        1 + backslashes_before(s, open, at - 1)
    }
}

/// The escape flag is set exactly where an odd number of backslashes stand
/// in a row directly before the position: a quote closes its string where
/// that number is even.
pub proof fn lemma_escaping_counts_backslashes(s: Seq<char>, open: int, at: int)
    ensures
        escaping(s, open, at) <==> backslashes_before(s, open, at) % 2 == 1,
    decreases at - open,
{
    if at > open + 1 {
        lemma_escaping_counts_backslashes(s, open, at - 1);
    }
}

} // verus!
