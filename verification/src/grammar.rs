//! The grammar of tokens, stated over sequences of characters.
//!
//! A cursor is a position in the text. Scanning one token starts at a cursor
//! and leaves the cursor on the last character of the token, so that the
//! next token is looked for one position further on.

use crate::classes::{is_digit, lemma_run_end, run_end, CharClass};
use crate::token::{NumberError, TokenView, TokenizeError};
use vstd::prelude::*;

verus! {

/// What scanning at a cursor comes to: the token or the error, and where the
/// cursor stands afterwards.
pub struct Scan {
    /// The token that was scanned, or why none was.
    pub outcome: Result<TokenView, TokenizeError>,
    /// After a token, the position of its last character; after an error,
    /// the position at which the error was met.
    pub cursor: int,
}

/// The token that the single character `c` stands for, where it is one.
pub open spec fn punctuation(c: char) -> Option<TokenView> {
    if c == '[' {
        Some(TokenView::LeftBracket)
    } else if c == ']' {
        Some(TokenView::RightBracket)
    } else if c == '{' {
        Some(TokenView::LeftBrace)
    } else if c == '}' {
        Some(TokenView::RightBrace)
    } else if c == ',' {
        Some(TokenView::Comma)
    } else if c == ':' {
        Some(TokenView::Colon)
    } else {
        None
    }
}

/// The word that has to follow where `c` starts a literal keyword, and the
/// token that it stands for.
pub open spec fn keyword(c: char) -> Option<(Seq<char>, TokenView)> {
    if c == 'n' {
        Some((seq!['n', 'u', 'l', 'l'], TokenView::Null))
    } else if c == 't' {
        Some((seq!['t', 'r', 'u', 'e'], TokenView::True))
    } else if c == 'f' {
        Some((seq!['f', 'a', 'l', 's', 'e'], TokenView::False))
    } else {
        None
    }
}

/// Whether the characters of `word` stand in `s` from position `from` on.
pub open spec fn matches_at(s: Seq<char>, from: int, word: Seq<char>) -> bool {
    &&& 0 <= from
    &&& from + word.len() <= s.len()
    &&& s.subrange(from, from + word.len()) == word
}

/// The first index at or after `k` at which `word` and the text that starts
/// at `from` part: where their characters differ, or the text or the word
/// ends.
pub open spec fn agreement(s: Seq<char>, from: int, word: Seq<char>, k: int) -> int
    decreases word.len() - k,
{
    if 0 <= k < word.len() && 0 <= from + k < s.len() && s[from + k] == word[k] {
        agreement(s, from, word, k + 1)
    } else {
        k
    }
}

/// Scanning the literal `word` at `from`: the given token where the whole
/// word stands there, with the cursor on its last character; otherwise an
/// error, with the cursor where the text first departs from the word.
pub open spec fn literal_scan(s: Seq<char>, from: int, word: Seq<char>, token: TokenView) -> Scan {
    if matches_at(s, from, word) {
        Scan { outcome: Ok(token), cursor: from + word.len() - 1 }
    } else {
        Scan {
            outcome: Err(TokenizeError::UnfinishedLiteralValue),
            cursor: from + agreement(s, from, word, 0),
        }
    }
}

/// Where the text of the number that starts at `from` ends: after a run of
/// digits and minus signs and, where a decimal point follows that run, after
/// the point and the run of digits behind it.
pub open spec fn number_end(s: Seq<char>, from: int) -> int {
    let whole = run_end(s, from, CharClass::DigitOrMinus);
    if 0 <= whole < s.len() && s[whole] == '.' {
        run_end(s, whole + 1, CharClass::Digit)
    } else {
        whole
    }
}

/// The text of the number that starts at `from`: the characters from there
/// to where the number ends.
pub open spec fn number_text(s: Seq<char>, from: int) -> Seq<char> {
    if 0 <= from <= s.len() {
        s.subrange(from, number_end(s, from))
    } else {
        Seq::empty()
    }
}

/// Whether `text` is a decimal number: after an optional leading `-`, digits
/// with at most one decimal point before, among or after them, and at least
/// one digit.
pub open spec fn is_number(text: Seq<char>) -> bool {
    let first = if text.len() > 0 && text[0] == '-' {
        1int
    } else {
        0int
    };
    &&& forall|i: int| first <= i < text.len() ==> is_digit(#[trigger] text[i]) || text[i] == '.'
    &&& forall|i: int, j: int|
        first <= i < text.len() && first <= j < text.len() && #[trigger] text[i] == '.'
            && #[trigger] text[j] == '.' ==> i == j
    &&& exists|i: int| first <= i < text.len() && is_digit(#[trigger] text[i])
}

/// What is wrong with `text` as a number, if anything.
pub open spec fn number_error(text: Seq<char>) -> Option<NumberError> {
    if text.len() == 0 {
        Some(NumberError::Empty)
    } else if !is_number(text) {
        Some(NumberError::Invalid)
    } else {
        None
    }
}

/// Scanning a number at `from`: a number token with its text where that
/// text is a decimal number, with the cursor on its last character;
/// otherwise an error, with the cursor behind the text.
pub open spec fn number_scan(s: Seq<char>, from: int) -> Scan {
    let text = number_text(s, from);
    let end = number_end(s, from);
    match number_error(text) {
        None => Scan { outcome: Ok(TokenView::Number(text)), cursor: end - 1 },
        Some(e) => Scan { outcome: Err(TokenizeError::ParseNumberError(e)), cursor: end },
    }
}

/// The state of the escape flag at position `at` of a string whose opening
/// quote is at `open`: a backslash toggles the flag, any other character
/// clears it, and it is clear behind the opening quote.
pub open spec fn escaping(s: Seq<char>, open: int, at: int) -> bool
    decreases at - open,
{
    if at <= open + 1 {
        false
    } else {
        s[at - 1] == '\\' && !escaping(s, open, at - 1)
    }
}

/// Whether the character at `at` closes the string whose opening quote is at
/// `open`: it is a quote, and the escape flag is clear there.
pub open spec fn closes(s: Seq<char>, open: int, at: int) -> bool {
    s[at] == '"' && !escaping(s, open, at)
}

/// The first position at or after `from` that closes the string whose
/// opening quote is at `open`, or the length of `s` where there is none.
pub open spec fn closing_quote(s: Seq<char>, open: int, from: int) -> int
    decreases s.len() - from,
{
    if from >= s.len() {
        s.len() as int
    } else if closes(s, open, from) {
        from
    } else {
        closing_quote(s, open, from + 1)
    }
}

/// Scanning a string whose opening quote is at `open`: a string token with
/// the characters between the quotes, unchanged, and the cursor on the
/// closing quote; or an error where the input ends before a closing quote,
/// with the cursor at the end of the input.
pub open spec fn string_scan(s: Seq<char>, open: int) -> Scan {
    let close = closing_quote(s, open, open + 1);
    if 0 <= open && close < s.len() {
        Scan { outcome: Ok(TokenView::String(s.subrange(open + 1, close))), cursor: close }
    } else {
        Scan {
            outcome: Err(TokenizeError::UnclosedQuotes),
            cursor: if open < s.len() {
                s.len() as int
            } else {
                open
            },
        }
    }
}

/// Scanning one token at `from`: whitespace is passed over, and the first
/// character behind it decides what is scanned.
pub open spec fn token_at(s: Seq<char>, from: int) -> Scan {
    let at = run_end(s, from, CharClass::Whitespace);
    if 0 <= at < s.len() {
        let c = s[at];
        if let Some(token) = punctuation(c) {
            Scan { outcome: Ok(token), cursor: at }
        } else if let Some((word, token)) = keyword(c) {
            literal_scan(s, at, word, token)
        } else if is_digit(c) {
            number_scan(s, at)
        } else if c == '"' {
            string_scan(s, at)
        } else {
            Scan { outcome: Err(TokenizeError::CharNotRecognized(c)), cursor: at }
        }
    } else {
        Scan { outcome: Err(TokenizeError::UnexpectedEof), cursor: at }
    }
}

/// The tokens of `s` from position `from` on, or the first error met.
pub open spec fn tokens_from(s: Seq<char>, from: int) -> Result<Seq<TokenView>, TokenizeError>
    decreases s.len() - from,
    via tokens_from_decreases
{
    if 0 <= from < s.len() {
        let step = token_at(s, from);
        match step.outcome {
            Err(e) => Err(e),
            Ok(token) => match tokens_from(s, step.cursor + 1) {
                Err(e) => Err(e),
                Ok(rest) => Ok(seq![token] + rest),
            },
        }
    } else {
        Ok(Seq::empty())
    }
}

#[via_fn]
proof fn tokens_from_decreases(s: Seq<char>, from: int) {
    if 0 <= from < s.len() {
        lemma_token_at_cursor(s, from);
    }
}

/// The tokens of the text `s`, or the first error met.
pub open spec fn tokens_of(s: Seq<char>) -> Result<Seq<TokenView>, TokenizeError> {
    tokens_from(s, 0)
}

/// The agreement of the text with a word counts matching characters and
/// stops at the first that differs, or at the end of the text or the word.
pub proof fn lemma_agreement(s: Seq<char>, from: int, word: Seq<char>, k: int)
    requires
        0 <= from,
        0 <= k <= word.len(),
        from + k <= s.len(),
    ensures
        k <= agreement(s, from, word, k) <= word.len(),
        from + agreement(s, from, word, k) <= s.len(),
        forall|j: int| k <= j < agreement(s, from, word, k) ==> s[from + j] == #[trigger] word[j],
        agreement(s, from, word, k) < word.len() && from + agreement(s, from, word, k) < s.len()
            ==> s[from + agreement(s, from, word, k)] != word[agreement(s, from, word, k)],
    decreases word.len() - k,
{
    if k < word.len() && from + k < s.len() && s[from + k] == word[k] {
        lemma_agreement(s, from, word, k + 1);
    }
}

/// The text of a number lies within the input.
pub proof fn lemma_number_end(s: Seq<char>, from: int)
    requires
        0 <= from <= s.len(),
    ensures
        from <= number_end(s, from) <= s.len(),
{
    lemma_run_end(s, from, CharClass::DigitOrMinus);
    let whole = run_end(s, from, CharClass::DigitOrMinus);
    if whole < s.len() {
        lemma_run_end(s, whole + 1, CharClass::Digit);
    }
}

/// The closing quote found from `from` on lies between `from` and the end
/// of the text, closes the string, and is the first position that does.
pub proof fn lemma_closing_quote(s: Seq<char>, open: int, from: int)
    requires
        0 <= from <= s.len(),
    ensures
        from <= closing_quote(s, open, from) <= s.len(),
        closing_quote(s, open, from) < s.len() ==> closes(s, open, closing_quote(s, open, from)),
        forall|k: int| from <= k < closing_quote(s, open, from) ==> !closes(s, open, k),
    decreases s.len() - from,
{
    if from < s.len() && !closes(s, open, from) {
        lemma_closing_quote(s, open, from + 1);
    }
}

/// What holds of the cursor after a scan that started at `from`: it has not
/// moved back, it has not passed the end of the text unless it started
/// behind it, and after a token it stands on a character of the text.
pub open spec fn cursor_kept(s: Seq<char>, from: int, scan: Scan) -> bool {
    &&& from <= scan.cursor
    &&& from <= s.len() ==> scan.cursor <= s.len()
    &&& scan.outcome is Ok ==> scan.cursor < s.len()
}

/// Scanning a literal keeps the cursor in order.
pub proof fn lemma_literal_scan_cursor(s: Seq<char>, from: int, word: Seq<char>, token: TokenView)
    requires
        0 <= from,
        word.len() > 0,
    ensures
        cursor_kept(s, from, literal_scan(s, from, word, token)),
{
    if from <= s.len() {
        lemma_agreement(s, from, word, 0);
    }
}

/// Scanning a number keeps the cursor in order.
pub proof fn lemma_number_scan_cursor(s: Seq<char>, from: int)
    requires
        0 <= from,
    ensures
        cursor_kept(s, from, number_scan(s, from)),
{
    if from <= s.len() {
        lemma_number_end(s, from);
    }
}

/// Scanning a string keeps the cursor in order.
pub proof fn lemma_string_scan_cursor(s: Seq<char>, open: int)
    requires
        0 <= open,
    ensures
        cursor_kept(s, open, string_scan(s, open)),
{
    if open < s.len() {
        lemma_closing_quote(s, open, open + 1);
    }
}

/// Scanning a token keeps the cursor in order.
pub proof fn lemma_token_at_cursor(s: Seq<char>, from: int)
    requires
        0 <= from,
    ensures
        cursor_kept(s, from, token_at(s, from)),
{
    if from <= s.len() {
        lemma_run_end(s, from, CharClass::Whitespace);
    }
    let at = run_end(s, from, CharClass::Whitespace);
    if at < s.len() {
        let c = s[at];
        if punctuation(c) is Some {
        } else if let Some((word, token)) = keyword(c) {
            lemma_literal_scan_cursor(s, at, word, token);
        } else if is_digit(c) {
            lemma_number_scan_cursor(s, at);
        } else if c == '"' {
            lemma_string_scan_cursor(s, at);
        }
    }
}

} // verus!
