//! The scanner: from text to tokens, one pass from left to right.

use crate::classes::{is_ascii_digit, is_ascii_whitespace, is_digit, run_end, CharClass};
use crate::grammar::{
    agreement, closing_quote, escaping, lemma_literal_scan_cursor, lemma_number_scan_cursor,
    lemma_string_scan_cursor, lemma_token_at_cursor, literal_scan, number_end, number_error,
    number_scan, string_scan, token_at, tokens_from, tokens_of,
};
use crate::text::to_chars;
use crate::token::{token_outcome, tokens_outcome};
pub use crate::token::{NumberError, Token, TokenizeError};
use vstd::prelude::*;
use vstd::slice::slice_subrange;
use vstd::string::axiom_spec_iter;

verus! {

/// Takes in an input string and returns its tokens in the order in which
/// they stand in it, or the first error met.
///
/// Whitespace may stand before a token and not behind the last one: input
/// that ends in whitespace, or holds nothing else, is refused.
pub fn tokenize(input: String) -> (r: Result<Vec<Token>, TokenizeError>)
    ensures
        tokens_outcome(r) == tokens_of(input@),
{
    let chars = to_chars(input.as_str());
    let ghost s = chars@;
    let mut index: usize = 0;
    let mut tokens: Vec<Token> = Vec::new();
    while index < chars.len()
        invariant
            s == chars@,
            s == input@,
            index <= chars.len(),
            tokens_of(s) == match tokens_from(s, index as int) {
                Ok(rest) => Ok(tokens.deep_view() + rest),
                Err(e) => Err(e),
            },
        decreases chars.len() - index,
    {
        let ghost before = tokens.deep_view();
        match make_token(chars.as_slice(), &mut index) {
            Err(e) => {
                return Err(e);
            },
            Ok(token) => {
                tokens.push(token);
                index += 1;
                proof {
                    assert(tokens.deep_view() =~= before.push(token@));
                    if let Ok(rest) = tokens_from(s, index as int) {
                        assert(before + (seq![token@] + rest) =~= before.push(token@) + rest);
                    }
                }
            },
        }
    }
    Ok(tokens)
}

/// Scans one token: passes over whitespace at the cursor, and lets the
/// first character behind it decide what is scanned.
///
/// After a token the cursor stands on its last character, so that the next
/// token is looked for one position further on. After an error it stands
/// where the error was met. It never moves back.
pub fn make_token(chars: &[char], index: &mut usize) -> (r: Result<Token, TokenizeError>)
    ensures
        token_outcome(r) == token_at(chars@, *old(index) as int).outcome,
        *final(index) == token_at(chars@, *old(index) as int).cursor,
        *old(index) <= *final(index),
        *old(index) <= chars.len() ==> *final(index) <= chars.len(),
        r is Ok ==> *final(index) < chars.len(),
{
    let ghost s = chars@;
    let ghost from = *index as int;
    proof {
        lemma_token_at_cursor(s, from);
    }
    while *index < chars.len() && is_ascii_whitespace(chars[*index])
        invariant
            s == chars@,
            run_end(s, from, CharClass::Whitespace) == run_end(
                s,
                *index as int,
                CharClass::Whitespace,
            ),
        decreases chars.len() - *index,
    {
        *index += 1;
    }
    if *index >= chars.len() {
        return Err(TokenizeError::UnexpectedEof);
    }
    let c = chars[*index];
    match c {
        '[' => Ok(Token::LeftBracket),
        ']' => Ok(Token::RightBracket),
        '{' => Ok(Token::LeftBrace),
        '}' => Ok(Token::RightBrace),
        ',' => Ok(Token::Comma),
        ':' => Ok(Token::Colon),
        'n' => {
            let word = String::from_str("null");
            proof {
                reveal_strlit("null");
                assert(word@ =~= seq!['n', 'u', 'l', 'l']);
            }
            tokenize_literal(chars, index, word, Token::Null)
        },
        't' => {
            let word = String::from_str("true");
            proof {
                reveal_strlit("true");
                assert(word@ =~= seq!['t', 'r', 'u', 'e']);
            }
            tokenize_literal(chars, index, word, Token::True)
        },
        'f' => {
            let word = String::from_str("false");
            proof {
                reveal_strlit("false");
                assert(word@ =~= seq!['f', 'a', 'l', 's', 'e']);
            }
            tokenize_literal(chars, index, word, Token::False)
        },
        '"' => tokenize_string(chars, index),
        _ => {
            if is_ascii_digit(c) {
                tokenize_float(chars, index)
            } else {
                Err(TokenizeError::CharNotRecognized(c))
            }
        },
    }
}

/// Tells what is wrong with `text` as a decimal number: nothing, where it is
/// an optional leading `-` and then digits with at most one decimal point
/// and at least one digit.
pub fn validate_number(text: &[char]) -> (e: Option<NumberError>)
    ensures
        e == number_error(text@),
{
    if text.len() == 0 {
        return Some(NumberError::Empty);
    }
    let first: usize = if text[0] == '-' {
        1
    } else {
        0
    };
    let mut i: usize = first;
    let mut has_digit = false;
    let mut has_point = false;
    while i < text.len()
        invariant
            first <= i <= text.len(),
            first == if text@[0] == '-' {
                1int
            } else {
                0int
            },
            forall|k: int| first <= k < i ==> is_digit(#[trigger] text@[k]) || text@[k] == '.',
            forall|j: int, k: int|
                first <= j < i && first <= k < i && #[trigger] text@[j] == '.'
                    && #[trigger] text@[k] == '.' ==> j == k,
            has_point <==> exists|k: int| first <= k < i && #[trigger] text@[k] == '.',
            has_digit <==> exists|k: int| first <= k < i && is_digit(#[trigger] text@[k]),
        decreases text.len() - i,
    {
        let c = text[i];
        if is_ascii_digit(c) {
            has_digit = true;
        } else if c == '.' && !has_point {
            has_point = true;
        } else {
            return Some(NumberError::Invalid);
        }
        i += 1;
    }
    if has_digit {
        None
    } else {
        Some(NumberError::Invalid)
    }
}

/// Scans the number that starts at the cursor.
///
/// The text of the number is the run of digits and minus signs at the
/// cursor and, where a decimal point follows that run, the point and the
/// digits behind it. The cursor is left on the last character of that text:
/// the character behind it is left for the next token.
///
/// A minus sign is taken wherever it stands before the decimal point, not at
/// the front only, so that text such as `1-2` is gathered as one number and
/// then refused. This is wider than the grammar of JSON numbers, and on
/// purpose not narrowed here.
pub fn tokenize_float(chars: &[char], curr_index: &mut usize) -> (r: Result<Token, TokenizeError>)
    ensures
        token_outcome(r) == number_scan(chars@, *old(curr_index) as int).outcome,
        *final(curr_index) == number_scan(chars@, *old(curr_index) as int).cursor,
        *old(curr_index) <= *final(curr_index),
        *old(curr_index) <= chars.len() ==> *final(curr_index) <= chars.len(),
        r is Ok ==> *final(curr_index) < chars.len(),
{
    let start = *curr_index;
    let ghost s = chars@;
    proof {
        lemma_number_scan_cursor(s, start as int);
    }
    if start > chars.len() {
        return Err(TokenizeError::ParseNumberError(NumberError::Empty));
    }
    let mut unparsed_num = String::new();
    let mut has_decimal = false;
    loop
        invariant
            s == chars@,
            start <= *curr_index <= chars.len(),
            unparsed_num@ == s.subrange(start as int, *curr_index as int),
            !has_decimal ==> run_end(s, start as int, CharClass::DigitOrMinus) == run_end(
                s,
                *curr_index as int,
                CharClass::DigitOrMinus,
            ),
            has_decimal ==> {
                let whole = run_end(s, start as int, CharClass::DigitOrMinus);
                &&& start <= whole < *curr_index
                &&& s[whole] == '.'
                &&& run_end(s, whole + 1, CharClass::Digit) == run_end(
                    s,
                    *curr_index as int,
                    CharClass::Digit,
                )
            },
        ensures
            number_end(s, start as int) == *curr_index,
        decreases chars.len() - *curr_index,
    {
        if *curr_index >= chars.len() {
            break ;
        }
        let ch = chars[*curr_index];
        if is_ascii_digit(ch) {
            unparsed_num.push(ch);
        } else if ch == '.' && !has_decimal {
            unparsed_num.push('.');
            has_decimal = true;
        } else if ch == '-' && !has_decimal {
            unparsed_num.push('-');
        } else {
            break ;
        }
        *curr_index += 1;
    }
    let end = *curr_index;
    match validate_number(slice_subrange(chars, start, end)) {
        None => {
            *curr_index = end - 1;
            Ok(Token::Number(unparsed_num))
        },
        Some(e) => Err(TokenizeError::ParseNumberError(e)),
    }
}

/// Scans the string whose opening quote is at the cursor.
///
/// The characters behind the opening quote are gathered unchanged, the
/// backslashes among them too, up to the first quote that no backslash
/// escapes, on which the cursor is left. A backslash escapes the character
/// behind it unless it is itself escaped. No escape sequence is decoded.
pub fn tokenize_string(chars: &[char], current_index: &mut usize) -> (r: Result<
    Token,
    TokenizeError,
>)
    ensures
        token_outcome(r) == string_scan(chars@, *old(current_index) as int).outcome,
        *final(current_index) == string_scan(chars@, *old(current_index) as int).cursor,
        *old(current_index) <= *final(current_index),
        *old(current_index) <= chars.len() ==> *final(current_index) <= chars.len(),
        r is Ok ==> *final(current_index) < chars.len(),
{
    let open = *current_index;
    let ghost s = chars@;
    proof {
        lemma_string_scan_cursor(s, open as int);
    }
    if open >= chars.len() {
        return Err(TokenizeError::UnclosedQuotes);
    }
    let mut string = String::new();
    let mut is_escaping = false;
    loop
        invariant
            s == chars@,
            open == *old(current_index),
            open <= *current_index < chars.len(),
            string@ == s.subrange(open + 1, *current_index + 1),
            is_escaping == escaping(s, open as int, *current_index + 1),
            closing_quote(s, open as int, open + 1) == closing_quote(
                s,
                open as int,
                *current_index + 1,
            ),
        decreases chars.len() - *current_index,
    {
        *current_index += 1;
        if *current_index >= chars.len() {
            return Err(TokenizeError::UnclosedQuotes);
        }
        let ch = chars[*current_index];
        if ch == '"' && !is_escaping {
            return Ok(Token::String(string));
        }
        if ch == '\\' {
            is_escaping = !is_escaping;
        } else {
            is_escaping = false;
        }
        string.push(ch);
    }
}

/// Scans the literal `string_value` at the cursor, and returns `token`
/// where the whole of it stands there, with the cursor on its last
/// character.
///
/// Where a character differs, or the input ends inside the literal, the
/// scan is refused at once, with the cursor at that place.
pub fn tokenize_literal(
    chars: &[char],
    index: &mut usize,
    string_value: String,
    token: Token,
) -> (r: Result<Token, TokenizeError>)
    requires
        string_value@.len() > 0,
    ensures
        token_outcome(r) == literal_scan(
            chars@,
            *old(index) as int,
            string_value@,
            token@,
        ).outcome,
        *final(index) == literal_scan(chars@, *old(index) as int, string_value@, token@).cursor,
        r matches Ok(found) ==> found == token,
        *old(index) <= *final(index),
        *old(index) <= chars.len() ==> *final(index) <= chars.len(),
        r is Ok ==> *final(index) < chars.len(),
{
    let from = *index;
    let ghost s = chars@;
    let ghost word = string_value@;
    proof {
        lemma_literal_scan_cursor(s, from as int, word, token@);
    }
    let text = string_value.as_str();
    let expected = text.chars();
    proof {
        axiom_spec_iter(text);
    }
    for expected_char in it: expected
        invariant
            s == chars@,
            word == string_value@,
            from == *old(index),
            it.seq() == word,
            *index == from + it.index(),
            *index <= chars.len() || it.index() == 0,
            agreement(s, from as int, word, 0) == agreement(s, from as int, word, it.index()),
            forall|j: int| 0 <= j < it.index() ==> s[from + j] == #[trigger] word[j],
    {
        if *index >= chars.len() || expected_char != chars[*index] {
            return Err(TokenizeError::UnfinishedLiteralValue);
        }
        *index += 1;
    }
    assert(s.subrange(from as int, from + word.len()) =~= word);
    *index -= 1;
    Ok(token)
}

} // verus!
