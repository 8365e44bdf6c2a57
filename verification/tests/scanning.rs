use json_tokenizer::classes::{is_ascii_digit, is_ascii_whitespace};
use json_tokenizer::text::to_chars;
use json_tokenizer::token::{NumberError, Token, TokenizeError};
use json_tokenizer::tokenize::{
    make_token, tokenize, tokenize_float, tokenize_literal, tokenize_string, validate_number,
};

fn chars_of(text: &str) -> Vec<char> {
    text.chars().collect()
}

fn number(text: &str) -> Token {
    Token::Number(String::from(text))
}

fn scan(text: &str) -> Result<Vec<Token>, TokenizeError> {
    tokenize(String::from(text))
}

#[test]
fn empty_input_has_no_tokens() {
    assert_eq!(scan(""), Ok(vec![]));
}

#[test]
fn whitespace_only_is_unexpected_eof() {
    for text in [" ", "  ", "\t", "\n", "\r", "\x0C", " \t\n\r\x0C ", "\r\n\r\n"] {
        assert_eq!(scan(text), Err(TokenizeError::UnexpectedEof), "input {:?}", text);
    }
}

#[test]
fn trailing_whitespace_is_unexpected_eof() {
    assert_eq!(scan("true "), Err(TokenizeError::UnexpectedEof));
    assert_eq!(scan("[1, 2]\n"), Err(TokenizeError::UnexpectedEof));
}

#[test]
fn leading_whitespace_is_passed_over() {
    assert_eq!(scan(" \t\r\n\x0Ctrue"), Ok(vec![Token::True]));
    assert_eq!(scan("[ \n]"), Ok(vec![Token::LeftBracket, Token::RightBracket]));
}

#[test]
fn vertical_tab_is_no_whitespace() {
    assert_eq!(scan("\x0B"), Err(TokenizeError::CharNotRecognized('\x0B')));
    assert!(!is_ascii_whitespace('\x0B'));
    assert!(!is_ascii_whitespace('\u{A0}'));
}

#[test]
fn character_classes() {
    for c in [' ', '\t', '\n', '\x0C', '\r'] {
        assert!(is_ascii_whitespace(c));
        assert_eq!(is_ascii_whitespace(c), c.is_ascii_whitespace());
    }
    for code in 0u32..0x250 {
        let c = char::from_u32(code).unwrap();
        assert_eq!(is_ascii_whitespace(c), c.is_ascii_whitespace(), "{:?}", c);
        assert_eq!(is_ascii_digit(c), c.is_ascii_digit(), "{:?}", c);
    }
    assert!(is_ascii_digit('0') && is_ascii_digit('9'));
    assert!(!is_ascii_digit('/') && !is_ascii_digit(':'));
    assert!(!is_ascii_digit('\u{0661}'));
}

#[test]
fn punctuation_one_token_per_character() {
    let marks = ['[', ']', '{', '}', ',', ':'];
    let tokens = [
        Token::LeftBracket,
        Token::RightBracket,
        Token::LeftBrace,
        Token::RightBrace,
        Token::Comma,
        Token::Colon,
    ];
    for a in 0..6 {
        for b in 0..6 {
            for c in 0..6 {
                let text: String = [marks[a], marks[b], marks[c]].iter().collect();
                let expected = vec![tokens[a].clone(), tokens[b].clone(), tokens[c].clone()];
                assert_eq!(tokenize(text), Ok(expected));
            }
        }
    }
    assert_eq!(
        scan("}}]],,::[[{{"),
        Ok(vec![
            Token::RightBrace,
            Token::RightBrace,
            Token::RightBracket,
            Token::RightBracket,
            Token::Comma,
            Token::Comma,
            Token::Colon,
            Token::Colon,
            Token::LeftBracket,
            Token::LeftBracket,
            Token::LeftBrace,
            Token::LeftBrace,
        ])
    );
}

#[test]
fn unrecognized_character_is_reported() {
    assert_eq!(scan("@"), Err(TokenizeError::CharNotRecognized('@')));
    assert_eq!(scan("@true"), Err(TokenizeError::CharNotRecognized('@')));
    assert_eq!(scan("  #"), Err(TokenizeError::CharNotRecognized('#')));
    assert_eq!(scan("[x]"), Err(TokenizeError::CharNotRecognized('x')));
    assert_eq!(scan("é"), Err(TokenizeError::CharNotRecognized('é')));
    assert_eq!(scan("N"), Err(TokenizeError::CharNotRecognized('N')));
    assert_eq!(scan("'a'"), Err(TokenizeError::CharNotRecognized('\'')));
}

#[test]
fn sign_or_point_starts_no_token() {
    assert_eq!(scan("-5"), Err(TokenizeError::CharNotRecognized('-')));
    assert_eq!(scan(".5"), Err(TokenizeError::CharNotRecognized('.')));
    assert_eq!(scan("+5"), Err(TokenizeError::CharNotRecognized('+')));
}

#[test]
fn same_input_same_tokens() {
    for text in ["{\"key\": [1, 2.5, null, true, false]}", "nul", " ", "\"open", "1-2", "@", ""] {
        let first = scan(text);
        let second = scan(text);
        assert_eq!(first, second);
    }
}

#[test]
fn keywords_in_sequence() {
    assert_eq!(
        scan("[null,true,false]"),
        Ok(vec![
            Token::LeftBracket,
            Token::Null,
            Token::Comma,
            Token::True,
            Token::Comma,
            Token::False,
            Token::RightBracket,
        ])
    );
    assert_eq!(scan("nullnull"), Ok(vec![Token::Null, Token::Null]));
    assert_eq!(scan("truefalse"), Ok(vec![Token::True, Token::False]));
}

#[test]
fn unfinished_literals() {
    for text in ["n", "nu", "nul", "nulL", "nill", "t", "tru", "trux", "f", "fals", "falsy", "fa lse"] {
        assert_eq!(scan(text), Err(TokenizeError::UnfinishedLiteralValue), "input {:?}", text);
    }
    assert_eq!(scan("[tru]"), Err(TokenizeError::UnfinishedLiteralValue));
}

#[test]
fn literal_scanner_leaves_cursor_on_last_character() {
    let chars = chars_of("xnull,");
    let mut index = 1;
    let token = tokenize_literal(&chars, &mut index, String::from("null"), Token::Null);
    assert_eq!(token, Ok(Token::Null));
    assert_eq!(index, 4);
}

#[test]
fn literal_scanner_matches_at_input_start() {
    let chars = chars_of("a");
    let mut index = 0;
    let token = tokenize_literal(&chars, &mut index, String::from("a"), Token::True);
    assert_eq!(token, Ok(Token::True));
    assert_eq!(index, 0);
}

#[test]
fn literal_scanner_stops_at_first_difference() {
    let chars = chars_of("nuxl");
    let mut index = 0;
    let token = tokenize_literal(&chars, &mut index, String::from("null"), Token::Null);
    assert_eq!(token, Err(TokenizeError::UnfinishedLiteralValue));
    assert_eq!(index, 2);
}

#[test]
fn literal_scanner_stops_at_end_of_input() {
    let chars = chars_of("fal");
    let mut index = 0;
    let token = tokenize_literal(&chars, &mut index, String::from("false"), Token::False);
    assert_eq!(token, Err(TokenizeError::UnfinishedLiteralValue));
    assert_eq!(index, 3);

    let mut index = 7;
    let token = tokenize_literal(&chars, &mut index, String::from("false"), Token::False);
    assert_eq!(token, Err(TokenizeError::UnfinishedLiteralValue));
    assert_eq!(index, 7);
}

#[test]
fn literal_scanner_returns_the_given_token() {
    let chars = chars_of("yes");
    let mut index = 0;
    let token = tokenize_literal(&chars, &mut index, String::from("yes"), Token::string("y"));
    assert_eq!(token, Ok(Token::string("y")));
    assert_eq!(index, 2);
}

#[test]
fn numbers_keep_their_text() {
    assert_eq!(scan("0"), Ok(vec![number("0")]));
    assert_eq!(scan("007"), Ok(vec![number("007")]));
    assert_eq!(scan("1."), Ok(vec![number("1.")]));
    assert_eq!(scan("3.14159"), Ok(vec![number("3.14159")]));
    assert_eq!(
        scan("123456789012345678901234567890"),
        Ok(vec![number("123456789012345678901234567890")])
    );
}

#[test]
fn number_values_are_those_of_the_text() {
    let tokens = scan("[100,1.23,0.5,7.]").unwrap();
    let mut values = Vec::new();
    for token in &tokens {
        if let Token::Number(text) = token {
            values.push(text.parse::<f64>().unwrap());
        }
    }
    assert_eq!(values, vec![100.0, 1.23, 0.5, 7.0]);
}

#[test]
fn scanned_numbers_are_float_literals() {
    for text in ["0", "[1,22,3.5]", "{\"a\":10.,\"b\":000}", "9 8.7 6", "1.5true", "12\"x\"34"] {
        let tokens = scan(text).unwrap();
        let mut numbers = 0;
        for token in &tokens {
            if let Token::Number(number) = token {
                numbers += 1;
                assert!(number.chars().next().unwrap().is_ascii_digit(), "in {:?}", text);
                assert!(number.parse::<f64>().is_ok(), "in {:?}", text);
                assert_eq!(validate_number(&chars_of(number)), None);
            }
        }
        assert!(numbers > 0);
    }
}

#[test]
fn character_behind_a_number_is_kept() {
    assert_eq!(scan("1,2"), Ok(vec![number("1"), Token::Comma, number("2")]));
    assert_eq!(
        scan("[10,2.5]"),
        Ok(vec![
            Token::LeftBracket,
            number("10"),
            Token::Comma,
            number("2.5"),
            Token::RightBracket,
        ])
    );
    assert_eq!(scan("1 2"), Ok(vec![number("1"), number("2")]));
    assert_eq!(scan("1true"), Ok(vec![number("1"), Token::True]));
    assert_eq!(scan("1\"a\""), Ok(vec![number("1"), Token::string("a")]));
    assert_eq!(
        scan("{\"n\":12}"),
        Ok(vec![
            Token::LeftBrace,
            Token::string("n"),
            Token::Colon,
            number("12"),
            Token::RightBrace,
        ])
    );
}

#[test]
fn second_point_ends_a_number() {
    assert_eq!(scan("1.2.3"), Err(TokenizeError::CharNotRecognized('.')));
    assert_eq!(scan("1.-2"), Err(TokenizeError::CharNotRecognized('-')));
    let chars = chars_of("1.2.3");
    let mut index = 0;
    assert_eq!(tokenize_float(&chars, &mut index), Ok(number("1.2")));
    assert_eq!(index, 2);
}

#[test]
fn minus_inside_a_number_is_gathered_and_refused() {
    let invalid = Err(TokenizeError::ParseNumberError(NumberError::Invalid));
    assert_eq!(scan("1-2"), invalid);
    assert_eq!(scan("1-"), invalid);
    assert_eq!(scan("12-.5"), invalid);
    assert_eq!(scan("[1--2]"), invalid);
    let chars = chars_of("1-2,");
    let mut index = 0;
    assert_eq!(
        tokenize_float(&chars, &mut index),
        Err(TokenizeError::ParseNumberError(NumberError::Invalid))
    );
    assert_eq!(index, 3);
}

#[test]
fn number_scanner_on_its_own() {
    let invalid = Err(TokenizeError::ParseNumberError(NumberError::Invalid));
    let empty = Err(TokenizeError::ParseNumberError(NumberError::Empty));

    let chars = chars_of("-");
    let mut index = 0;
    assert_eq!(tokenize_float(&chars, &mut index), invalid);
    assert_eq!(index, 1);

    let chars = chars_of(".");
    let mut index = 0;
    assert_eq!(tokenize_float(&chars, &mut index), invalid);
    assert_eq!(index, 1);

    let chars = chars_of("x1");
    let mut index = 0;
    assert_eq!(tokenize_float(&chars, &mut index), empty);
    assert_eq!(index, 0);

    let chars = chars_of("");
    let mut index = 0;
    assert_eq!(tokenize_float(&chars, &mut index), empty);
    assert_eq!(index, 0);

    let chars = chars_of("12");
    let mut index = 2;
    assert_eq!(tokenize_float(&chars, &mut index), empty);
    assert_eq!(index, 2);
    let mut index = 9;
    assert_eq!(tokenize_float(&chars, &mut index), empty);
    assert_eq!(index, 9);

    let chars = chars_of("-12.50]");
    let mut index = 0;
    assert_eq!(tokenize_float(&chars, &mut index), Ok(number("-12.50")));
    assert_eq!(index, 5);

    let chars = chars_of("-.5");
    let mut index = 0;
    assert_eq!(tokenize_float(&chars, &mut index), Ok(number("-.5")));
    assert_eq!(index, 2);

    let chars = chars_of("ab42");
    let mut index = 2;
    assert_eq!(tokenize_float(&chars, &mut index), Ok(number("42")));
    assert_eq!(index, 3);
}

#[test]
fn number_texts_are_judged_as_float_literals() {
    let empty = "".parse::<f64>().unwrap_err();
    let invalid = "-".parse::<f64>().unwrap_err();
    assert_ne!(empty, invalid);
    let alphabet = ['0', '7', '9', '.', '-'];
    let mut texts = vec![String::new()];
    let mut from = 0;
    for _ in 0..5 {
        let until = texts.len();
        for i in from..until {
            for c in alphabet {
                let mut longer = texts[i].clone();
                longer.push(c);
                texts.push(longer);
            }
        }
        from = until;
    }
    assert_eq!(texts.len(), 1 + 5 + 25 + 125 + 625 + 3125);
    for text in &texts {
        let judged = validate_number(&chars_of(text));
        match text.parse::<f64>() {
            Ok(_) => assert_eq!(judged, None, "text {:?}", text),
            Err(e) if e == empty => assert_eq!(judged, Some(NumberError::Empty), "text {:?}", text),
            Err(_) => assert_eq!(judged, Some(NumberError::Invalid), "text {:?}", text),
        }
    }
}

#[test]
fn number_text_examples() {
    assert_eq!(validate_number(&chars_of("")), Some(NumberError::Empty));
    assert_eq!(validate_number(&chars_of("-")), Some(NumberError::Invalid));
    assert_eq!(validate_number(&chars_of(".")), Some(NumberError::Invalid));
    assert_eq!(validate_number(&chars_of("-.")), Some(NumberError::Invalid));
    assert_eq!(validate_number(&chars_of("1.2.3")), Some(NumberError::Invalid));
    assert_eq!(validate_number(&chars_of("--1")), Some(NumberError::Invalid));
    assert_eq!(validate_number(&chars_of("1-")), Some(NumberError::Invalid));
    assert_eq!(validate_number(&chars_of("1a")), Some(NumberError::Invalid));
    assert_eq!(validate_number(&chars_of("1")), None);
    assert_eq!(validate_number(&chars_of("-1")), None);
    assert_eq!(validate_number(&chars_of("1.")), None);
    assert_eq!(validate_number(&chars_of(".1")), None);
    assert_eq!(validate_number(&chars_of("-0.25")), None);
}

#[test]
fn strings_keep_their_characters() {
    assert_eq!(scan("\"\""), Ok(vec![Token::string("")]));
    assert_eq!(scan("\" a b \""), Ok(vec![Token::string(" a b ")]));
    assert_eq!(scan("\"[1,true]\""), Ok(vec![Token::string("[1,true]")]));
    assert_eq!(scan("\"é∑\""), Ok(vec![Token::string("é∑")]));
    assert_eq!(scan(r#""a\nb""#), Ok(vec![Token::string(r"a\nb")]));
    assert_eq!(scan(r#""é""#), Ok(vec![Token::string(r"é")]));
    assert_eq!(scan("\"a\"\"b\""), Ok(vec![Token::string("a"), Token::string("b")]));
}

#[test]
fn backslashes_toggle_the_escape() {
    assert_eq!(scan(r#""a\\""#), Ok(vec![Token::string(r"a\\")]));
    assert_eq!(scan(r#""a\""#), Err(TokenizeError::UnclosedQuotes));
    assert_eq!(scan(r#""a\\\""#), Err(TokenizeError::UnclosedQuotes));
    assert_eq!(scan(r#""a\\\"""#), Ok(vec![Token::string(r#"a\\\""#)]));
    assert_eq!(scan(r#""\x"""#), Err(TokenizeError::UnclosedQuotes));
    assert_eq!(scan(r#""\"\"""#), Ok(vec![Token::string(r#"\"\""#)]));
}

#[test]
fn unclosed_strings() {
    assert_eq!(scan("\""), Err(TokenizeError::UnclosedQuotes));
    assert_eq!(scan("\"abc"), Err(TokenizeError::UnclosedQuotes));
    assert_eq!(scan("[\"abc]"), Err(TokenizeError::UnclosedQuotes));
    assert_eq!(scan("\"a\" \"b"), Err(TokenizeError::UnclosedQuotes));
}

#[test]
fn string_scanner_on_its_own() {
    let chars = chars_of("x\"ab\"y");
    let mut index = 1;
    assert_eq!(tokenize_string(&chars, &mut index), Ok(Token::string("ab")));
    assert_eq!(index, 4);

    let chars = chars_of("\"ab");
    let mut index = 0;
    assert_eq!(tokenize_string(&chars, &mut index), Err(TokenizeError::UnclosedQuotes));
    assert_eq!(index, 3);

    let mut index = 3;
    assert_eq!(tokenize_string(&chars, &mut index), Err(TokenizeError::UnclosedQuotes));
    assert_eq!(index, 3);
    let mut index = 8;
    assert_eq!(tokenize_string(&chars, &mut index), Err(TokenizeError::UnclosedQuotes));
    assert_eq!(index, 8);
}

#[test]
fn one_token_at_a_time() {
    let chars = chars_of("  {\"k\": true}");
    let mut index = 0;
    let mut seen = Vec::new();
    while index < chars.len() {
        let token = make_token(&chars, &mut index).unwrap();
        seen.push((token, index));
        index += 1;
    }
    assert_eq!(
        seen,
        vec![
            (Token::LeftBrace, 2),
            (Token::string("k"), 5),
            (Token::Colon, 6),
            (Token::True, 11),
            (Token::RightBrace, 12),
        ]
    );
}

#[test]
fn one_token_cursor_on_errors() {
    let chars = chars_of("  ");
    let mut index = 0;
    assert_eq!(make_token(&chars, &mut index), Err(TokenizeError::UnexpectedEof));
    assert_eq!(index, 2);
    let mut index = 2;
    assert_eq!(make_token(&chars, &mut index), Err(TokenizeError::UnexpectedEof));
    assert_eq!(index, 2);
    let mut index = 5;
    assert_eq!(make_token(&chars, &mut index), Err(TokenizeError::UnexpectedEof));
    assert_eq!(index, 5);

    let chars = chars_of(" ?");
    let mut index = 0;
    assert_eq!(make_token(&chars, &mut index), Err(TokenizeError::CharNotRecognized('?')));
    assert_eq!(index, 1);

    let chars = chars_of(" trap");
    let mut index = 0;
    assert_eq!(make_token(&chars, &mut index), Err(TokenizeError::UnfinishedLiteralValue));
    assert_eq!(index, 3);
}

#[test]
fn first_error_wins() {
    assert_eq!(scan("[1-2, @"), Err(TokenizeError::ParseNumberError(NumberError::Invalid)));
    assert_eq!(scan("@ 1-2"), Err(TokenizeError::CharNotRecognized('@')));
    assert_eq!(scan("nul \"open"), Err(TokenizeError::UnfinishedLiteralValue));
    assert_eq!(scan("\"open nul"), Err(TokenizeError::UnclosedQuotes));
}

#[test]
fn structure_is_not_judged() {
    assert_eq!(
        scan("}{]:,"),
        Ok(vec![
            Token::RightBrace,
            Token::LeftBrace,
            Token::RightBracket,
            Token::Colon,
            Token::Comma,
        ])
    );
}

#[test]
fn string_token_from_text() {
    assert_eq!(Token::string("ken"), Token::String(String::from("ken")));
    assert_eq!(Token::string(""), Token::String(String::new()));
    assert_ne!(Token::string("ken"), Token::Number(String::from("ken")));
}

#[test]
fn text_to_characters() {
    assert_eq!(to_chars(""), Vec::<char>::new());
    assert_eq!(to_chars("a\"é∑"), vec!['a', '"', 'é', '∑']);
}
