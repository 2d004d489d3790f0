use kl::lexer::{is_ident_char, is_letter, is_space, skip_blank, token, Token};
use nom::bytes::complete::{tag_no_case, take_while1};
use nom::character::complete::{char, multispace0};
use nom::error::Error;
use nom::AsChar;

const TEXTS: [&str; 14] = [
    "",
    " ",
    "x",
    "   x",
    " \t\r\n x y",
    "\n\n\n",
    "var x, int;",
    "VAR x",
    "vAr",
    "va",
    ", x",
    ";",
    "record Point { }",
    "tuple{}",
];

#[test]
fn whitespace_is_what_multispace0_takes() {
    for text in TEXTS {
        let (_, taken) = multispace0::<&str, Error<&str>>(text).unwrap();
        assert_eq!(skip_blank(text.as_bytes(), 0), taken.len(), "{:?}", text);
    }
    for byte in 0..=255u8 {
        let text = [byte];
        let (_, taken) = multispace0::<&[u8], Error<&[u8]>>(&text[..]).unwrap();
        assert_eq!(is_space(byte), taken.len() == 1, "{}", byte);
    }
}

#[test]
fn letters_and_digits_are_what_nom_calls_alphanumeric() {
    for byte in 0..=255u8 {
        assert_eq!(is_letter(byte), byte.is_alpha(), "{}", byte);
        assert_eq!(is_ident_char(byte), byte.is_alphanum() || byte == b'_', "{}", byte);
    }
}

#[test]
fn keywords_match_as_tag_no_case_does() {
    for text in TEXTS {
        for (word, kind) in [("var", Token::Var), ("record", Token::Record), ("tuple", Token::Tuple)] {
            let theirs = tag_no_case::<&str, &str, Error<&str>>(word)(text);
            let ours = token(text.as_bytes(), 0, kind);
            assert_eq!(ours, theirs.ok().map(|(_, taken)| taken.len()), "{:?} {:?}", word, text);
        }
    }
}

#[test]
fn punctuation_matches_as_char_does() {
    for text in TEXTS {
        for (mark, kind) in [
            (',', Token::Comma),
            (';', Token::Semicolon),
            ('{', Token::OpenBrace),
            ('}', Token::CloseBrace),
        ] {
            let theirs = char::<&str, Error<&str>>(mark)(text);
            let ours = token(text.as_bytes(), 0, kind);
            assert_eq!(ours.is_some(), theirs.is_ok(), "{:?} {:?}", mark, text);
        }
    }
}

#[test]
fn an_identifier_is_a_run_of_alphanumerics_and_underscores() {
    for text in ["x", "int;", "snake_case rest", "_a1,", "Point{", "a-b"] {
        let (_, taken) =
            take_while1::<_, &str, Error<&str>>(|c: char| c.is_alphanum() || c == '_')(text).unwrap();
        assert_eq!(token(text.as_bytes(), 0, Token::Identifier), Some(taken.len()), "{:?}", text);
    }
}
