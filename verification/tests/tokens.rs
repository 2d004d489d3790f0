use kl::lexer::{
    ident, is_digit, is_ident_char, is_ident_start, is_letter, is_space, is_value_char,
    skip_blank, skip_line, to_lower, token, ws, Cursor, LexError, Span, Token,
};

fn unexpected(position: usize, expected: Token) -> LexError {
    LexError::UnexpectedToken { position, expected }
}

#[test]
fn byte_classes() {
    for byte in [b' ', b'\t', b'\n', b'\r'] {
        assert!(is_space(byte));
        assert!(!is_value_char(byte));
    }
    assert!(!is_space(b'a'));
    assert!(!is_space(0x0b));
    assert!(is_letter(b'a') && is_letter(b'z') && is_letter(b'A') && is_letter(b'Z'));
    assert!(!is_letter(b'@') && !is_letter(b'[') && !is_letter(b'`') && !is_letter(b'{'));
    assert!(is_digit(b'0') && is_digit(b'9'));
    assert!(!is_digit(b'/') && !is_digit(b':'));
    assert!(is_ident_start(b'_') && is_ident_start(b'q'));
    assert!(!is_ident_start(b'7'));
    assert!(is_ident_char(b'7') && is_ident_char(b'_') && is_ident_char(b'Q'));
    assert!(!is_ident_char(b'-') && !is_ident_char(0xc3));
    assert!(is_value_char(b'5') && is_value_char(b'"') && is_value_char(b'{'));
    assert!(!is_value_char(b',') && !is_value_char(b';'));
    assert_eq!(to_lower(b'V'), b'v');
    assert_eq!(to_lower(b'v'), b'v');
    assert_eq!(to_lower(b'A'), b'a');
    assert_eq!(to_lower(b'Z'), b'z');
    assert_eq!(to_lower(b'@'), b'@');
    assert_eq!(to_lower(b'['), b'[');
    assert_eq!(to_lower(b';'), b';');
}

#[test]
fn an_identifier_is_consumed_whole() {
    for word in ["x", "int", "Point", "_", "_private", "a1", "snake_case_9", "ALLCAPS", "__init__"] {
        assert_eq!(ident(word.as_bytes(), 0), Ok(word.len()), "{}", word);
    }
}

#[test]
fn an_identifier_stops_at_the_first_other_byte() {
    assert_eq!(ident(b"abc def", 0), Ok(3));
    assert_eq!(ident(b"abc,def", 0), Ok(3));
    assert_eq!(ident(b"abc-def", 0), Ok(3));
    assert_eq!(ident(b"a;", 0), Ok(1));
    assert_eq!(ident(b"var x", 4), Ok(5));
    assert_eq!(ident("na\u{ef}ve".as_bytes(), 0), Ok(2));
}

#[test]
fn an_identifier_is_not_empty() {
    assert_eq!(ident(b"", 0), Err(unexpected(0, Token::Identifier)));
    assert_eq!(ident(b"   ", 0), Err(unexpected(0, Token::Identifier)));
    assert_eq!(ident(b" x", 0), Err(unexpected(0, Token::Identifier)));
    assert_eq!(ident(b",;{}", 0), Err(unexpected(0, Token::Identifier)));
    assert_eq!(ident(b"abc", 3), Err(unexpected(3, Token::Identifier)));
    assert_eq!(ident(b"abc", 17), Err(unexpected(17, Token::Identifier)));
}

#[test]
fn an_identifier_does_not_begin_with_a_digit() {
    assert_eq!(ident(b"1abc", 0), Err(unexpected(0, Token::Identifier)));
    assert_eq!(ident(b"9", 0), Err(unexpected(0, Token::Identifier)));
    assert_eq!(ident(b"a1", 0), Ok(2));
    assert_eq!(ident(b"_1", 0), Ok(2));
}

#[test]
fn a_line_ends_at_the_line_feed() {
    assert_eq!(skip_line(b"abc\ndef", 0), 3);
    assert_eq!(skip_line(b"abc\ndef", 3), 3);
    assert_eq!(skip_line(b"abc\ndef", 4), 7);
    assert_eq!(skip_line(b"abc\r\ndef", 0), 4);
    assert_eq!(skip_line(b"", 0), 0);
    assert_eq!(skip_line(b"abc", 9), 9);
}

#[test]
fn blank_space_is_whitespace_and_comments() {
    assert_eq!(skip_blank(b"", 0), 0);
    assert_eq!(skip_blank(b"x", 0), 0);
    assert_eq!(skip_blank(b"   x", 0), 3);
    assert_eq!(skip_blank(b" \t\r\n x", 0), 5);
    assert_eq!(skip_blank(b" \t\r\n ", 0), 5);
    assert_eq!(skip_blank(b"\n\n\nx", 0), 3);
    assert_eq!(skip_blank(b"// note\nx", 0), 8);
    assert_eq!(skip_blank(b"  // note\n  // more\n  x", 0), 22);
    assert_eq!(skip_blank(b"// note", 0), 7);
    assert_eq!(skip_blank(b"//", 0), 2);
    assert_eq!(skip_blank(b"//\nx", 0), 3);
    assert_eq!(skip_blank(b"a  b", 1), 3);
    assert_eq!(skip_blank(b"ab", 5), 5);
}

#[test]
fn a_single_slash_is_not_blank() {
    assert_eq!(skip_blank(b"/ x", 0), 0);
    assert_eq!(skip_blank(b"  /x", 0), 2);
    assert_eq!(skip_blank(b"/", 0), 0);
    assert_eq!(skip_blank(b" /", 0), 1);
}

#[test]
fn keywords_are_written_in_any_case() {
    for text in ["var", "VAR", "Var", "vAr", "vaR"] {
        assert_eq!(token(text.as_bytes(), 0, Token::Var), Some(3), "{}", text);
    }
    assert_eq!(token(b"record", 0, Token::Record), Some(6));
    assert_eq!(token(b"RECORD", 0, Token::Record), Some(6));
    assert_eq!(token(b"Tuple", 0, Token::Tuple), Some(5));
    assert_eq!(token(b"tuple{", 0, Token::Tuple), Some(5));
    assert_eq!(token(b"va", 0, Token::Var), None);
    assert_eq!(token(b"vbr", 0, Token::Var), None);
    assert_eq!(token(b"", 0, Token::Var), None);
    assert_eq!(token(b"xvar", 0, Token::Var), None);
    assert_eq!(token(b"xvar", 1, Token::Var), Some(4));
    assert_eq!(token(b"var", 1, Token::Var), None);
    assert_eq!(token(b"var", 3, Token::Var), None);
    assert_eq!(token(b"var", usize::MAX, Token::Var), None);
    assert_eq!(token(b"record", 0, Token::Tuple), None);
    assert_eq!(token(b"tuple", 0, Token::Record), None);
    assert_eq!(token(b"recor", 0, Token::Record), None);
}

#[test]
fn a_keyword_need_not_be_followed_by_blank_space() {
    assert_eq!(token(b"varx", 0, Token::Var), Some(3));
    assert_eq!(token(b"variable", 0, Token::Var), Some(3));
}

#[test]
fn punctuation() {
    assert_eq!(token(b",", 0, Token::Comma), Some(1));
    assert_eq!(token(b";", 0, Token::Semicolon), Some(1));
    assert_eq!(token(b"{", 0, Token::OpenBrace), Some(1));
    assert_eq!(token(b"}", 0, Token::CloseBrace), Some(1));
    assert_eq!(token(b";", 0, Token::Comma), None);
    assert_eq!(token(b",", 0, Token::Semicolon), None);
    assert_eq!(token(b"}", 0, Token::OpenBrace), None);
    assert_eq!(token(b"{", 0, Token::CloseBrace), None);
    assert_eq!(token(b"[", 0, Token::OpenBrace), None);
    assert_eq!(token(b"]", 0, Token::CloseBrace), None);
    assert_eq!(token(b"L", 0, Token::Comma), None);
    assert_eq!(token(b"", 0, Token::Comma), None);
    assert_eq!(token(b"a,", 1, Token::Comma), Some(2));
}

#[test]
fn identifier_and_value_tokens() {
    assert_eq!(token(b"abc;", 0, Token::Identifier), Some(3));
    assert_eq!(token(b"1abc", 0, Token::Identifier), None);
    assert_eq!(token(b"5;", 0, Token::Value), Some(1));
    assert_eq!(token(b"3.14 ;", 0, Token::Value), Some(4));
    assert_eq!(token(b"\"text\",", 0, Token::Value), Some(6));
    assert_eq!(token(b"-12", 0, Token::Value), Some(3));
    assert_eq!(token(b"http://x;", 0, Token::Value), Some(8));
    assert_eq!(token(b"{}", 0, Token::Value), Some(2));
    assert_eq!(token(b";", 0, Token::Value), None);
    assert_eq!(token(b",", 0, Token::Value), None);
    assert_eq!(token(b" 5", 0, Token::Value), None);
    assert_eq!(token(b"", 0, Token::Value), None);
    assert_eq!(token(b"5", 1, Token::Value), None);
}

#[test]
fn a_fresh_cursor_marks_where_it_stands() {
    assert_eq!(Cursor::new(0), Cursor { at: 0, mark: 0 });
    assert_eq!(Cursor::new(7), Cursor { at: 7, mark: 7 });
}

#[test]
fn blank_space_is_skipped_on_both_sides_of_a_token() {
    assert_eq!(
        ws(b"  abc  ,", Cursor::new(0), Token::Identifier),
        Ok((Span { start: 2, end: 5 }, Cursor { at: 7, mark: 5 }))
    );
    assert_eq!(
        ws(b"abc", Cursor::new(0), Token::Identifier),
        Ok((Span { start: 0, end: 3 }, Cursor { at: 3, mark: 3 }))
    );
    assert_eq!(
        ws(b"\n\n ; // done\n\n", Cursor::new(0), Token::Semicolon),
        Ok((Span { start: 3, end: 4 }, Cursor { at: 14, mark: 4 }))
    );
    assert_eq!(
        ws(b"// first\nVAR// second\nx", Cursor::new(0), Token::Var),
        Ok((Span { start: 9, end: 12 }, Cursor { at: 22, mark: 12 }))
    );
    assert_eq!(
        ws(b"a , b", Cursor { at: 2, mark: 1 }, Token::Comma),
        Ok((Span { start: 2, end: 3 }, Cursor { at: 4, mark: 3 }))
    );
}

#[test]
fn a_missing_token_is_reported_at_the_mark() {
    assert_eq!(
        ws(b"x   int", Cursor { at: 4, mark: 1 }, Token::Comma),
        Err(unexpected(1, Token::Comma))
    );
    assert_eq!(ws(b"   ", Cursor::new(0), Token::Identifier), Err(unexpected(0, Token::Identifier)));
    assert_eq!(ws(b"", Cursor::new(0), Token::Var), Err(unexpected(0, Token::Var)));
    assert_eq!(ws(b"  }", Cursor::new(0), Token::OpenBrace), Err(unexpected(0, Token::OpenBrace)));
    assert_eq!(ws(b"abc", Cursor::new(9), Token::Identifier), Err(unexpected(9, Token::Identifier)));
    assert_eq!(
        ws(b"// only a comment", Cursor::new(0), Token::Identifier),
        Err(unexpected(0, Token::Identifier))
    );
}

#[test]
fn a_comment_hides_the_rest_of_its_line() {
    assert_eq!(
        ws(b"// x\ny", Cursor::new(0), Token::Identifier),
        Ok((Span { start: 5, end: 6 }, Cursor { at: 6, mark: 6 }))
    );
    assert_eq!(ws(b"// ,", Cursor::new(0), Token::Comma), Err(unexpected(0, Token::Comma)));
}
