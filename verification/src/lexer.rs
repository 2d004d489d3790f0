//! Tokenizing primitives.
//!
//! The text is a sequence of bytes and every position is an offset into it.
//! Tokens are recognized one at a time at a given offset; blank space, which
//! is whitespace and `//` line comments, separates them and carries no
//! meaning. [`ws`] is the one place where blank space is skipped: every rule
//! of the grammar reads its tokens through it.
//!
//! A cursor remembers two offsets: where scanning resumes, behind the blank
//! space that followed the last token, and where that token itself ended. A
//! missing token is reported at the second, so that a fault points right
//! behind the text that was accepted, however much blank space follows it.

use vstd::prelude::*;

verus! {

/// The horizontal tab.
pub const TAB: u8 = 0x09;

/// The line feed, which ends a line and with it a comment.
pub const LINE_FEED: u8 = 0x0a;

/// The carriage return.
pub const CARRIAGE_RETURN: u8 = 0x0d;

/// The space.
pub const SPACE: u8 = 0x20;

/// `,`
pub const COMMA: u8 = 0x2c;

/// `/`, two of which begin a comment.
pub const SLASH: u8 = 0x2f;

/// `;`
pub const SEMICOLON: u8 = 0x3b;

/// `_`
pub const UNDERSCORE: u8 = 0x5f;

/// `{`
pub const OPEN_BRACE: u8 = 0x7b;

/// `}`
pub const CLOSE_BRACE: u8 = 0x7d;

/// The kinds of token the grammar is made of.
#[derive(Clone, Copy, Debug, PartialEq, Eq, Structural)]
pub enum Token {
    /// A letter or an underscore, then as many letters, digits and
    /// underscores as follow. Letters and digits are those of ASCII.
    Identifier,
    /// As many bytes other than whitespace, `,` and `;` as follow one another,
    /// and at least one.
    Value,
    /// The three letters `var`, each in either case. What follows them is not
    /// looked at: `varx` reads as `var` and `x`.
    Var,
    /// The six letters `record`, each in either case.
    Record,
    /// The five letters `tuple`, each in either case.
    Tuple,
    /// `,`
    Comma,
    /// `;`
    Semicolon,
    /// `{`
    OpenBrace,
    /// `}`
    CloseBrace,
}

/// Why parsing stopped.
#[derive(Clone, Copy, Debug, PartialEq, Eq, Structural)]
pub enum LexError {
    /// The text does not go on with the token `expected`. `position` is the
    /// offset at which the last token accepted ended, or the offset at which
    /// parsing began where none was accepted.
    UnexpectedToken { position: usize, expected: Token },
}

/// The mathematical content of a [`LexError`].
pub struct Fault {
    /// The offset at which the last token accepted ended.
    pub position: int,
    /// The token that does not follow there.
    pub expected: Token,
}

impl View for LexError {
    type V = Fault;

    open spec fn view(&self) -> Fault {
        match *self {
            LexError::UnexpectedToken { position, expected } => Fault {
                position: position as int,
                expected,
            },
        }
    }
}

/// The bytes `start..end` of the text.
#[derive(Clone, Copy, Debug, PartialEq, Eq, Structural)]
pub struct Span {
    /// The offset of the first byte.
    pub start: usize,
    /// The offset behind the last byte.
    pub end: usize,
}

impl View for Span {
    type V = (int, int);

    open spec fn view(&self) -> (int, int) {
        (self.start as int, self.end as int)
    }
}

/// Where parsing stands: scanning resumes at `at`, and the last token
/// accepted ended at `mark`. Only blank space lies between the two.
#[derive(Clone, Copy, Debug, PartialEq, Eq, Structural)]
pub struct Cursor {
    /// The offset at which scanning resumes.
    pub at: usize,
    /// The offset at which the last token accepted ended.
    pub mark: usize,
}

/// The mathematical content of a [`Cursor`].
pub struct Place {
    /// The offset at which scanning resumes.
    pub at: int,
    /// The offset at which the last token accepted ended.
    pub mark: int,
}

impl View for Cursor {
    type V = Place;

    open spec fn view(&self) -> Place {
        Place { at: self.at as int, mark: self.mark as int }
    }
}

impl Cursor {
    /// The cursor of a parse that begins at offset `at`.
    pub fn new(at: usize) -> (cursor: Cursor)
        ensures
            cursor@ == (Place { at: at as int, mark: at as int }),
    {
        Cursor { at, mark: at }
    }
}

/// [`is_space`] in contracts.
pub open spec fn spec_is_space(byte: u8) -> bool {
    byte == SPACE || byte == TAB || byte == LINE_FEED || byte == CARRIAGE_RETURN
}

/// Whether `byte` is a space, a tab, a line feed or a carriage return.
#[verifier::when_used_as_spec(spec_is_space)]
pub fn is_space(byte: u8) -> (yes: bool)
    ensures
        yes == spec_is_space(byte),
{
    byte == SPACE || byte == TAB || byte == LINE_FEED || byte == CARRIAGE_RETURN
}

/// [`is_letter`] in contracts.
pub open spec fn spec_is_letter(byte: u8) -> bool {
    (0x41 <= byte <= 0x5a) || (0x61 <= byte <= 0x7a)
}

/// Whether `byte` is an ASCII letter.
#[verifier::when_used_as_spec(spec_is_letter)]
pub fn is_letter(byte: u8) -> (yes: bool)
    ensures
        yes == spec_is_letter(byte),
{
    (0x41 <= byte && byte <= 0x5a) || (0x61 <= byte && byte <= 0x7a)
}

/// [`is_digit`] in contracts.
pub open spec fn spec_is_digit(byte: u8) -> bool {
    0x30 <= byte <= 0x39
}

/// Whether `byte` is an ASCII decimal digit.
#[verifier::when_used_as_spec(spec_is_digit)]
pub fn is_digit(byte: u8) -> (yes: bool)
    ensures
        yes == spec_is_digit(byte),
{
    0x30 <= byte && byte <= 0x39
}

/// [`is_ident_start`] in contracts.
pub open spec fn spec_is_ident_start(byte: u8) -> bool {
    is_letter(byte) || byte == UNDERSCORE
}

/// Whether an identifier may begin with `byte`.
#[verifier::when_used_as_spec(spec_is_ident_start)]
pub fn is_ident_start(byte: u8) -> (yes: bool)
    ensures
        yes == spec_is_ident_start(byte),
{
    is_letter(byte) || byte == UNDERSCORE
}

/// [`is_ident_char`] in contracts.
pub open spec fn spec_is_ident_char(byte: u8) -> bool {
    is_letter(byte) || is_digit(byte) || byte == UNDERSCORE
}

/// Whether an identifier may contain `byte`.
#[verifier::when_used_as_spec(spec_is_ident_char)]
pub fn is_ident_char(byte: u8) -> (yes: bool)
    ensures
        yes == spec_is_ident_char(byte),
{
    is_letter(byte) || is_digit(byte) || byte == UNDERSCORE
}

/// [`is_value_char`] in contracts.
pub open spec fn spec_is_value_char(byte: u8) -> bool {
    !is_space(byte) && byte != COMMA && byte != SEMICOLON
}

/// Whether a value token may contain `byte`.
#[verifier::when_used_as_spec(spec_is_value_char)]
pub fn is_value_char(byte: u8) -> (yes: bool)
    ensures
        yes == spec_is_value_char(byte),
{
    !is_space(byte) && byte != COMMA && byte != SEMICOLON
}

/// [`to_lower`] in contracts.
pub open spec fn spec_to_lower(byte: u8) -> u8 {
    if 0x41 <= byte <= 0x5a {
        (byte + 0x20) as u8
    } else {
        byte
    }
}

/// `byte` with an ASCII capital letter made small.
#[verifier::when_used_as_spec(spec_to_lower)]
pub fn to_lower(byte: u8) -> (lower: u8)
    ensures
        lower == spec_to_lower(byte),
{
    if 0x41 <= byte && byte <= 0x5a {
        byte + 0x20
    } else {
        byte
    }
}

/// Where the run of bytes of one class that begins at `from` ends: the least
/// offset at or after `from` that is the end of the text or holds a byte
/// outside the class.
pub open spec fn run_end(text: Seq<u8>, from: int, class: spec_fn(u8) -> bool) -> int
    decreases text.len() - from,
{
    if 0 <= from < text.len() && class(text[from]) {
        run_end(text, from + 1, class)
    } else {
        from
    }
}

/// A run ends within the text, holds only bytes of its class, and cannot be
/// made longer.
pub proof fn lemma_run_end(text: Seq<u8>, from: int, class: spec_fn(u8) -> bool)
    requires
        0 <= from <= text.len(),
    ensures
        from <= run_end(text, from, class) <= text.len(),
        forall|i: int| from <= i < run_end(text, from, class) ==> class(#[trigger] text[i]),
        run_end(text, from, class) == text.len() || !class(text[run_end(text, from, class)]),
    decreases text.len() - from,
{
    if from < text.len() && class(text[from]) {
        lemma_run_end(text, from + 1, class);
    }
}

/// The end of a run is the only offset that bounds it as `lemma_run_end` says.
pub proof fn lemma_run_end_unique(text: Seq<u8>, from: int, class: spec_fn(u8) -> bool, end: int)
    requires
        0 <= from <= end <= text.len(),
        forall|i: int| from <= i < end ==> class(#[trigger] text[i]),
        end == text.len() || !class(text[end]),
    ensures
        run_end(text, from, class) == end,
    decreases end - from,
{
    if from < end {
        lemma_run_end_unique(text, from + 1, class, end);
    }
}

/// The offset of the first line feed at or after `from`, or the end of the
/// text where there is none.
pub open spec fn line_end(text: Seq<u8>, from: int) -> int {
    run_end(text, from, |byte: u8| byte != LINE_FEED)
}

/// Whether a `//` comment begins at `at`.
pub open spec fn starts_comment(text: Seq<u8>, at: int) -> bool {
    0 <= at && at + 1 < text.len() && text[at] == SLASH && text[at + 1] == SLASH
}

/// Where the blank space that begins at `from` ends. Blank space is made of
/// whitespace bytes and of comments, each running from `//` up to the next
/// line feed or the end of the text.
pub open spec fn blank_end(text: Seq<u8>, from: int) -> int
    decreases text.len() - from,
    via blank_end_decreases
{
    if 0 <= from < text.len() && is_space(text[from]) {
        blank_end(text, from + 1)
    } else if starts_comment(text, from) {
        blank_end(text, line_end(text, from + 2))
    } else {
        from
    }
}

/// A comment ends behind the two slashes that begin it.
#[via_fn]
proof fn blank_end_decreases(text: Seq<u8>, from: int) {
    if starts_comment(text, from) {
        lemma_run_end(text, from + 2, |byte: u8| byte != LINE_FEED);
    }
}

/// Blank space ends within the text, at a byte that begins no more of it;
/// skipping it again changes nothing.
pub proof fn lemma_blank_end(text: Seq<u8>, from: int)
    requires
        0 <= from <= text.len(),
    ensures
        from <= blank_end(text, from) <= text.len(),
        blank_end(text, from) < text.len() ==> !is_space(text[blank_end(text, from)]),
        !starts_comment(text, blank_end(text, from)),
        blank_end(text, blank_end(text, from)) == blank_end(text, from),
    decreases text.len() - from,
{
    if from < text.len() && is_space(text[from]) {
        lemma_blank_end(text, from + 1);
    } else if starts_comment(text, from) {
        lemma_run_end(text, from + 2, |byte: u8| byte != LINE_FEED);
        lemma_blank_end(text, line_end(text, from + 2));
    }
}

/// Where the identifier bytes that begin at `from` end.
pub open spec fn ident_end(text: Seq<u8>, from: int) -> int {
    run_end(text, from, |byte: u8| is_ident_char(byte))
}

/// Where the value bytes that begin at `from` end.
pub open spec fn value_end(text: Seq<u8>, from: int) -> int {
    run_end(text, from, |byte: u8| is_value_char(byte))
}

/// Whether `word` reads as an identifier from its first byte to its last.
pub open spec fn is_identifier(word: Seq<u8>) -> bool {
    &&& word.len() > 0
    &&& is_ident_start(word[0])
    &&& forall|i: int| 0 <= i < word.len() ==> is_ident_char(#[trigger] word[i])
}

/// Whether `word` reads as a value from its first byte to its last. A word
/// that begins with `//` does not: there a comment begins.
pub open spec fn is_value(word: Seq<u8>) -> bool {
    &&& word.len() > 0
    &&& forall|i: int| 0 <= i < word.len() ==> is_value_char(#[trigger] word[i])
    &&& !(word.len() >= 2 && word[0] == SLASH && word[1] == SLASH)
}

/// The bytes of a keyword or punctuation token; empty for the other kinds.
pub open spec fn fixed_text(token: Token) -> Seq<u8> {
    match token {
        Token::Var => seq![0x76u8, 0x61u8, 0x72u8],
        Token::Record => seq![0x72u8, 0x65u8, 0x63u8, 0x6fu8, 0x72u8, 0x64u8],
        Token::Tuple => seq![0x74u8, 0x75u8, 0x70u8, 0x6cu8, 0x65u8],
        Token::Comma => seq![COMMA],
        Token::Semicolon => seq![SEMICOLON],
        Token::OpenBrace => seq![OPEN_BRACE],
        Token::CloseBrace => seq![CLOSE_BRACE],
        Token::Identifier => Seq::empty(),
        Token::Value => Seq::empty(),
    }
}

/// Whether `word`, which holds no capital letter, stands in the text at
/// `from`, letters matching in either case.
pub open spec fn text_at(text: Seq<u8>, from: int, word: Seq<u8>) -> bool {
    &&& 0 <= from
    &&& from + word.len() <= text.len()
    &&& forall|i: int| 0 <= i < word.len() ==> to_lower(#[trigger] text[from + i]) == word[i]
}

/// Where the token of the given kind that begins exactly at `from` ends, if
/// there is one.
pub open spec fn token_end(text: Seq<u8>, from: int, token: Token) -> Option<int> {
    match token {
        Token::Identifier => if 0 <= from < text.len() && is_ident_start(text[from]) {
            Some(ident_end(text, from))
        } else {
            None
        },
        Token::Value => if 0 <= from < text.len() && is_value_char(text[from]) {
            Some(value_end(text, from))
        } else {
            None
        },
        _ => if text_at(text, from, fixed_text(token)) {
            Some(from + fixed_text(token).len())
        } else {
            None
        },
    }
}

/// A token is not empty and ends within the text.
pub proof fn lemma_token_end(text: Seq<u8>, from: int, token: Token)
    ensures
        token_end(text, from, token) matches Some(end) ==> 0 <= from < end <= text.len(),
{
    if token_end(text, from, token) is Some {
        match token {
            Token::Identifier => {
                lemma_run_end(text, from + 1, |byte: u8| is_ident_char(byte));
            },
            Token::Value => {
                lemma_run_end(text, from + 1, |byte: u8| is_value_char(byte));
            },
            _ => {},
        }
    }
}

/// An identifier is consumed whole: from its first byte the identifier token
/// runs to the end of the word and nothing remains.
pub proof fn lemma_identifier_consumed(word: Seq<u8>)
    requires
        is_identifier(word),
    ensures
        token_end(word, 0, Token::Identifier) == Some(word.len() as int),
{
    lemma_run_end_unique(word, 0, |byte: u8| is_ident_char(byte), word.len() as int);
}

/// The outcome of looking for a token with blank space skipped on both
/// sides of it: the span of the token and the place after it, or the fault.
pub open spec fn lexeme(text: Seq<u8>, cursor: Place, token: Token) -> Result<
    ((int, int), Place),
    Fault,
> {
    let start = blank_end(text, cursor.at);
    match token_end(text, start, token) {
        Some(end) => Ok(((start, end), Place { at: blank_end(text, end), mark: end })),
        None => Err(Fault { position: cursor.mark, expected: token }),
    }
}

/// A cursor that lies within the text, with only blank space between its mark
/// and the offset at which scanning resumes.
pub open spec fn place_in(text: Seq<u8>, cursor: Place) -> bool {
    &&& 0 <= cursor.mark <= cursor.at <= text.len()
    &&& blank_end(text, cursor.mark) == blank_end(text, cursor.at)
}

/// A token found from a place within the text lies within the text, after
/// the place, and leaves a place within the text.
pub proof fn lemma_lexeme(text: Seq<u8>, cursor: Place, token: Token)
    requires
        0 <= cursor.at <= text.len(),
    ensures
        lexeme(text, cursor, token) matches Ok((span, next)) ==> {
            &&& cursor.at <= span.0 < span.1 <= text.len()
            &&& span.0 == blank_end(text, cursor.at)
            &&& next.mark == span.1
            &&& next.at == blank_end(text, span.1)
            &&& place_in(text, next)
        },
{
    lemma_blank_end(text, cursor.at);
    let start = blank_end(text, cursor.at);
    lemma_token_end(text, start, token);
    match token_end(text, start, token) {
        Some(end) => {
            lemma_blank_end(text, end);
        },
        None => {},
    }
}

/// Finds the end of the line that holds offset `from`.
pub fn skip_line(input: &[u8], from: usize) -> (end: usize)
    ensures
        end == line_end(input@, from as int),
{
    let mut i: usize = from;
    while i < input.len() && input[i] != LINE_FEED
        invariant
            from <= i,
            line_end(input@, from as int) == line_end(input@, i as int),
        decreases input.len() - i,
    {
        i = i + 1;
    }
    i
}

/// Skips the blank space that begins at `from`: whitespace and `//` comments.
pub fn skip_blank(input: &[u8], from: usize) -> (end: usize)
    ensures
        end == blank_end(input@, from as int),
        from <= end,
        from <= input.len() ==> end <= input.len(),
{
    let mut i: usize = from;
    let mut scanning: bool = true;
    while scanning && i < input.len()
        invariant
            from <= i,
            from <= input.len() ==> i <= input.len(),
            blank_end(input@, from as int) == blank_end(input@, i as int),
            !scanning ==> blank_end(input@, i as int) == i,
        decreases input.len() - i, scanning as int,
    {
        let byte: u8 = input[i];
        if is_space(byte) {
            i = i + 1;
        } else if byte == SLASH && i + 1 < input.len() && input[i + 1] == SLASH {
            proof {
                lemma_run_end(input@, i + 2, |byte: u8| byte != LINE_FEED);
            }
            i = skip_line(input, i + 2);
        } else {
            scanning = false;
        }
    }
    i
}

/// Recognizes an identifier that begins exactly at `from`: a letter or an
/// underscore, then as many letters, digits and underscores as follow.
/// Returns the offset at which it ends.
pub fn ident(input: &[u8], from: usize) -> (found: Result<usize, LexError>)
    ensures
        match found {
            Ok(end) => {
                &&& token_end(input@, from as int, Token::Identifier) == Some(end as int)
                &&& from < end <= input.len()
                &&& is_ident_start(input@[from as int])
                &&& forall|i: int| from <= i < end ==> is_ident_char(#[trigger] input@[i])
                &&& end == input.len() || !is_ident_char(input@[end as int])
            },
            Err(error) => {
                &&& token_end(input@, from as int, Token::Identifier) is None
                &&& !(from < input.len() && is_ident_start(input@[from as int]))
                &&& error == (LexError::UnexpectedToken {
                    position: from,
                    expected: Token::Identifier,
                })
            },
        },
        from == 0 && is_identifier(input@) ==> found == Ok::<usize, LexError>(input.len()),
{
    if from < input.len() && is_ident_start(input[from]) {
        let mut i: usize = from + 1;
        while i < input.len() && is_ident_char(input[i])
            invariant
                from < i <= input.len(),
                ident_end(input@, from as int) == ident_end(input@, i as int),
            decreases input.len() - i,
        {
            i = i + 1;
        }
        proof {
            lemma_run_end(input@, from as int, |byte: u8| is_ident_char(byte));
        }
        Ok(i)
    } else {
        Err(LexError::UnexpectedToken { position: from, expected: Token::Identifier })
    }
}

/// Recognizes a value token that begins exactly at `from`: as many bytes
/// other than whitespace, `,` and `;` as follow, and at least one.
fn value(input: &[u8], from: usize) -> (found: Option<usize>)
    ensures
        match found {
            Some(end) => token_end(input@, from as int, Token::Value) == Some(end as int),
            None => token_end(input@, from as int, Token::Value) is None,
        },
{
    if from < input.len() && is_value_char(input[from]) {
        let mut i: usize = from + 1;
        while i < input.len() && is_value_char(input[i])
            invariant
                from < i <= input.len(),
                value_end(input@, from as int) == value_end(input@, i as int),
            decreases input.len() - i,
        {
            i = i + 1;
        }
        Some(i)
    } else {
        None
    }
}

/// Recognizes a token of the given kind that begins exactly at `from` and
/// returns the offset at which it ends.
pub fn token(input: &[u8], from: usize, kind: Token) -> (found: Option<usize>)
    ensures
        match found {
            Some(end) => token_end(input@, from as int, kind) == Some(end as int),
            None => token_end(input@, from as int, kind) is None,
        },
{
    match kind {
        Token::Identifier => match ident(input, from) {
            Ok(end) => Some(end),
            Err(_) => None,
        },
        Token::Value => value(input, from),
        Token::Var => {
            let word: [u8; 3] = [0x76, 0x61, 0x72];
            assert(word@ =~= fixed_text(Token::Var));
            fixed(input, from, word.as_slice())
        },
        Token::Record => {
            let word: [u8; 6] = [0x72, 0x65, 0x63, 0x6f, 0x72, 0x64];
            assert(word@ =~= fixed_text(Token::Record));
            fixed(input, from, word.as_slice())
        },
        Token::Tuple => {
            let word: [u8; 5] = [0x74, 0x75, 0x70, 0x6c, 0x65];
            assert(word@ =~= fixed_text(Token::Tuple));
            fixed(input, from, word.as_slice())
        },
        Token::Comma => {
            let word: [u8; 1] = [COMMA];
            assert(word@ =~= fixed_text(Token::Comma));
            fixed(input, from, word.as_slice())
        },
        Token::Semicolon => {
            let word: [u8; 1] = [SEMICOLON];
            assert(word@ =~= fixed_text(Token::Semicolon));
            fixed(input, from, word.as_slice())
        },
        Token::OpenBrace => {
            let word: [u8; 1] = [OPEN_BRACE];
            assert(word@ =~= fixed_text(Token::OpenBrace));
            fixed(input, from, word.as_slice())
        },
        Token::CloseBrace => {
            let word: [u8; 1] = [CLOSE_BRACE];
            assert(word@ =~= fixed_text(Token::CloseBrace));
            fixed(input, from, word.as_slice())
        },
    }
}

/// Recognizes the text `word` at `from`, letters matching in either case.
fn fixed(input: &[u8], from: usize, word: &[u8]) -> (found: Option<usize>)
    ensures
        match found {
            Some(end) => text_at(input@, from as int, word@) && end == from + word@.len(),
            None => !text_at(input@, from as int, word@),
        },
{
    if word.len() > input.len() || from > input.len() - word.len() {
        return None;
    }
    let mut i: usize = 0;
    while i < word.len()
        invariant
            i <= word.len(),
            from + word.len() <= input.len(),
            forall|j: int| 0 <= j < i ==> to_lower(#[trigger] input@[from + j]) == word@[j],
        decreases word.len() - i,
    {
        if to_lower(input[from + i]) != word[i] {
            return None;
        }
        i = i + 1;
    }
    Some(from + word.len())
}

/// Looks for a token of the given kind with blank space skipped before and
/// after it. Returns the span of the token alone and the cursor past the blank
/// space that follows it. Where the token is missing, the error names it and
/// the offset at which the last token accepted ended.
pub fn ws(input: &[u8], cursor: Cursor, kind: Token) -> (found: Result<(Span, Cursor), LexError>)
    ensures
        match found {
            Ok((span, next)) => {
                &&& lexeme(input@, cursor@, kind) == Ok::<_, Fault>((span@, next@))
                &&& span.start < span.end <= input.len()
            },
            Err(error) => lexeme(input@, cursor@, kind) == Err::<((int, int), Place), _>(error@),
        },
{
    let start: usize = skip_blank(input, cursor.at);
    proof {
        lemma_token_end(input@, start as int, kind);
    }
    match token(input, start, kind) {
        Some(end) => {
            let at: usize = skip_blank(input, end);
            Ok((Span { start, end }, Cursor { at, mark: end }))
        },
        None => Err(LexError::UnexpectedToken { position: cursor.mark, expected: kind }),
    }
}

} // verus!
