//! Spacing is immaterial.
//!
//! A layout says at which offsets of a text the tokens of a declaration
//! stand, with nothing but blank space, which is whitespace and comments,
//! before, between and after them. Every text laid out so parses, and what it
//! parses to is made of the bytes of its names, types and values alone: how
//! much blank space surrounds the tokens, and of which kind, plays no part.
//! Whitespace alone is blank space, so this holds in particular of texts
//! that differ only in spaces, tabs, line ends and blank lines.

use vstd::prelude::*;
use crate::ast::{record_of, tuple_of, variable_of, Aggregate, NodeModel, VariableModel};
use crate::grammar::{
    begin, declaration, lemma_declaration_advances, members, record, slice, source, then, tuple,
    var_init, var_no_init, variable, Matched,
};
use crate::lexer::{
    blank_end, fixed_text, is_ident_char, is_identifier, is_space, is_value, is_value_char,
    lemma_blank_end, lemma_run_end, lemma_run_end_unique, lexeme, line_end, spec_to_lower,
    starts_comment, text_at, token_end, Fault, Place, Token, COMMA, LINE_FEED, SLASH,
};

verus! {

/// Whether the text holds only whitespace from `from` up to `to`.
pub open spec fn spaces(text: Seq<u8>, from: int, to: int) -> bool {
    &&& 0 <= from <= to <= text.len()
    &&& forall|i: int| from <= i < to ==> is_space(#[trigger] text[i])
}

/// Whether the text holds only blank space from `from` up to `to`:
/// whitespace bytes and whole comments, each from its `//` up to the line
/// feed that ends it or to the end of the text.
pub open spec fn blank(text: Seq<u8>, from: int, to: int) -> bool
    decreases to - from,
{
    &&& 0 <= from <= to <= text.len()
    &&& from < to ==> {
        ||| is_space(text[from]) && blank(text, from + 1, to)
        ||| {
            &&& starts_comment(text, from)
            &&& from + 2 <= line_end(text, from + 2) <= to
            &&& blank(text, line_end(text, from + 2), to)
        }
    }
}

/// Whitespace is blank space.
pub proof fn lemma_spaces_are_blank(text: Seq<u8>, from: int, to: int)
    requires
        spaces(text, from, to),
    ensures
        blank(text, from, to),
    decreases to - from,
{
    if from < to {
        assert(is_space(text[from]));
        lemma_spaces_are_blank(text, from + 1, to);
    }
}

/// Whether the span lies in the text and covers an identifier.
pub open spec fn identifier_at(text: Seq<u8>, span: (int, int)) -> bool {
    0 <= span.0 <= span.1 <= text.len() && is_identifier(slice(text, span))
}

/// Whether the span lies in the text and covers a whole value: what follows
/// it is no byte of a value. A comment right behind a value would be one,
/// for a slash is.
pub open spec fn value_at(text: Seq<u8>, span: (int, int)) -> bool {
    &&& 0 <= span.0 <= span.1 <= text.len()
    &&& is_value(slice(text, span))
    &&& span.1 == text.len() || !is_value_char(text[span.1])
}

/// Whether the keyword or punctuation `token` stands at offset `at`.
pub open spec fn fixed_at(text: Seq<u8>, at: int, token: Token) -> bool {
    text_at(text, at, fixed_text(token))
}

/// Blank space that runs up to the end of the text, or to a byte that is
/// neither whitespace nor the start of a comment, is the whole of the blank
/// space that is skipped there.
pub proof fn lemma_blank_is_skipped(text: Seq<u8>, from: int, to: int)
    requires
        blank(text, from, to),
        to == text.len() || !is_space(text[to]),
        !starts_comment(text, to),
    ensures
        blank_end(text, from) == to,
    decreases to - from,
{
    if from < to {
        if is_space(text[from]) {
            lemma_blank_is_skipped(text, from + 1, to);
        } else {
            lemma_run_end(text, from + 2, |byte: u8| byte != LINE_FEED);
            lemma_blank_is_skipped(text, line_end(text, from + 2), to);
        }
    }
}

/// No token begins with whitespace, and none but a value with a slash.
pub proof fn lemma_token_start(text: Seq<u8>, start: int, token: Token)
    requires
        token_end(text, start, token) is Some,
    ensures
        0 <= start < text.len(),
        !is_space(text[start]),
        token != Token::Value ==> text[start] != SLASH,
{
    match token {
        Token::Identifier => {},
        Token::Value => {},
        _ => {
            assert(fixed_text(token).len() > 0);
            assert(text[start + 0] == text[start]);
            assert(spec_to_lower(text[start + 0]) == fixed_text(token)[0]);
        },
    }
}

/// An identifier that stands in a text and is not followed by another
/// identifier byte is the identifier token found there.
pub proof fn lemma_identifier_token(text: Seq<u8>, span: (int, int))
    requires
        identifier_at(text, span),
        span.1 == text.len() || !is_ident_char(text[span.1]),
    ensures
        token_end(text, span.0, Token::Identifier) == Some(span.1),
{
    let word = slice(text, span);
    assert(word[0] == text[span.0]);
    assert forall|i: int| span.0 <= i < span.1 implies is_ident_char(#[trigger] text[i]) by {
        assert(word[i - span.0] == text[i]);
    }
    lemma_run_end_unique(text, span.0, |byte: u8| is_ident_char(byte), span.1);
}

/// A whole value that stands in a text is the value token found there, and
/// no comment begins where it begins.
pub proof fn lemma_value_token(text: Seq<u8>, span: (int, int))
    requires
        value_at(text, span),
    ensures
        token_end(text, span.0, Token::Value) == Some(span.1),
        !starts_comment(text, span.0),
{
    let word = slice(text, span);
    assert(word[0] == text[span.0]);
    assert forall|i: int| span.0 <= i < span.1 implies is_value_char(#[trigger] text[i]) by {
        assert(word[i - span.0] == text[i]);
    }
    lemma_run_end_unique(text, span.0, |byte: u8| is_value_char(byte), span.1);
    if word.len() >= 2 {
        assert(word[1] == text[span.0 + 1]);
    }
}

/// The place behind a token that ends at `end`.
pub open spec fn behind(text: Seq<u8>, end: int) -> Place {
    Place { at: blank_end(text, end), mark: end }
}

/// A token that stands at `start`, with only blank space between it and the
/// offset `from` that the cursor is at or has skipped blank space from, is
/// the token matched next. A value must not begin with `//`.
pub proof fn lemma_expect(
    text: Seq<u8>,
    so_far: Matched,
    token: Token,
    from: int,
    start: int,
    end: int,
)
    requires
        so_far matches Ok((_, cursor)) && (cursor.at == from || cursor.at == blank_end(text, from)),
        blank(text, from, start),
        token_end(text, start, token) == Some(end),
        token == Token::Value ==> !starts_comment(text, start),
    ensures
        then(text, so_far, token) == Ok::<_, Fault>(
            (so_far->Ok_0.0.push((start, end)), behind(text, end)),
        ),
{
    lemma_token_start(text, start, token);
    lemma_blank_is_skipped(text, from, start);
    lemma_blank_end(text, from);
}

/// Where the tokens of a variable declaration stand.
pub struct VariableLayout {
    /// The offset of `var`.
    pub keyword: int,
    /// The span of the name.
    pub name: (int, int),
    /// The offset of the comma behind the name.
    pub comma: int,
    /// The span of the type name.
    pub kind: (int, int),
    /// The offset of the comma behind the type name and the span of the
    /// value, where the declaration has one.
    pub value: Option<(int, (int, int))>,
    /// The offset of the closing `;`.
    pub semicolon: int,
}

/// Whether a variable declaration stands in the text from `from` on as the
/// layout says, with only blank space before and between its tokens.
pub open spec fn variable_at(text: Seq<u8>, from: int, layout: VariableLayout) -> bool {
    &&& blank(text, from, layout.keyword)
    &&& fixed_at(text, layout.keyword, Token::Var)
    &&& blank(text, layout.keyword + 3, layout.name.0)
    &&& identifier_at(text, layout.name)
    &&& blank(text, layout.name.1, layout.comma)
    &&& fixed_at(text, layout.comma, Token::Comma)
    &&& blank(text, layout.comma + 1, layout.kind.0)
    &&& identifier_at(text, layout.kind)
    &&& match layout.value {
        None => blank(text, layout.kind.1, layout.semicolon),
        Some((comma, value)) => {
            &&& blank(text, layout.kind.1, comma)
            &&& fixed_at(text, comma, Token::Comma)
            &&& blank(text, comma + 1, value.0)
            &&& value_at(text, value)
            &&& blank(text, value.1, layout.semicolon)
        },
    }
    &&& fixed_at(text, layout.semicolon, Token::Semicolon)
}

/// The variable that a laid-out declaration declares.
pub open spec fn variable_written(text: Seq<u8>, layout: VariableLayout) -> VariableModel {
    variable_of(
        slice(text, layout.name),
        slice(text, layout.kind),
        match layout.value {
            None => Seq::empty(),
            Some((_, value)) => slice(text, value),
        },
    )
}

/// The byte at `end` is no part of an identifier where only blank space lies
/// between it and a punctuation mark.
proof fn lemma_word_ends(text: Seq<u8>, end: int, mark: int, token: Token)
    requires
        blank(text, end, mark),
        fixed_at(text, mark, token),
        token == Token::Comma || token == Token::Semicolon || token == Token::OpenBrace,
    ensures
        end < text.len(),
        !is_ident_char(text[end]),
{
    assert(text[mark + 0] == text[mark]);
    assert(spec_to_lower(text[mark + 0]) == fixed_text(token)[0]);
}

/// The four tokens that every variable declaration begins with.
proof fn lemma_variable_head(text: Seq<u8>, cursor: Place, layout: VariableLayout) -> (head: Matched)
    requires
        variable_at(text, cursor.at, layout),
    ensures
        head == then(
            text,
            then(text, then(text, then(text, begin(cursor), Token::Var), Token::Identifier), Token::Comma),
            Token::Identifier,
        ),
        head == Ok::<_, Fault>(
            (
                seq![
                    (layout.keyword, layout.keyword + 3),
                    layout.name,
                    (layout.comma, layout.comma + 1),
                    layout.kind,
                ],
                behind(text, layout.kind.1),
            ),
        ),
{
    let m0 = begin(cursor);
    lemma_expect(text, m0, Token::Var, cursor.at, layout.keyword, layout.keyword + 3);
    let m1 = then(text, m0, Token::Var);
    lemma_word_ends(text, layout.name.1, layout.comma, Token::Comma);
    lemma_identifier_token(text, layout.name);
    lemma_expect(text, m1, Token::Identifier, layout.keyword + 3, layout.name.0, layout.name.1);
    let m2 = then(text, m1, Token::Identifier);
    lemma_expect(text, m2, Token::Comma, layout.name.1, layout.comma, layout.comma + 1);
    let m3 = then(text, m2, Token::Comma);
    match layout.value {
        None => {
            lemma_word_ends(text, layout.kind.1, layout.semicolon, Token::Semicolon);
        },
        Some((comma, _)) => {
            lemma_word_ends(text, layout.kind.1, comma, Token::Comma);
        },
    }
    lemma_identifier_token(text, layout.kind);
    lemma_expect(text, m3, Token::Identifier, layout.comma + 1, layout.kind.0, layout.kind.1);
    let m4 = then(text, m3, Token::Identifier);
    assert(m4->Ok_0.0 =~= seq![
        (layout.keyword, layout.keyword + 3),
        layout.name,
        (layout.comma, layout.comma + 1),
        layout.kind,
    ]);
    m4
}

/// A variable declaration that stands in a text as a layout says parses to
/// the variable written there, and the cursor comes to stand behind its
/// semicolon.
pub proof fn lemma_variable_at(text: Seq<u8>, cursor: Place, layout: VariableLayout)
    requires
        variable_at(text, cursor.at, layout),
    ensures
        variable(text, cursor) == Ok::<_, Fault>(
            (variable_written(text, layout), behind(text, layout.semicolon + 1)),
        ),
        layout.value is None ==> var_no_init(text, cursor) == variable(text, cursor),
        layout.value is Some ==> var_init(text, cursor) == variable(text, cursor),
{
    reveal(variable);
    reveal(var_init);
    reveal(var_no_init);
    let m4 = lemma_variable_head(text, cursor, layout);
    match layout.value {
        None => {
            // The form with a value stops at the semicolon, where it wants a comma.
            lemma_token_start(text, layout.semicolon, Token::Semicolon);
            lemma_blank_is_skipped(text, layout.kind.1, layout.semicolon);
            lemma_blank_end(text, layout.kind.1);
            assert(text[layout.semicolon + 0] == text[layout.semicolon]);
            assert(token_end(text, layout.semicolon, Token::Comma) is None);
            assert(then(text, m4, Token::Comma) is Err);
            lemma_expect(
                text,
                m4,
                Token::Semicolon,
                layout.kind.1,
                layout.semicolon,
                layout.semicolon + 1,
            );
        },
        Some((comma, value)) => {
            lemma_expect(text, m4, Token::Comma, layout.kind.1, comma, comma + 1);
            let m5 = then(text, m4, Token::Comma);
            lemma_value_token(text, value);
            lemma_expect(text, m5, Token::Value, comma + 1, value.0, value.1);
            let m6 = then(text, m5, Token::Value);
            lemma_expect(
                text,
                m6,
                Token::Semicolon,
                value.1,
                layout.semicolon,
                layout.semicolon + 1,
            );
        },
    }
}

/// Whether variable declarations stand in the text one behind the other from
/// `from` on as the layouts say.
pub open spec fn members_at(text: Seq<u8>, from: int, layouts: Seq<VariableLayout>) -> bool
    decreases layouts.len(),
{
    layouts.len() > 0 ==> {
        &&& variable_at(text, from, layouts[0])
        &&& members_at(text, layouts[0].semicolon + 1, layouts.drop_first())
    }
}

/// The offset behind the last of the members laid out from `from` on.
pub open spec fn members_end(from: int, layouts: Seq<VariableLayout>) -> int {
    if layouts.len() == 0 {
        from
    } else {
        layouts.last().semicolon + 1
    }
}

/// The variables that laid-out declarations declare, in their order.
pub open spec fn members_written(text: Seq<u8>, layouts: Seq<VariableLayout>) -> Seq<
    VariableModel,
> {
    Seq::new(layouts.len(), |i: int| variable_written(text, layouts[i]))
}

/// Members that stand in a text as their layouts say, up to a closing brace,
/// parse to the variables written there, in their order.
pub proof fn lemma_members_at(
    text: Seq<u8>,
    cursor: Place,
    from: int,
    layouts: Seq<VariableLayout>,
    close: int,
)
    requires
        cursor.at == from || cursor.at == blank_end(text, from),
        members_at(text, from, layouts),
        blank(text, members_end(from, layouts), close),
        fixed_at(text, close, Token::CloseBrace),
    ensures
        members(text, cursor) == Ok::<_, Fault>(
            (
                members_written(text, layouts),
                if layouts.len() == 0 {
                    cursor
                } else {
                    behind(text, members_end(from, layouts))
                },
            ),
        ),
    decreases layouts.len(),
{
    lemma_blank_end(text, from);
    if layouts.len() == 0 {
        lemma_token_start(text, close, Token::CloseBrace);
        lemma_blank_is_skipped(text, from, close);
        assert(text[close + 0] == text[close]);
        assert(token_end(text, close, Token::Var) is None);
        assert(members_written(text, layouts) =~= Seq::<VariableModel>::empty());
    } else {
        let first = layouts[0];
        let rest = layouts.drop_first();
        lemma_token_start(text, first.keyword, Token::Var);
        lemma_blank_is_skipped(text, from, first.keyword);
        assert(variable_at(text, cursor.at, first));
        lemma_variable_at(text, cursor, first);
        let next = behind(text, first.semicolon + 1);
        if rest.len() > 0 {
            assert(rest.last() == layouts.last());
        }
        lemma_members_at(text, next, first.semicolon + 1, rest, close);
        assert(seq![variable_written(text, first)] + members_written(text, rest)
            =~= members_written(text, layouts));
    }
}

/// Where the tokens of a record stand.
pub struct RecordLayout {
    /// The offset of `record`.
    pub keyword: int,
    /// The span of the name.
    pub name: (int, int),
    /// The offset of `{`.
    pub open: int,
    /// The members, in their order.
    pub members: Seq<VariableLayout>,
    /// The offset of `}`.
    pub close: int,
}

/// Whether a record stands in the text from `from` on as the layout says,
/// with only blank space before and between its tokens.
pub open spec fn record_at(text: Seq<u8>, from: int, layout: RecordLayout) -> bool {
    &&& blank(text, from, layout.keyword)
    &&& fixed_at(text, layout.keyword, Token::Record)
    &&& blank(text, layout.keyword + 6, layout.name.0)
    &&& identifier_at(text, layout.name)
    &&& blank(text, layout.name.1, layout.open)
    &&& fixed_at(text, layout.open, Token::OpenBrace)
    &&& members_at(text, layout.open + 1, layout.members)
    &&& blank(text, members_end(layout.open + 1, layout.members), layout.close)
    &&& fixed_at(text, layout.close, Token::CloseBrace)
}

/// The record that a laid-out declaration declares.
pub open spec fn record_written(text: Seq<u8>, layout: RecordLayout) -> Aggregate {
    record_of(slice(text, layout.name), members_written(text, layout.members))
}

/// A record that stands in a text as a layout says parses to the record
/// written there, and the cursor comes to stand behind its closing brace.
pub proof fn lemma_record_at(text: Seq<u8>, cursor: Place, layout: RecordLayout)
    requires
        record_at(text, cursor.at, layout),
    ensures
        record(text, cursor) == Ok::<_, Fault>(
            (record_written(text, layout), behind(text, layout.close + 1)),
        ),
{
    reveal(record);
    let m0 = begin(cursor);
    lemma_expect(text, m0, Token::Record, cursor.at, layout.keyword, layout.keyword + 6);
    let m1 = then(text, m0, Token::Record);
    lemma_word_ends(text, layout.name.1, layout.open, Token::OpenBrace);
    lemma_identifier_token(text, layout.name);
    lemma_expect(text, m1, Token::Identifier, layout.keyword + 6, layout.name.0, layout.name.1);
    let m2 = then(text, m1, Token::Identifier);
    lemma_expect(text, m2, Token::OpenBrace, layout.name.1, layout.open, layout.open + 1);
    let body = behind(text, layout.open + 1);
    lemma_members_at(text, body, layout.open + 1, layout.members, layout.close);
    lemma_close(text, body, layout.open + 1, layout.members, layout.close);
}

/// Behind members that run up to a closing brace, the brace is found.
proof fn lemma_close(
    text: Seq<u8>,
    body: Place,
    from: int,
    layouts: Seq<VariableLayout>,
    close: int,
)
    requires
        body == behind(text, from),
        0 <= from,
        blank(text, members_end(from, layouts), close),
        fixed_at(text, close, Token::CloseBrace),
    ensures
        lexeme(
            text,
            if layouts.len() == 0 {
                body
            } else {
                behind(text, members_end(from, layouts))
            },
            Token::CloseBrace,
        ) == Ok::<_, Fault>(((close, close + 1), behind(text, close + 1))),
{
    let end = members_end(from, layouts);
    lemma_token_start(text, close, Token::CloseBrace);
    lemma_blank_is_skipped(text, end, close);
    lemma_blank_end(text, end);
}

/// Where the tokens of a tuple stand.
pub struct TupleLayout {
    /// The offset of `tuple`.
    pub keyword: int,
    /// The offset of `{`.
    pub open: int,
    /// The members, in their order.
    pub members: Seq<VariableLayout>,
    /// The offset of `}`.
    pub close: int,
}

/// Whether a tuple stands in the text from `from` on as the layout says,
/// with only blank space before and between its tokens.
pub open spec fn tuple_at(text: Seq<u8>, from: int, layout: TupleLayout) -> bool {
    &&& blank(text, from, layout.keyword)
    &&& fixed_at(text, layout.keyword, Token::Tuple)
    &&& blank(text, layout.keyword + 5, layout.open)
    &&& fixed_at(text, layout.open, Token::OpenBrace)
    &&& members_at(text, layout.open + 1, layout.members)
    &&& blank(text, members_end(layout.open + 1, layout.members), layout.close)
    &&& fixed_at(text, layout.close, Token::CloseBrace)
}

/// The tuple that a laid-out declaration declares.
pub open spec fn tuple_written(text: Seq<u8>, layout: TupleLayout) -> Aggregate {
    tuple_of(members_written(text, layout.members))
}

/// A tuple that stands in a text as a layout says parses to the tuple
/// written there, and the cursor comes to stand behind its closing brace.
pub proof fn lemma_tuple_at(text: Seq<u8>, cursor: Place, layout: TupleLayout)
    requires
        tuple_at(text, cursor.at, layout),
    ensures
        tuple(text, cursor) == Ok::<_, Fault>(
            (tuple_written(text, layout), behind(text, layout.close + 1)),
        ),
{
    reveal(tuple);
    let m0 = begin(cursor);
    lemma_expect(text, m0, Token::Tuple, cursor.at, layout.keyword, layout.keyword + 5);
    let m1 = then(text, m0, Token::Tuple);
    lemma_expect(text, m1, Token::OpenBrace, layout.keyword + 5, layout.open, layout.open + 1);
    let body = behind(text, layout.open + 1);
    lemma_members_at(text, body, layout.open + 1, layout.members, layout.close);
    lemma_close(text, body, layout.open + 1, layout.members, layout.close);
}

/// Where the tokens of a declaration stand.
pub enum Layout {
    /// Those of a record.
    Record(RecordLayout),
    /// Those of a tuple.
    Tuple(TupleLayout),
    /// Those of a variable declaration.
    Variable(VariableLayout),
}

/// Whether a declaration stands in the text from `from` on as the layout
/// says.
pub open spec fn declaration_at(text: Seq<u8>, from: int, layout: Layout) -> bool {
    match layout {
        Layout::Record(inner) => record_at(text, from, inner),
        Layout::Tuple(inner) => tuple_at(text, from, inner),
        Layout::Variable(inner) => variable_at(text, from, inner),
    }
}

/// The node that a laid-out declaration declares.
pub open spec fn declaration_written(text: Seq<u8>, layout: Layout) -> NodeModel {
    match layout {
        Layout::Record(inner) => NodeModel::Record(record_written(text, inner)),
        Layout::Tuple(inner) => NodeModel::Tuple(tuple_written(text, inner)),
        Layout::Variable(inner) => NodeModel::Variable(variable_written(text, inner)),
    }
}

/// The offset of the first token of a laid-out declaration.
pub open spec fn declaration_start(layout: Layout) -> int {
    match layout {
        Layout::Record(inner) => inner.keyword,
        Layout::Tuple(inner) => inner.keyword,
        Layout::Variable(inner) => inner.keyword,
    }
}

/// The offset behind the last token of a laid-out declaration.
pub open spec fn declaration_end(layout: Layout) -> int {
    match layout {
        Layout::Record(inner) => inner.close + 1,
        Layout::Tuple(inner) => inner.close + 1,
        Layout::Variable(inner) => inner.semicolon + 1,
    }
}

/// A declaration that stands in a text as a layout says parses to the node
/// written there, and the cursor comes to stand behind its last token.
pub proof fn lemma_declaration_at(text: Seq<u8>, cursor: Place, layout: Layout)
    requires
        declaration_at(text, cursor.at, layout),
    ensures
        declaration(text, cursor) == Ok::<_, Fault>(
            (declaration_written(text, layout), behind(text, declaration_end(layout))),
        ),
        0 <= cursor.at <= declaration_start(layout) < text.len(),
        blank_end(text, cursor.at) == declaration_start(layout),
{
    reveal(declaration);
    let m0 = begin(cursor);
    let start = declaration_start(layout);
    match layout {
        Layout::Record(inner) => {
            lemma_token_start(text, start, Token::Record);
            lemma_expect(text, m0, Token::Record, cursor.at, start, start + 6);
            lemma_record_at(text, cursor, inner);
        },
        Layout::Tuple(inner) => {
            lemma_token_start(text, start, Token::Tuple);
            lemma_expect(text, m0, Token::Tuple, cursor.at, start, start + 5);
            assert(text[start + 0] == text[start]);
            assert(token_end(text, start, Token::Record) is None);
            lemma_tuple_at(text, cursor, inner);
        },
        Layout::Variable(inner) => {
            lemma_token_start(text, start, Token::Var);
            lemma_expect(text, m0, Token::Var, cursor.at, start, start + 3);
            assert(text[start + 0] == text[start]);
            assert(token_end(text, start, Token::Record) is None);
            assert(token_end(text, start, Token::Tuple) is None);
            lemma_variable_at(text, cursor, inner);
        },
    }
    lemma_blank_is_skipped(text, cursor.at, start);
}

/// Whether the text, from `from` on, is made of declarations that stand one
/// behind the other as the layouts say, and of blank space behind the last.
pub open spec fn source_at(text: Seq<u8>, from: int, layouts: Seq<Layout>) -> bool
    decreases layouts.len(),
{
    if layouts.len() == 0 {
        blank(text, from, text.len() as int)
    } else {
        &&& declaration_at(text, from, layouts[0])
        &&& source_at(text, declaration_end(layouts[0]), layouts.drop_first())
    }
}

/// The nodes that laid-out declarations declare, in their order.
pub open spec fn source_written(text: Seq<u8>, layouts: Seq<Layout>) -> Seq<NodeModel> {
    Seq::new(layouts.len(), |i: int| declaration_written(text, layouts[i]))
}

/// A text made of declarations that stand as their layouts say parses to the
/// nodes written there, in their order.
pub proof fn lemma_source_at(text: Seq<u8>, cursor: Place, from: int, layouts: Seq<Layout>)
    requires
        cursor.at == from || cursor.at == blank_end(text, from),
        source_at(text, from, layouts),
    ensures
        source(text, cursor) == Ok::<_, Fault>(source_written(text, layouts)),
    decreases layouts.len(),
{
    if layouts.len() == 0 {
        lemma_blank_is_skipped(text, from, text.len() as int);
        lemma_blank_end(text, from);
        assert(source_written(text, layouts) =~= Seq::<NodeModel>::empty());
    } else {
        let first = layouts[0];
        let rest = layouts.drop_first();
        lemma_declaration_at(text, Place { at: from, mark: from }, first);
        lemma_blank_end(text, from);
        assert(declaration_at(text, cursor.at, first)) by {
            let start = declaration_start(first);
            assert(blank(text, cursor.at, start));
        }
        lemma_declaration_at(text, cursor, first);
        lemma_declaration_advances(text, cursor);
        let next = behind(text, declaration_end(first));
        lemma_source_at(text, next, declaration_end(first), rest);
        assert(seq![declaration_written(text, first)] + source_written(text, rest)
            =~= source_written(text, layouts));
    }
}

/// Whether two laid-out variable declarations are written with the same
/// name, the same type name and the same value or none.
pub open spec fn same_variable(
    a: Seq<u8>,
    in_a: VariableLayout,
    b: Seq<u8>,
    in_b: VariableLayout,
) -> bool {
    &&& slice(a, in_a.name) == slice(b, in_b.name)
    &&& slice(a, in_a.kind) == slice(b, in_b.kind)
    &&& match (in_a.value, in_b.value) {
        (None, None) => true,
        (Some((_, value_a)), Some((_, value_b))) => slice(a, value_a) == slice(b, value_b),
        _ => false,
    }
}

/// Whether two lists of laid-out variable declarations are as long as each
/// other and written alike, one by one.
pub open spec fn same_members(
    a: Seq<u8>,
    in_a: Seq<VariableLayout>,
    b: Seq<u8>,
    in_b: Seq<VariableLayout>,
) -> bool {
    &&& in_a.len() == in_b.len()
    &&& forall|i: int| 0 <= i < in_a.len() ==> same_variable(a, #[trigger] in_a[i], b, in_b[i])
}

/// Whether two laid-out declarations are of one kind and written with the
/// same names, type names and values.
pub open spec fn same_declaration(a: Seq<u8>, in_a: Layout, b: Seq<u8>, in_b: Layout) -> bool {
    match (in_a, in_b) {
        (Layout::Record(left), Layout::Record(right)) => {
            &&& slice(a, left.name) == slice(b, right.name)
            &&& same_members(a, left.members, b, right.members)
        },
        (Layout::Tuple(left), Layout::Tuple(right)) => same_members(
            a,
            left.members,
            b,
            right.members,
        ),
        (Layout::Variable(left), Layout::Variable(right)) => same_variable(a, left, b, right),
        _ => false,
    }
}

/// Declarations written alike declare the same node.
pub proof fn lemma_same_written(a: Seq<u8>, in_a: Layout, b: Seq<u8>, in_b: Layout)
    requires
        same_declaration(a, in_a, b, in_b),
    ensures
        declaration_written(a, in_a) == declaration_written(b, in_b),
{
    match (in_a, in_b) {
        (Layout::Record(left), Layout::Record(right)) => {
            assert(members_written(a, left.members) =~= members_written(b, right.members));
        },
        (Layout::Tuple(left), Layout::Tuple(right)) => {
            assert(members_written(a, left.members) =~= members_written(b, right.members));
        },
        _ => {},
    }
}

/// Spacing is immaterial to a declaration: two texts that hold the same
/// tokens in the same order parse to the same node, however much whitespace
/// and however many comments each has before and between its tokens.
pub proof fn lemma_declaration_spacing(
    a: Seq<u8>,
    cursor_a: Place,
    in_a: Layout,
    b: Seq<u8>,
    cursor_b: Place,
    in_b: Layout,
)
    requires
        declaration_at(a, cursor_a.at, in_a),
        declaration_at(b, cursor_b.at, in_b),
        same_declaration(a, in_a, b, in_b),
    ensures
        declaration(a, cursor_a) is Ok,
        declaration(b, cursor_b) is Ok,
        declaration(a, cursor_a)->Ok_0.0 == declaration(b, cursor_b)->Ok_0.0,
{
    lemma_declaration_at(a, cursor_a, in_a);
    lemma_declaration_at(b, cursor_b, in_b);
    lemma_same_written(a, in_a, b, in_b);
}

/// Spacing is immaterial to a whole text: two texts made of the same
/// declarations in the same order parse to the same nodes, however much
/// whitespace and however many comments each has before, between and behind
/// its tokens.
pub proof fn lemma_source_spacing(a: Seq<u8>, in_a: Seq<Layout>, b: Seq<u8>, in_b: Seq<Layout>)
    requires
        source_at(a, 0, in_a),
        source_at(b, 0, in_b),
        in_a.len() == in_b.len(),
        forall|i: int| 0 <= i < in_a.len() ==> same_declaration(a, #[trigger] in_a[i], b, in_b[i]),
    ensures
        source(a, Place { at: 0, mark: 0 }) is Ok,
        source(a, Place { at: 0, mark: 0 }) == source(b, Place { at: 0, mark: 0 }),
{
    lemma_source_at(a, Place { at: 0, mark: 0 }, 0, in_a);
    lemma_source_at(b, Place { at: 0, mark: 0 }, 0, in_b);
    assert forall|i: int| 0 <= i < in_a.len() implies declaration_written(a, in_a[i])
        == declaration_written(b, in_b[i]) by {
        lemma_same_written(a, in_a[i], b, in_b[i]);
    }
    assert(source_written(a, in_a) =~= source_written(b, in_b));
}

/// A missing comma is reported right behind the name. Where the text goes
/// on, behind `var`, a name and blank space, with anything but a comma, both
/// forms of the variable declaration stop with the fault that a comma is
/// expected at the offset at which the name ends.
pub proof fn lemma_missing_comma(
    text: Seq<u8>,
    cursor: Place,
    keyword: int,
    name: (int, int),
    found: int,
)
    requires
        blank(text, cursor.at, keyword),
        fixed_at(text, keyword, Token::Var),
        blank(text, keyword + 3, name.0),
        identifier_at(text, name),
        blank(text, name.1, found),
        found == name.1 && found < text.len() ==> !is_ident_char(text[found]),
        found < text.len() ==> !is_space(text[found]) && text[found] != COMMA,
        !starts_comment(text, found),
    ensures
        variable(text, cursor) == Err::<(VariableModel, Place), _>(
            Fault { position: name.1, expected: Token::Comma },
        ),
{
    reveal(variable);
    reveal(var_init);
    reveal(var_no_init);
    let m0 = begin(cursor);
    lemma_expect(text, m0, Token::Var, cursor.at, keyword, keyword + 3);
    let m1 = then(text, m0, Token::Var);
    lemma_identifier_token(text, name);
    lemma_expect(text, m1, Token::Identifier, keyword + 3, name.0, name.1);
    let m2 = then(text, m1, Token::Identifier);
    lemma_blank_is_skipped(text, name.1, found);
    lemma_blank_end(text, name.1);
    if found < text.len() {
        assert(text[found + 0] == text[found]);
    }
    assert(token_end(text, found, Token::Comma) is None);
    assert(then(text, m2, Token::Comma) == Err::<(Seq<(int, int)>, Place), _>(
        Fault { position: name.1, expected: Token::Comma },
    ));
}

} // verus!
