//! What lies before the cursor plays no part.
//!
//! A rule reads the text from the cursor on and nothing else. Put any bytes
//! in front of a text and move the cursor by their number: every rule finds
//! the same tokens and the same node, each offset moved by that number. So a
//! rule applied at a cursor does what it would do on the rest of the text
//! alone.

use vstd::prelude::*;
use crate::ast::{Aggregate, NodeModel, VariableModel};
use crate::grammar::{
    begin, declaration, lemma_declaration_advances, lemma_members_advance, lemma_then,
    lemma_variable_advances, members, record, slice, source, spans_in, then, tuple, var_init,
    var_no_init, variable, Listed, Matched,
};
use crate::lexer::{
    blank_end, fixed_text, is_ident_char, is_space, is_value_char, lemma_run_end, lemma_token_end,
    lexeme, line_end, run_end, spec_to_lower, starts_comment, text_at, token_end, Fault, Place,
    Token, LINE_FEED,
};

verus! {

/// The place `by` bytes further on.
pub open spec fn moved(place: Place, by: int) -> Place {
    Place { at: place.at + by, mark: place.mark + by }
}

/// The fault `by` bytes further on.
pub open spec fn moved_fault(fault: Fault, by: int) -> Fault {
    Fault { position: fault.position + by, expected: fault.expected }
}

/// The span `by` bytes further on.
pub open spec fn moved_span(span: (int, int), by: int) -> (int, int) {
    (span.0 + by, span.1 + by)
}

/// The end of a token, if there is one, `by` bytes further on.
pub open spec fn moved_end(end: Option<int>, by: int) -> Option<int> {
    match end {
        Some(end) => Some(end + by),
        None => None,
    }
}

/// What looking for a token came to, `by` bytes further on.
pub open spec fn moved_lexeme(found: Result<((int, int), Place), Fault>, by: int) -> Result<
    ((int, int), Place),
    Fault,
> {
    match found {
        Ok((span, next)) => Ok((moved_span(span, by), moved(next, by))),
        Err(fault) => Err(moved_fault(fault, by)),
    }
}

/// A run ends where it ends in the rest of the text alone.
pub proof fn lemma_run_end_moved(
    before: Seq<u8>,
    text: Seq<u8>,
    from: int,
    class: spec_fn(u8) -> bool,
)
    requires
        0 <= from,
    ensures
        run_end(before + text, before.len() + from, class) == before.len() + run_end(
            text,
            from,
            class,
        ),
    decreases text.len() - from,
{
    if from < text.len() {
        assert((before + text)[before.len() + from] == text[from]);
        if class(text[from]) {
            lemma_run_end_moved(before, text, from + 1, class);
        }
    }
}

/// A comment begins where it begins in the rest of the text alone.
pub proof fn lemma_starts_comment_moved(before: Seq<u8>, text: Seq<u8>, at: int)
    requires
        0 <= at,
    ensures
        starts_comment(before + text, before.len() + at) == starts_comment(text, at),
{
    if at + 1 < text.len() {
        assert((before + text)[before.len() + at] == text[at]);
        assert((before + text)[before.len() + at + 1] == text[at + 1]);
    }
}

/// Blank space ends where it ends in the rest of the text alone.
pub proof fn lemma_blank_end_moved(before: Seq<u8>, text: Seq<u8>, from: int)
    requires
        0 <= from,
    ensures
        blank_end(before + text, before.len() + from) == before.len() + blank_end(text, from),
        from <= blank_end(text, from),
    decreases text.len() - from,
{
    let whole = before + text;
    lemma_starts_comment_moved(before, text, from);
    if from < text.len() {
        assert(whole[before.len() + from] == text[from]);
        if is_space(text[from]) {
            lemma_blank_end_moved(before, text, from + 1);
        } else if starts_comment(text, from) {
            let class = |byte: u8| byte != LINE_FEED;
            lemma_run_end(text, from + 2, class);
            lemma_run_end(whole, before.len() + from + 2, class);
            lemma_run_end_moved(before, text, from + 2, class);
            lemma_blank_end_moved(before, text, line_end(text, from + 2));
        }
    }
}

/// A keyword or punctuation mark stands where it stands in the rest of the
/// text alone.
pub proof fn lemma_text_at_moved(before: Seq<u8>, text: Seq<u8>, from: int, word: Seq<u8>)
    requires
        0 <= from,
    ensures
        text_at(before + text, before.len() + from, word) == text_at(text, from, word),
{
    let whole = before + text;
    if from + word.len() <= text.len() {
        assert forall|i: int| 0 <= i < word.len() implies #[trigger] whole[before.len() + from + i]
            == text[from + i] by {}
        if text_at(text, from, word) {
            assert forall|i: int| 0 <= i < word.len() implies spec_to_lower(
                #[trigger] whole[before.len() + from + i],
            ) == word[i] by {
                assert(spec_to_lower(text[from + i]) == word[i]);
            }
        }
        if text_at(whole, before.len() + from, word) {
            assert forall|i: int| 0 <= i < word.len() implies spec_to_lower(
                #[trigger] text[from + i],
            ) == word[i] by {
                assert(spec_to_lower(whole[before.len() + from + i]) == word[i]);
            }
        }
    }
}

/// A token ends where it ends in the rest of the text alone.
pub proof fn lemma_token_end_moved(before: Seq<u8>, text: Seq<u8>, from: int, token: Token)
    requires
        0 <= from,
    ensures
        token_end(before + text, before.len() + from, token) == moved_end(
            token_end(text, from, token),
            before.len() as int,
        ),
{
    let whole = before + text;
    if from < text.len() {
        assert(whole[before.len() + from] == text[from]);
    }
    match token {
        Token::Identifier => {
            lemma_run_end_moved(before, text, from, |byte: u8| is_ident_char(byte));
        },
        Token::Value => {
            lemma_run_end_moved(before, text, from, |byte: u8| is_value_char(byte));
        },
        _ => {
            lemma_text_at_moved(before, text, from, fixed_text(token));
        },
    }
}

/// Looking for a token finds what it finds in the rest of the text alone.
pub proof fn lemma_lexeme_moved(before: Seq<u8>, text: Seq<u8>, cursor: Place, token: Token)
    requires
        0 <= cursor.at,
    ensures
        lexeme(before + text, moved(cursor, before.len() as int), token) == moved_lexeme(
            lexeme(text, cursor, token),
            before.len() as int,
        ),
{
    lemma_blank_end_moved(before, text, cursor.at);
    let start = blank_end(text, cursor.at);
    lemma_token_end_moved(before, text, start, token);
    match token_end(text, start, token) {
        Some(end) => {
            lemma_token_end(text, start, token);
            lemma_blank_end_moved(before, text, end);
        },
        None => {},
    }
}

/// The tokens matched, `by` bytes further on.
pub open spec fn moved_matched(matched: Matched, by: int) -> Matched {
    match matched {
        Ok((spans, next)) => Ok(
            (Seq::new(spans.len(), |i: int| moved_span(spans[i], by)), moved(next, by)),
        ),
        Err(fault) => Err(moved_fault(fault, by)),
    }
}

/// What a variable rule came to, `by` bytes further on. The variable itself
/// holds no offset and stays as it is.
pub open spec fn moved_variable(parsed: Result<(VariableModel, Place), Fault>, by: int) -> Result<
    (VariableModel, Place),
    Fault,
> {
    match parsed {
        Ok((found, next)) => Ok((found, moved(next, by))),
        Err(fault) => Err(moved_fault(fault, by)),
    }
}

/// What a list of members came to, `by` bytes further on.
pub open spec fn moved_listed(parsed: Listed, by: int) -> Listed {
    match parsed {
        Ok((found, next)) => Ok((found, moved(next, by))),
        Err(fault) => Err(moved_fault(fault, by)),
    }
}

/// What a record or tuple rule came to, `by` bytes further on.
pub open spec fn moved_aggregate(parsed: Result<(Aggregate, Place), Fault>, by: int) -> Result<
    (Aggregate, Place),
    Fault,
> {
    match parsed {
        Ok((found, next)) => Ok((found, moved(next, by))),
        Err(fault) => Err(moved_fault(fault, by)),
    }
}

/// What the declaration rule came to, `by` bytes further on.
pub open spec fn moved_node(parsed: Result<(NodeModel, Place), Fault>, by: int) -> Result<
    (NodeModel, Place),
    Fault,
> {
    match parsed {
        Ok((found, next)) => Ok((found, moved(next, by))),
        Err(fault) => Err(moved_fault(fault, by)),
    }
}

/// What parsing a whole text came to, `by` bytes further on.
pub open spec fn moved_source(parsed: Result<Seq<NodeModel>, Fault>, by: int) -> Result<
    Seq<NodeModel>,
    Fault,
> {
    match parsed {
        Ok(found) => Ok(found),
        Err(fault) => Err(moved_fault(fault, by)),
    }
}

/// A span covers the bytes that it covers in the rest of the text alone.
pub proof fn lemma_slice_moved(before: Seq<u8>, text: Seq<u8>, span: (int, int))
    requires
        0 <= span.0 <= span.1 <= text.len(),
    ensures
        slice(before + text, moved_span(span, before.len() as int)) == slice(text, span),
{
    assert(slice(before + text, moved_span(span, before.len() as int)) =~= slice(text, span));
}

/// One more token is matched as it is in the rest of the text alone.
pub proof fn lemma_then_moved(before: Seq<u8>, text: Seq<u8>, so_far: Matched, token: Token)
    requires
        so_far matches Ok((_, cursor)) ==> 0 <= cursor.at,
    ensures
        then(before + text, moved_matched(so_far, before.len() as int), token) == moved_matched(
            then(text, so_far, token),
            before.len() as int,
        ),
{
    let by = before.len() as int;
    match so_far {
        Ok((spans, cursor)) => {
            lemma_lexeme_moved(before, text, cursor, token);
            match lexeme(text, cursor, token) {
                Ok((span, _)) => {
                    assert(Seq::new(spans.len(), |i: int| moved_span(spans[i], by)).push(
                        moved_span(span, by),
                    ) =~= Seq::new(
                        spans.push(span).len(),
                        |i: int| moved_span(spans.push(span)[i], by),
                    ));
                },
                Err(_) => {},
            }
        },
        Err(_) => {},
    }
}

/// The first four tokens of a variable declaration, which both forms share.
spec fn variable_head(text: Seq<u8>, cursor: Place) -> Matched {
    let matched = begin(cursor);
    let matched = then(text, matched, Token::Var);
    let matched = then(text, matched, Token::Identifier);
    let matched = then(text, matched, Token::Comma);
    then(text, matched, Token::Identifier)
}

/// The first four tokens of a variable declaration are matched as they are
/// in the rest of the text alone, and lie in the text.
proof fn lemma_variable_head_moved(before: Seq<u8>, text: Seq<u8>, cursor: Place)
    requires
        0 <= cursor.at <= text.len(),
    ensures
        variable_head(before + text, moved(cursor, before.len() as int)) == moved_matched(
            variable_head(text, cursor),
            before.len() as int,
        ),
        variable_head(text, cursor) matches Ok((spans, next)) ==> {
            &&& spans.len() == 4
            &&& spans_in(text, spans)
            &&& 0 <= next.at <= text.len()
        },
{
    let by = before.len() as int;
    let m0 = begin(cursor);
    assert(begin(moved(cursor, by)) == moved_matched(m0, by)) by {
        assert(Seq::<(int, int)>::empty() =~= Seq::new(
            m0->Ok_0.0.len(),
            |i: int| moved_span(m0->Ok_0.0[i], by),
        ));
    }
    lemma_then(text, m0, Token::Var);
    lemma_then_moved(before, text, m0, Token::Var);
    let m1 = then(text, m0, Token::Var);
    lemma_then(text, m1, Token::Identifier);
    lemma_then_moved(before, text, m1, Token::Identifier);
    let m2 = then(text, m1, Token::Identifier);
    lemma_then(text, m2, Token::Comma);
    lemma_then_moved(before, text, m2, Token::Comma);
    let m3 = then(text, m2, Token::Comma);
    lemma_then(text, m3, Token::Identifier);
    lemma_then_moved(before, text, m3, Token::Identifier);
}

/// A variable declaration parses as it does in the rest of the text alone.
pub proof fn lemma_variable_moved(before: Seq<u8>, text: Seq<u8>, cursor: Place)
    requires
        0 <= cursor.at <= text.len(),
    ensures
        var_no_init(before + text, moved(cursor, before.len() as int)) == moved_variable(
            var_no_init(text, cursor),
            before.len() as int,
        ),
        var_init(before + text, moved(cursor, before.len() as int)) == moved_variable(
            var_init(text, cursor),
            before.len() as int,
        ),
        variable(before + text, moved(cursor, before.len() as int)) == moved_variable(
            variable(text, cursor),
            before.len() as int,
        ),
{
    reveal(var_no_init);
    reveal(var_init);
    reveal(variable);
    lemma_variable_head_moved(before, text, cursor);
    let m4 = variable_head(text, cursor);
    // Without a value.
    lemma_then(text, m4, Token::Semicolon);
    lemma_then_moved(before, text, m4, Token::Semicolon);
    match then(text, m4, Token::Semicolon) {
        Ok((spans, _)) => {
            lemma_slice_moved(before, text, spans[1]);
            lemma_slice_moved(before, text, spans[3]);
        },
        Err(_) => {},
    }
    // With a value.
    lemma_then(text, m4, Token::Comma);
    lemma_then_moved(before, text, m4, Token::Comma);
    let m5 = then(text, m4, Token::Comma);
    lemma_then(text, m5, Token::Value);
    lemma_then_moved(before, text, m5, Token::Value);
    let m6 = then(text, m5, Token::Value);
    lemma_then(text, m6, Token::Semicolon);
    lemma_then_moved(before, text, m6, Token::Semicolon);
    match then(text, m6, Token::Semicolon) {
        Ok((spans, _)) => {
            lemma_slice_moved(before, text, spans[1]);
            lemma_slice_moved(before, text, spans[3]);
            lemma_slice_moved(before, text, spans[5]);
        },
        Err(_) => {},
    }
}

/// A list of members parses as it does in the rest of the text alone.
pub proof fn lemma_members_moved(before: Seq<u8>, text: Seq<u8>, cursor: Place)
    requires
        0 <= cursor.at <= text.len(),
    ensures
        members(before + text, moved(cursor, before.len() as int)) == moved_listed(
            members(text, cursor),
            before.len() as int,
        ),
    decreases text.len() - cursor.at,
{
    let by = before.len() as int;
    let whole = before + text;
    lemma_lexeme_moved(before, text, cursor, Token::Var);
    lemma_variable_moved(before, text, cursor);
    lemma_variable_advances(text, cursor);
    lemma_variable_advances(whole, moved(cursor, by));
    if lexeme(text, cursor, Token::Var) is Ok {
        match variable(text, cursor) {
            Ok((_, next)) => {
                lemma_members_moved(before, text, next);
            },
            Err(_) => {},
        }
    }
}

/// What follows the opening brace of a record or a tuple parses as it does
/// in the rest of the text alone.
proof fn lemma_body_moved(before: Seq<u8>, text: Seq<u8>, body: Place)
    requires
        0 <= body.at <= text.len(),
    ensures
        members(before + text, moved(body, before.len() as int)) == moved_listed(
            members(text, body),
            before.len() as int,
        ),
        members(text, body) matches Ok((_, after)) ==> lexeme(
            before + text,
            moved(after, before.len() as int),
            Token::CloseBrace,
        ) == moved_lexeme(lexeme(text, after, Token::CloseBrace), before.len() as int),
{
    lemma_members_moved(before, text, body);
    lemma_members_advance(text, body);
    match members(text, body) {
        Ok((_, after)) => {
            lemma_lexeme_moved(before, text, after, Token::CloseBrace);
        },
        Err(_) => {},
    }
}

/// A record and a tuple parse as they do in the rest of the text alone.
pub proof fn lemma_aggregate_moved(before: Seq<u8>, text: Seq<u8>, cursor: Place)
    requires
        0 <= cursor.at <= text.len(),
    ensures
        record(before + text, moved(cursor, before.len() as int)) == moved_aggregate(
            record(text, cursor),
            before.len() as int,
        ),
        tuple(before + text, moved(cursor, before.len() as int)) == moved_aggregate(
            tuple(text, cursor),
            before.len() as int,
        ),
{
    reveal(record);
    reveal(tuple);
    let by = before.len() as int;
    let m0 = begin(cursor);
    assert(begin(moved(cursor, by)) == moved_matched(m0, by)) by {
        assert(Seq::<(int, int)>::empty() =~= Seq::new(
            m0->Ok_0.0.len(),
            |i: int| moved_span(m0->Ok_0.0[i], by),
        ));
    }
    // A record.
    lemma_then(text, m0, Token::Record);
    lemma_then_moved(before, text, m0, Token::Record);
    let r1 = then(text, m0, Token::Record);
    lemma_then(text, r1, Token::Identifier);
    lemma_then_moved(before, text, r1, Token::Identifier);
    let r2 = then(text, r1, Token::Identifier);
    lemma_then(text, r2, Token::OpenBrace);
    lemma_then_moved(before, text, r2, Token::OpenBrace);
    match then(text, r2, Token::OpenBrace) {
        Ok((spans, body)) => {
            lemma_slice_moved(before, text, spans[1]);
            lemma_body_moved(before, text, body);
        },
        Err(_) => {},
    }
    // A tuple.
    lemma_then(text, m0, Token::Tuple);
    lemma_then_moved(before, text, m0, Token::Tuple);
    let t1 = then(text, m0, Token::Tuple);
    lemma_then(text, t1, Token::OpenBrace);
    lemma_then_moved(before, text, t1, Token::OpenBrace);
    match then(text, t1, Token::OpenBrace) {
        Ok((_, body)) => {
            lemma_body_moved(before, text, body);
        },
        Err(_) => {},
    }
}

/// A declaration parses as it does in the rest of the text alone.
pub proof fn lemma_declaration_moved(before: Seq<u8>, text: Seq<u8>, cursor: Place)
    requires
        0 <= cursor.at <= text.len(),
    ensures
        declaration(before + text, moved(cursor, before.len() as int)) == moved_node(
            declaration(text, cursor),
            before.len() as int,
        ),
{
    reveal(declaration);
    lemma_lexeme_moved(before, text, cursor, Token::Record);
    lemma_lexeme_moved(before, text, cursor, Token::Tuple);
    lemma_aggregate_moved(before, text, cursor);
    lemma_variable_moved(before, text, cursor);
}

/// A whole text parses, from a cursor on, as the rest of the text alone
/// does.
pub proof fn lemma_source_moved(before: Seq<u8>, text: Seq<u8>, cursor: Place)
    requires
        0 <= cursor.at <= text.len(),
    ensures
        source(before + text, moved(cursor, before.len() as int)) == moved_source(
            source(text, cursor),
            before.len() as int,
        ),
    decreases text.len() - cursor.at,
{
    let by = before.len() as int;
    let whole = before + text;
    lemma_blank_end_moved(before, text, cursor.at);
    lemma_declaration_moved(before, text, cursor);
    lemma_declaration_advances(text, cursor);
    lemma_declaration_advances(whole, moved(cursor, by));
    if blank_end(text, cursor.at) < text.len() {
        match declaration(text, cursor) {
            Ok((_, next)) => {
                lemma_source_moved(before, text, next);
            },
            Err(_) => {},
        }
    }
}

/// A declaration parses, at a cursor, as it does at the start of the rest
/// of the text behind the cursor's mark, with every offset counted from
/// there.
pub proof fn lemma_declaration_of_rest(text: Seq<u8>, cursor: Place)
    requires
        0 <= cursor.mark <= cursor.at <= text.len(),
    ensures
        declaration(text, cursor) == moved_node(
            declaration(text.skip(cursor.mark), moved(cursor, -cursor.mark)),
            cursor.mark,
        ),
{
    let before = text.take(cursor.mark);
    assert(before + text.skip(cursor.mark) =~= text);
    lemma_declaration_moved(before, text.skip(cursor.mark), moved(cursor, -cursor.mark));
}

/// A whole text parses, from a cursor on, as the rest of the text behind
/// the cursor's mark does from its start on.
pub proof fn lemma_source_of_rest(text: Seq<u8>, cursor: Place)
    requires
        0 <= cursor.mark <= cursor.at <= text.len(),
    ensures
        source(text, cursor) == moved_source(
            source(text.skip(cursor.mark), moved(cursor, -cursor.mark)),
            cursor.mark,
        ),
{
    let before = text.take(cursor.mark);
    assert(before + text.skip(cursor.mark) =~= text);
    lemma_source_moved(before, text.skip(cursor.mark), moved(cursor, -cursor.mark));
}

} // verus!
