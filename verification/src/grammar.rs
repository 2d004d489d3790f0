//! The declaration grammar.
//!
//! ```text
//! source      = { declaration }
//! declaration = record | tuple | variable
//! record      = "record" identifier "{" { variable } "}"
//! tuple       = "tuple" "{" { variable } "}"
//! variable    = "var" identifier "," identifier [ "," value ] ";"
//! ```
//!
//! Blank space may stand before and after every token. Keywords are written
//! in any case. Every rule is a function of the text and a cursor, and gives
//! either a node with the cursor behind it or the first fault.
//!
//! A record and a tuple may be empty. Names are not held against one
//! another: a member may bear the name of its record, and two members the
//! same name.
//!
//! Each rule is stated twice: as a function on the bytes of the text, which
//! says what the rule means, and as an executable function that is proved to
//! compute it.

use vstd::prelude::*;
use vstd::slice::slice_subrange;
use vstd::string::StringSliceAdditionalSpecFns;
use crate::ast::{
    models, node_models, record_of, tuple_of, variable_of, Aggregate, Node, NodeModel, Record,
    Tuple, Variable, VariableModel,
};
use crate::lexer::{
    blank_end, lemma_lexeme, lexeme, skip_blank, ws, Cursor, Fault, LexError, Place, Token,
};

verus! {

/// The spans of the tokens matched so far and the place behind them, or the
/// fault that stopped the matching.
pub type Matched = Result<(Seq<(int, int)>, Place), Fault>;

/// Nothing matched yet.
pub open spec fn begin(cursor: Place) -> Matched {
    Ok((Seq::empty(), cursor))
}

/// One more token matched behind the ones matched so far.
pub open spec fn then(text: Seq<u8>, so_far: Matched, token: Token) -> Matched {
    match so_far {
        Err(fault) => Err(fault),
        Ok((spans, cursor)) => match lexeme(text, cursor, token) {
            Err(fault) => Err(fault),
            Ok((span, next)) => Ok((spans.push(span), next)),
        },
    }
}

/// The bytes of the text that a span covers.
pub open spec fn slice(text: Seq<u8>, span: (int, int)) -> Seq<u8> {
    text.subrange(span.0, span.1)
}

/// The tokens of a variable declaration without a value.
pub open spec fn var_no_init_tokens(text: Seq<u8>, cursor: Place) -> Matched {
    let matched = begin(cursor);
    let matched = then(text, matched, Token::Var);
    let matched = then(text, matched, Token::Identifier);
    let matched = then(text, matched, Token::Comma);
    let matched = then(text, matched, Token::Identifier);
    then(text, matched, Token::Semicolon)
}

/// The tokens of a variable declaration with a value.
pub open spec fn var_init_tokens(text: Seq<u8>, cursor: Place) -> Matched {
    let matched = begin(cursor);
    let matched = then(text, matched, Token::Var);
    let matched = then(text, matched, Token::Identifier);
    let matched = then(text, matched, Token::Comma);
    let matched = then(text, matched, Token::Identifier);
    let matched = then(text, matched, Token::Comma);
    let matched = then(text, matched, Token::Value);
    then(text, matched, Token::Semicolon)
}

/// `var name, type;`
#[verifier::opaque]
pub open spec fn var_no_init(text: Seq<u8>, cursor: Place) -> Result<(VariableModel, Place), Fault> {
    match var_no_init_tokens(text, cursor) {
        Err(fault) => Err(fault),
        Ok((spans, next)) => Ok(
            (variable_of(slice(text, spans[1]), slice(text, spans[3]), Seq::empty()), next),
        ),
    }
}

/// `var name, type, value;`
#[verifier::opaque]
pub open spec fn var_init(text: Seq<u8>, cursor: Place) -> Result<(VariableModel, Place), Fault> {
    match var_init_tokens(text, cursor) {
        Err(fault) => Err(fault),
        Ok((spans, next)) => Ok(
            (
                variable_of(slice(text, spans[1]), slice(text, spans[3]), slice(text, spans[5])),
                next,
            ),
        ),
    }
}

/// A variable declaration: the form with a value where the text has it, else
/// the form without.
#[verifier::opaque]
pub open spec fn variable(text: Seq<u8>, cursor: Place) -> Result<(VariableModel, Place), Fault> {
    match var_init(text, cursor) {
        Ok(found) => Ok(found),
        Err(_) => var_no_init(text, cursor),
    }
}

/// What an executable variable rule returned, as mathematical content.
pub open spec fn variable_outcome(parsed: Result<(Variable, Cursor), LexError>) -> Result<
    (VariableModel, Place),
    Fault,
> {
    match parsed {
        Ok((variable, next)) => Ok((variable@, next@)),
        Err(error) => Err(error@),
    }
}

/// Whether every span is not empty and lies in the text.
pub open spec fn spans_in(text: Seq<u8>, spans: Seq<(int, int)>) -> bool {
    forall|i: int| 0 <= i < spans.len() ==> 0 <= (#[trigger] spans[i]).0 < spans[i].1 <= text.len()
}

/// Matching one more token moves the place forward and keeps it, and the
/// span of the token, in the text.
pub proof fn lemma_then(text: Seq<u8>, so_far: Matched, token: Token)
    requires
        so_far matches Ok((before, cursor)) ==> 0 <= cursor.at <= text.len() && spans_in(
            text,
            before,
        ),
    ensures
        then(text, so_far, token) matches Ok((spans, next)) ==> {
            &&& so_far matches Ok((before, cursor))
            &&& spans.len() == before.len() + 1
            &&& spans_in(text, spans)
            &&& cursor.at < next.at <= text.len()
            &&& 0 <= next.mark <= next.at
        },
{
    match so_far {
        Ok((_, cursor)) => {
            lemma_lexeme(text, cursor, token);
        },
        Err(_) => {},
    }
}

/// A variable declaration that parses is not empty and ends in the text.
pub proof fn lemma_variable_advances(text: Seq<u8>, cursor: Place)
    requires
        0 <= cursor.at <= text.len(),
    ensures
        var_no_init(text, cursor) matches Ok((_, next)) ==> cursor.at < next.at <= text.len(),
        var_init(text, cursor) matches Ok((_, next)) ==> cursor.at < next.at <= text.len(),
        variable(text, cursor) matches Ok((_, next)) ==> cursor.at < next.at <= text.len(),
{
    reveal(var_no_init);
    reveal(var_init);
    reveal(variable);
    let m0 = begin(cursor);
    let m1 = then(text, m0, Token::Var);
    lemma_then(text, m0, Token::Var);
    let m2 = then(text, m1, Token::Identifier);
    lemma_then(text, m1, Token::Identifier);
    let m3 = then(text, m2, Token::Comma);
    lemma_then(text, m2, Token::Comma);
    let m4 = then(text, m3, Token::Identifier);
    lemma_then(text, m3, Token::Identifier);
    lemma_then(text, m4, Token::Semicolon);
    let m5 = then(text, m4, Token::Comma);
    lemma_then(text, m4, Token::Comma);
    let m6 = then(text, m5, Token::Value);
    lemma_then(text, m5, Token::Value);
    lemma_then(text, m6, Token::Semicolon);
}

/// The value of a variable is empty where the declaration has none, and only
/// there: a value that is written holds at least one byte.
pub proof fn lemma_value_presence(text: Seq<u8>, cursor: Place)
    requires
        0 <= cursor.at <= text.len(),
    ensures
        var_no_init(text, cursor) matches Ok((found, _)) ==> found.value.len() == 0,
        var_init(text, cursor) matches Ok((found, _)) ==> found.value.len() > 0,
{
    reveal(var_no_init);
    reveal(var_init);
    let m0 = begin(cursor);
    let m1 = then(text, m0, Token::Var);
    lemma_then(text, m0, Token::Var);
    let m2 = then(text, m1, Token::Identifier);
    lemma_then(text, m1, Token::Identifier);
    let m3 = then(text, m2, Token::Comma);
    lemma_then(text, m2, Token::Comma);
    let m4 = then(text, m3, Token::Identifier);
    lemma_then(text, m3, Token::Identifier);
    let m5 = then(text, m4, Token::Comma);
    lemma_then(text, m4, Token::Comma);
    lemma_then(text, m5, Token::Value);
    match m5 {
        Ok((_, before)) => {
            lemma_lexeme(text, before, Token::Value);
        },
        Err(_) => {},
    }
}

/// Parses a variable declaration without a value, `var name, type;`.
pub fn var_decl_no_init(input: &[u8], cursor: Cursor) -> (parsed: Result<
    (Variable, Cursor),
    LexError,
>)
    ensures
        variable_outcome(parsed) == var_no_init(input@, cursor@),
{
    reveal(var_no_init);
    let (_, after) = ws(input, cursor, Token::Var)?;
    let (name, after) = ws(input, after, Token::Identifier)?;
    let (_, after) = ws(input, after, Token::Comma)?;
    let (kind, after) = ws(input, after, Token::Identifier)?;
    let (_, after) = ws(input, after, Token::Semicolon)?;
    let variable = Variable::new(
        slice_subrange(input, name.start, name.end),
        slice_subrange(input, kind.start, kind.end),
        slice_subrange(input, 0, 0),
    );
    assert(input@.subrange(0, 0) =~= Seq::<u8>::empty());
    Ok((variable, after))
}

/// Parses a variable declaration with a value, `var name, type, value;`.
pub fn var_decl_init(input: &[u8], cursor: Cursor) -> (parsed: Result<(Variable, Cursor), LexError>)
    ensures
        variable_outcome(parsed) == var_init(input@, cursor@),
{
    reveal(var_init);
    let (_, after) = ws(input, cursor, Token::Var)?;
    let (name, after) = ws(input, after, Token::Identifier)?;
    let (_, after) = ws(input, after, Token::Comma)?;
    let (kind, after) = ws(input, after, Token::Identifier)?;
    let (_, after) = ws(input, after, Token::Comma)?;
    let (value, after) = ws(input, after, Token::Value)?;
    let (_, after) = ws(input, after, Token::Semicolon)?;
    let variable = Variable::new(
        slice_subrange(input, name.start, name.end),
        slice_subrange(input, kind.start, kind.end),
        slice_subrange(input, value.start, value.end),
    );
    Ok((variable, after))
}

/// Parses a variable declaration of either form. The form with a value is
/// tried first; where it does not match, the form without is tried from the
/// same cursor, and a fault is the one that this second form met.
pub fn var_decl(input: &[u8], cursor: Cursor) -> (parsed: Result<(Variable, Cursor), LexError>)
    ensures
        variable_outcome(parsed) == variable(input@, cursor@),
{
    reveal(variable);
    match var_decl_init(input, cursor) {
        Ok(found) => Ok(found),
        Err(_) => var_decl_no_init(input, cursor),
    }
}

/// A list of members and the place behind it, or the fault that stopped it.
pub type Listed = Result<(Seq<VariableModel>, Place), Fault>;

/// The members `head` in front of what was listed behind them.
pub open spec fn prepend(head: Seq<VariableModel>, tail: Listed) -> Listed {
    match tail {
        Ok((rest, end)) => Ok((head + rest, end)),
        Err(fault) => Err(fault),
    }
}

/// The variable declarations that follow one another from the cursor on. The
/// list ends before the first token that is not `var`; a declaration that
/// begins with `var` and does not parse is a fault.
pub open spec fn members(text: Seq<u8>, cursor: Place) -> Listed
    decreases text.len() - cursor.at,
    via members_decreases
{
    if lexeme(text, cursor, Token::Var) is Ok {
        match variable(text, cursor) {
            Err(fault) => Err(fault),
            Ok((first, next)) => prepend(seq![first], members(text, next)),
        }
    } else {
        Ok((Seq::empty(), cursor))
    }
}

/// A member that parses leaves less of the text behind it.
#[via_fn]
proof fn members_decreases(text: Seq<u8>, cursor: Place) {
    if lexeme(text, cursor, Token::Var) is Ok {
        lemma_variable_advances(text, cursor);
    }
}

/// A list of members ends in the text, at or behind the cursor.
pub proof fn lemma_members_advance(text: Seq<u8>, cursor: Place)
    requires
        0 <= cursor.at <= text.len(),
    ensures
        members(text, cursor) matches Ok((_, end)) ==> cursor.at <= end.at <= text.len(),
    decreases text.len() - cursor.at,
{
    if lexeme(text, cursor, Token::Var) is Ok {
        lemma_variable_advances(text, cursor);
        match variable(text, cursor) {
            Ok((_, next)) => {
                lemma_members_advance(text, next);
            },
            Err(_) => {},
        }
    }
}

/// `record Name { members }`
#[verifier::opaque]
pub open spec fn record(text: Seq<u8>, cursor: Place) -> Result<(Aggregate, Place), Fault> {
    let matched = begin(cursor);
    let matched = then(text, matched, Token::Record);
    let matched = then(text, matched, Token::Identifier);
    let matched = then(text, matched, Token::OpenBrace);
    match matched {
        Err(fault) => Err(fault),
        Ok((spans, body)) => match members(text, body) {
            Err(fault) => Err(fault),
            Ok((list, after)) => match lexeme(text, after, Token::CloseBrace) {
                Err(fault) => Err(fault),
                Ok((_, next)) => Ok((record_of(slice(text, spans[1]), list), next)),
            },
        },
    }
}

/// `tuple { members }`
#[verifier::opaque]
pub open spec fn tuple(text: Seq<u8>, cursor: Place) -> Result<(Aggregate, Place), Fault> {
    let matched = begin(cursor);
    let matched = then(text, matched, Token::Tuple);
    let matched = then(text, matched, Token::OpenBrace);
    match matched {
        Err(fault) => Err(fault),
        Ok((_, body)) => match members(text, body) {
            Err(fault) => Err(fault),
            Ok((list, after)) => match lexeme(text, after, Token::CloseBrace) {
                Err(fault) => Err(fault),
                Ok((_, next)) => Ok((tuple_of(list), next)),
            },
        },
    }
}

/// A declaration: a record where the text goes on with `record`, a tuple
/// where it goes on with `tuple`, else a variable.
#[verifier::opaque]
pub open spec fn declaration(text: Seq<u8>, cursor: Place) -> Result<(NodeModel, Place), Fault> {
    if lexeme(text, cursor, Token::Record) is Ok {
        match record(text, cursor) {
            Ok((found, next)) => Ok((NodeModel::Record(found), next)),
            Err(fault) => Err(fault),
        }
    } else if lexeme(text, cursor, Token::Tuple) is Ok {
        match tuple(text, cursor) {
            Ok((found, next)) => Ok((NodeModel::Tuple(found), next)),
            Err(fault) => Err(fault),
        }
    } else {
        match variable(text, cursor) {
            Ok((found, next)) => Ok((NodeModel::Variable(found), next)),
            Err(fault) => Err(fault),
        }
    }
}

/// A record or tuple that parses is not empty and ends in the text.
pub proof fn lemma_aggregate_advances(text: Seq<u8>, cursor: Place)
    requires
        0 <= cursor.at <= text.len(),
    ensures
        record(text, cursor) matches Ok((_, next)) ==> cursor.at < next.at <= text.len(),
        tuple(text, cursor) matches Ok((_, next)) ==> cursor.at < next.at <= text.len(),
{
    reveal(record);
    reveal(tuple);
    let m0 = begin(cursor);
    let r1 = then(text, m0, Token::Record);
    lemma_then(text, m0, Token::Record);
    let r2 = then(text, r1, Token::Identifier);
    lemma_then(text, r1, Token::Identifier);
    let r3 = then(text, r2, Token::OpenBrace);
    lemma_then(text, r2, Token::OpenBrace);
    match r3 {
        Ok((_, body)) => {
            lemma_members_advance(text, body);
            match members(text, body) {
                Ok((_, after)) => {
                    lemma_lexeme(text, after, Token::CloseBrace);
                },
                Err(_) => {},
            }
        },
        Err(_) => {},
    }
    let t1 = then(text, m0, Token::Tuple);
    lemma_then(text, m0, Token::Tuple);
    let t2 = then(text, t1, Token::OpenBrace);
    lemma_then(text, t1, Token::OpenBrace);
    match t2 {
        Ok((_, body)) => {
            lemma_members_advance(text, body);
            match members(text, body) {
                Ok((_, after)) => {
                    lemma_lexeme(text, after, Token::CloseBrace);
                },
                Err(_) => {},
            }
        },
        Err(_) => {},
    }
}

/// A declaration that parses is not empty and ends in the text.
pub proof fn lemma_declaration_advances(text: Seq<u8>, cursor: Place)
    requires
        0 <= cursor.at <= text.len(),
    ensures
        declaration(text, cursor) matches Ok((_, next)) ==> cursor.at < next.at <= text.len(),
{
    reveal(declaration);
    lemma_variable_advances(text, cursor);
    lemma_aggregate_advances(text, cursor);
}

/// The declarations of a whole text from the cursor on: one after the other
/// until only blank space is left.
pub open spec fn source(text: Seq<u8>, cursor: Place) -> Result<Seq<NodeModel>, Fault>
    decreases text.len() - cursor.at,
    via source_decreases
{
    if blank_end(text, cursor.at) >= text.len() {
        Ok(Seq::empty())
    } else {
        match declaration(text, cursor) {
            Err(fault) => Err(fault),
            Ok((first, next)) => match source(text, next) {
                Err(fault) => Err(fault),
                Ok(rest) => Ok(seq![first] + rest),
            },
        }
    }
}

/// A declaration that parses leaves less of the text behind it.
#[via_fn]
proof fn source_decreases(text: Seq<u8>, cursor: Place) {
    if 0 <= cursor.at <= text.len() {
        lemma_declaration_advances(text, cursor);
    } else if cursor.at < 0 {
        lemma_nothing_before_the_text(text, cursor);
    }
}

/// No declaration begins before the text does.
proof fn lemma_nothing_before_the_text(text: Seq<u8>, cursor: Place)
    requires
        cursor.at < 0,
    ensures
        declaration(text, cursor) is Err,
{
    assert(lexeme(text, cursor, Token::Record) is Err);
    assert(lexeme(text, cursor, Token::Tuple) is Err);
    assert(lexeme(text, cursor, Token::Var) is Err);
    assert(then(text, begin(cursor), Token::Var) is Err);
    assert(var_no_init(text, cursor) is Err) by {
        reveal(var_no_init);
    }
    assert(var_init(text, cursor) is Err) by {
        reveal(var_init);
    }
    reveal(variable);
    reveal(declaration);
}

/// What an executable list of members came to, as mathematical content.
pub open spec fn members_outcome(parsed: Result<(Vec<Variable>, Cursor), LexError>) -> Listed {
    match parsed {
        Ok((list, next)) => Ok((models(list@), next@)),
        Err(error) => Err(error@),
    }
}

/// Parses the variable declarations that follow one another from the cursor
/// on, up to the first token that is not `var`.
pub fn member_list(input: &[u8], cursor: Cursor) -> (parsed: Result<
    (Vec<Variable>, Cursor),
    LexError,
>)
    ensures
        members_outcome(parsed) == members(input@, cursor@),
{
    let mut list: Vec<Variable> = Vec::new();
    let mut at: Cursor = cursor;
    loop
        invariant
            members(input@, cursor@) == prepend(models(list@), members(input@, at@)),
        decreases input.len() - at.at,
    {
        match ws(input, at, Token::Var) {
            Err(_) => {
                proof {
                    assert(models(list@) + Seq::<VariableModel>::empty() =~= models(list@));
                }
                return Ok((list, at));
            },
            Ok(_) => {
                proof {
                    lemma_variable_advances(input@, at@);
                }
                match var_decl(input, at) {
                    Err(error) => {
                        return Err(error);
                    },
                    Ok((member, next)) => {
                        proof {
                            assert(models(list@.push(member)) =~= models(list@) + seq![member@]);
                            let tail = members(input@, next@);
                            match tail {
                                Ok((rest, _)) => {
                                    assert(models(list@) + (seq![member@] + rest) =~= (models(
                                        list@,
                                    ) + seq![member@]) + rest);
                                },
                                Err(_) => {},
                            }
                        }
                        list.push(member);
                        at = next;
                    },
                }
            },
        }
    }
}

/// What an executable aggregate rule returned, as mathematical content.
pub open spec fn record_outcome(parsed: Result<(Record, Cursor), LexError>) -> Result<
    (Aggregate, Place),
    Fault,
> {
    match parsed {
        Ok((found, next)) => Ok((found@, next@)),
        Err(error) => Err(error@),
    }
}

/// What an executable aggregate rule returned, as mathematical content.
pub open spec fn tuple_outcome(parsed: Result<(Tuple, Cursor), LexError>) -> Result<
    (Aggregate, Place),
    Fault,
> {
    match parsed {
        Ok((found, next)) => Ok((found@, next@)),
        Err(error) => Err(error@),
    }
}

/// What the executable declaration rule returned, as mathematical content.
pub open spec fn node_outcome(parsed: Result<(Node, Cursor), LexError>) -> Result<
    (NodeModel, Place),
    Fault,
> {
    match parsed {
        Ok((found, next)) => Ok((found@, next@)),
        Err(error) => Err(error@),
    }
}

/// What parsing a whole text returned, as mathematical content.
pub open spec fn source_outcome(parsed: Result<Vec<Node>, LexError>) -> Result<
    Seq<NodeModel>,
    Fault,
> {
    match parsed {
        Ok(nodes) => Ok(node_models(nodes@)),
        Err(error) => Err(error@),
    }
}

/// Parses a record, `record Name { members }`.
pub fn record_decl(input: &[u8], cursor: Cursor) -> (parsed: Result<(Record, Cursor), LexError>)
    ensures
        record_outcome(parsed) == record(input@, cursor@),
{
    reveal(record);
    let (_, after) = ws(input, cursor, Token::Record)?;
    let (name, after) = ws(input, after, Token::Identifier)?;
    let (_, after) = ws(input, after, Token::OpenBrace)?;
    let (list, after) = member_list(input, after)?;
    let (_, after) = ws(input, after, Token::CloseBrace)?;
    Ok((Record::new(slice_subrange(input, name.start, name.end), list), after))
}

/// Parses a tuple, `tuple { members }`.
pub fn tuple_decl(input: &[u8], cursor: Cursor) -> (parsed: Result<(Tuple, Cursor), LexError>)
    ensures
        tuple_outcome(parsed) == tuple(input@, cursor@),
        parsed matches Ok((found, _)) ==> found.well_formed(),
{
    reveal(tuple);
    let (_, after) = ws(input, cursor, Token::Tuple)?;
    let (_, after) = ws(input, after, Token::OpenBrace)?;
    let (list, after) = member_list(input, after)?;
    let (_, after) = ws(input, after, Token::CloseBrace)?;
    Ok((Tuple::new(list), after))
}

/// Parses one declaration: a record, a tuple or a variable, told apart by
/// the keyword that the text goes on with. A text that goes on with neither
/// `record` nor `tuple` is read as a variable, so where no declaration
/// begins the fault names `var`.
pub fn node(input: &[u8], cursor: Cursor) -> (parsed: Result<(Node, Cursor), LexError>)
    ensures
        node_outcome(parsed) == declaration(input@, cursor@),
{
    reveal(declaration);
    if ws(input, cursor, Token::Record).is_ok() {
        match record_decl(input, cursor) {
            Ok((found, next)) => Ok((Node::Record(found), next)),
            Err(error) => Err(error),
        }
    } else if ws(input, cursor, Token::Tuple).is_ok() {
        match tuple_decl(input, cursor) {
            Ok((found, next)) => Ok((Node::Tuple(found), next)),
            Err(error) => Err(error),
        }
    } else {
        match var_decl(input, cursor) {
            Ok((found, next)) => Ok((Node::Variable(found), next)),
            Err(error) => Err(error),
        }
    }
}

/// Parses a whole text: its declarations in source order. Parsing stops at
/// the first fault, and nothing of what was parsed before it is returned.
pub fn parse(input: &[u8]) -> (parsed: Result<Vec<Node>, LexError>)
    ensures
        source_outcome(parsed) == source(input@, Place { at: 0, mark: 0 }),
{
    let mut nodes: Vec<Node> = Vec::new();
    let mut at: Cursor = Cursor::new(0);
    while skip_blank(input, at.at) < input.len()
        invariant
            at.at <= input.len(),
            source(input@, Place { at: 0, mark: 0 }) == match source(input@, at@) {
                Ok(rest) => Ok::<Seq<NodeModel>, Fault>(node_models(nodes@) + rest),
                Err(fault) => Err(fault),
            },
        decreases input.len() - at.at,
    {
        proof {
            lemma_declaration_advances(input@, at@);
        }
        match node(input, at) {
            Err(error) => {
                return Err(error);
            },
            Ok((found, next)) => {
                proof {
                    assert(node_models(nodes@.push(found)) =~= node_models(nodes@) + seq![found@]);
                    match source(input@, next@) {
                        Ok(rest) => {
                            assert(node_models(nodes@) + (seq![found@] + rest) =~= (node_models(
                                nodes@,
                            ) + seq![found@]) + rest);
                        },
                        Err(_) => {},
                    }
                }
                nodes.push(found);
                at = next;
            },
        }
    }
    proof {
        assert(node_models(nodes@) + Seq::<NodeModel>::empty() =~= node_models(nodes@));
    }
    Ok(nodes)
}

/// Parses a whole text given as a string. Offsets count the bytes of its
/// UTF-8 encoding.
pub fn parse_str(text: &str) -> (parsed: Result<Vec<Node>, LexError>)
    ensures
        source_outcome(parsed) == source(text.spec_bytes(), Place { at: 0, mark: 0 }),
{
    parse(text.as_bytes())
}

} // verus!
