//! The statement parser: a chain of states, each of which reads tokens from
//! the scanner and fills in the statement or fails.
use crate::lexer::{
    lemma_ident_run_bounds, lemma_scan_advances, lemma_whitespace_end_bounds, scan_at, Lexer, Token,
    TokenView,
};
use vstd::prelude::*;

verus! {

/// A parsed statement.
#[derive(Debug, Clone, PartialEq)]
pub enum Statement {
    SelectStatement { fields: Vec<String>, table: String },
    InsertStatement { cols: Vec<String>, values: Vec<String>, table: String },
}

/// The mathematical value of a [`Statement`].
pub enum StatementView {
    SelectStatement { fields: Seq<Seq<char>>, table: Seq<char> },
    InsertStatement { cols: Seq<Seq<char>>, values: Seq<Seq<char>>, table: Seq<char> },
}

/// The texts of a sequence of strings, in the same order.
pub open spec fn texts(strings: Seq<String>) -> Seq<Seq<char>> {
    strings.map_values(|s: String| s@)
}

impl View for Statement {
    type V = StatementView;

    open spec fn view(&self) -> StatementView {
        match *self {
            Statement::SelectStatement { fields, table } => StatementView::SelectStatement {
                fields: texts(fields@),
                table: table@,
            },
            Statement::InsertStatement { cols, values, table } => StatementView::InsertStatement {
                cols: texts(cols@),
                values: texts(values@),
                table: table@,
            },
        }
    }
}

/// Why a parse failed.
#[derive(Debug, Clone, Copy, PartialEq, Eq, Structural)]
pub enum ParseError {
    /// The statement starts with neither `SELECT` nor `INSERT`.
    BadBeginning,
    /// `INTO` does not follow the statement's first keyword.
    IntoExpected,
    /// No identifier follows `INTO`.
    TableNameExpected,
    /// `VALUES` does not follow the table name or the column list.
    ValuesExpected,
    /// A list does not open with `(`.
    OpenParenExpected,
    /// A list holds something other than an identifier where an item is due.
    IdentExpected,
    /// A list's item is followed by neither `,` nor `)`.
    CloseParenExpected,
    /// A state ran on a statement of the wrong kind.
    WrongStatementType,
    /// A state ran before any statement was set up.
    StatementNotCreated,
    /// The states came to an end without a statement.
    CouldNotParse,
}

impl ParseError {
    /// The message that stands for this error.
    pub open spec fn text(self) -> Seq<char> {
        match self {
            ParseError::BadBeginning => "bad statement beginning"@,
            ParseError::IntoExpected => "INTO keyword expected"@,
            ParseError::TableNameExpected => "table name expected"@,
            ParseError::ValuesExpected => "VALUES keyword expected"@,
            ParseError::OpenParenExpected => "( expected"@,
            ParseError::IdentExpected => "ident expected"@,
            ParseError::CloseParenExpected => ") expected"@,
            ParseError::WrongStatementType => "Wrong statement type"@,
            ParseError::StatementNotCreated => "Statement not created"@,
            ParseError::CouldNotParse => "could not parse"@,
        }
    }

    /// The message that stands for this error, as a string.
    pub fn message(&self) -> (m: String)
        ensures
            m@ == self.text(),
    {
        match self {
            ParseError::BadBeginning => "bad statement beginning".to_owned(),
            ParseError::IntoExpected => "INTO keyword expected".to_owned(),
            ParseError::TableNameExpected => "table name expected".to_owned(),
            ParseError::ValuesExpected => "VALUES keyword expected".to_owned(),
            ParseError::OpenParenExpected => "( expected".to_owned(),
            ParseError::IdentExpected => "ident expected".to_owned(),
            ParseError::CloseParenExpected => ") expected".to_owned(),
            ParseError::WrongStatementType => "Wrong statement type".to_owned(),
            ParseError::StatementNotCreated => "Statement not created".to_owned(),
            ParseError::CouldNotParse => "could not parse".to_owned(),
        }
    }
}

/// The states of the parser, in the order in which a parse passes them.
#[derive(Debug, Clone, Copy, PartialEq, Eq, Structural)]
pub enum State {
    Init,
    SelectSentence,
    InsertSentence,
    IntoKeyword,
    GetTableName,
    ExtractCols,
    ValuesKeyword,
    ExtractValues,
    End,
}

/// The keyword that `text` spells, if any. Keywords are written in capitals.
pub open spec fn keyword(text: Seq<char>) -> Option<TokenView> {
    if text == "SELECT"@ {
        Some(TokenView::Select)
    } else if text == "FROM"@ {
        Some(TokenView::From)
    } else if text == "INSERT"@ {
        Some(TokenView::Insert)
    } else if text == "INTO"@ {
        Some(TokenView::Into)
    } else if text == "VALUES"@ {
        Some(TokenView::Values)
    } else {
        None
    }
}

/// The token as the parser sees it: an identifier that spells a keyword is
/// that keyword, and every other token is itself.
pub open spec fn classify(token: TokenView) -> TokenView {
    match token {
        TokenView::Ident(text) => match keyword(text) {
            Some(word) => word,
            None => token,
        },
        _ => token,
    }
}

/// The next token at or after `pos` that is not whitespace, as the parser
/// sees it, and the index just behind it.
pub open spec fn next_token(buf: Seq<char>, pos: nat) -> (TokenView, nat) {
    let (first, after) = scan_at(buf, pos);
    if first is WS {
        (classify(scan_at(buf, after).0), scan_at(buf, after).1)
    } else {
        (classify(first), after)
    }
}

/// What is left of a list behind its `(`, read from `pos`: the texts of its
/// items once `)` has closed it, or the first error; and the index just
/// behind the last token read.
pub open spec fn items_at(buf: Seq<char>, pos: nat) -> (Result<Seq<Seq<char>>, ParseError>, nat)
    decreases buf.len() - pos,
    via items_at_decreases
{
    let (item, after_item) = next_token(buf, pos);
    match item {
        TokenView::Ident(text) => {
            let (sep, after_sep) = next_token(buf, after_item);
            if sep is Comma {
                prefixed(seq![text], items_at(buf, after_sep))
            } else if sep is ParRight {
                (Ok(seq![text]), after_sep)
            } else {
                (Err(ParseError::CloseParenExpected), after_sep)
            }
        },
        _ => (Err(ParseError::IdentExpected), after_item),
    }
}

#[via_fn]
proof fn items_at_decreases(buf: Seq<char>, pos: nat) {
    lemma_next_token_advances(buf, pos);
    lemma_next_token_advances(buf, next_token(buf, pos).1);
}

/// The outcome of a list with `head` put before its items.
pub open spec fn prefixed(
    head: Seq<Seq<char>>,
    rest: (Result<Seq<Seq<char>>, ParseError>, nat),
) -> (Result<Seq<Seq<char>>, ParseError>, nat) {
    match rest.0 {
        Ok(items) => (Ok(head + items), rest.1),
        Err(e) => (Err(e), rest.1),
    }
}

/// A parenthesized list of identifiers, separated by commas, read from
/// `pos`: the texts of its items, or the first error; and the index just
/// behind the last token read.
pub open spec fn list_at(buf: Seq<char>, pos: nat) -> (Result<Seq<Seq<char>>, ParseError>, nat) {
    let (open, after_open) = next_token(buf, pos);
    if open is ParLeft {
        items_at(buf, after_open)
    } else {
        (Err(ParseError::OpenParenExpected), after_open)
    }
}

/// The statement that the input spells from `pos` on, or the error that
/// ends its parse.
pub open spec fn parse_outcome(buf: Seq<char>, pos: nat) -> Result<StatementView, ParseError> {
    let (first, after_first) = next_token(buf, pos);
    let (second, after_second) = next_token(buf, after_first);
    let (third, after_third) = next_token(buf, after_second);
    let (cols, after_cols) = optional_list_at(buf, after_third);
    let (fifth, after_fifth) = next_token(buf, after_cols);
    if !(first is Select) && !(first is Insert) {
        Err(ParseError::BadBeginning)
    } else if !(second is Into) {
        Err(ParseError::IntoExpected)
    } else if !(third is Ident) {
        Err(ParseError::TableNameExpected)
    } else if first is Select {
        Err(ParseError::WrongStatementType)
    } else if !(fifth is Values) {
        Err(ParseError::ValuesExpected)
    } else {
        match list_at(buf, after_fifth).0 {
            Ok(values) => Ok(
                StatementView::InsertStatement { cols, values, table: third->Ident_0 },
            ),
            Err(e) => Err(e),
        }
    }
}

/// A list that may be missing, read from `pos`: where no well-formed list
/// stands there, no items and `pos` itself.
pub open spec fn optional_list_at(buf: Seq<char>, pos: nat) -> (Seq<Seq<char>>, nat) {
    match list_at(buf, pos).0 {
        Ok(items) => (items, list_at(buf, pos).1),
        Err(_) => (Seq::empty(), pos),
    }
}

/// The next token lies at or behind `pos`, strictly behind unless it is the
/// end of the input, and it is never whitespace.
pub proof fn lemma_next_token_advances(buf: Seq<char>, pos: nat)
    ensures
        pos <= next_token(buf, pos).1,
        !(next_token(buf, pos).0 is EOF) ==> pos < next_token(buf, pos).1,
        !(next_token(buf, pos).0 is WS),
{
    lemma_scan_advances(buf, pos);
    lemma_whitespace_end_bounds(buf, pos);
    lemma_scan_advances(buf, scan_at(buf, pos).1);
}

/// The parser's state: the scanner it reads from, the statement it builds,
/// and a token that [`Parser::scan`] has looked at.
#[derive(Debug, Clone)]
pub struct Parser {
    lexer: Lexer,
    stmt: Option<Statement>,
    buf: Option<Token>,
}

/// The mathematical value of a [`Parser`].
pub struct ParserView {
    /// The characters of the input.
    pub text: Seq<char>,
    /// The scanner's cursor into them.
    pub cursor: nat,
    /// The statement as far as it is built.
    pub statement: Option<StatementView>,
    /// The token that was looked at and kept.
    pub lookahead: Option<TokenView>,
}

/// What one state leaves behind: the parser's new value, and the state to go
/// on with, none at the end, or the error.
pub type Step = (ParserView, Result<Option<State>, ParseError>);

/// `Init` reads the statement's first keyword.
pub open spec fn init_step(p: ParserView) -> Step {
    let (token, end) = next_token(p.text, p.cursor);
    (
        ParserView { cursor: end, ..p },
        match token {
            TokenView::Select => Ok(Some(State::SelectSentence)),
            TokenView::Insert => Ok(Some(State::InsertSentence)),
            _ => Err(ParseError::BadBeginning),
        },
    )
}

/// `SelectSentence` sets up an empty select statement.
pub open spec fn select_sentence_step(p: ParserView) -> Step {
    (
        ParserView {
            statement: Some(
                StatementView::SelectStatement { fields: Seq::empty(), table: Seq::empty() },
            ),
            ..p
        },
        Ok(Some(State::IntoKeyword)),
    )
}

/// `InsertSentence` sets up an empty insert statement.
pub open spec fn insert_sentence_step(p: ParserView) -> Step {
    (
        ParserView {
            statement: Some(
                StatementView::InsertStatement {
                    cols: Seq::empty(),
                    values: Seq::empty(),
                    table: Seq::empty(),
                },
            ),
            ..p
        },
        Ok(Some(State::IntoKeyword)),
    )
}

/// `IntoKeyword` reads `INTO`.
pub open spec fn into_keyword_step(p: ParserView) -> Step {
    let (token, end) = next_token(p.text, p.cursor);
    (
        ParserView { cursor: end, ..p },
        if token is Into {
            Ok(Some(State::GetTableName))
        } else {
            Err(ParseError::IntoExpected)
        },
    )
}

/// `GetTableName` reads an identifier and makes it the table of the insert
/// statement.
pub open spec fn get_table_name_step(p: ParserView) -> Step {
    let (token, end) = next_token(p.text, p.cursor);
    match token {
        TokenView::Ident(name) => match p.statement {
            Some(StatementView::InsertStatement { cols, values, table }) => (
                ParserView {
                    cursor: end,
                    statement: Some(StatementView::InsertStatement { cols, values, table: name }),
                    ..p
                },
                Ok(Some(State::ExtractCols)),
            ),
            Some(_) => (ParserView { cursor: end, ..p }, Err(ParseError::WrongStatementType)),
            None => (ParserView { cursor: end, ..p }, Err(ParseError::StatementNotCreated)),
        },
        _ => (ParserView { cursor: end, ..p }, Err(ParseError::TableNameExpected)),
    }
}

/// `ExtractCols` reads the column list where one stands, and stays where it
/// is, with no columns, where none does.
pub open spec fn extract_cols_step(p: ParserView) -> Step {
    let (items, end) = optional_list_at(p.text, p.cursor);
    match p.statement {
        Some(StatementView::InsertStatement { cols, values, table }) => (
            ParserView {
                cursor: end,
                statement: Some(StatementView::InsertStatement { cols: items, values, table }),
                ..p
            },
            Ok(Some(State::ValuesKeyword)),
        ),
        Some(_) => (ParserView { cursor: end, ..p }, Err(ParseError::WrongStatementType)),
        None => (ParserView { cursor: end, ..p }, Err(ParseError::StatementNotCreated)),
    }
}

/// `ValuesKeyword` reads `VALUES`.
pub open spec fn values_keyword_step(p: ParserView) -> Step {
    let (token, end) = next_token(p.text, p.cursor);
    (
        ParserView { cursor: end, ..p },
        if token is Values {
            Ok(Some(State::ExtractValues))
        } else {
            Err(ParseError::ValuesExpected)
        },
    )
}

/// `ExtractValues` reads the value list, which must be there.
pub open spec fn extract_values_step(p: ParserView) -> Step {
    let (list, end) = list_at(p.text, p.cursor);
    match list {
        Ok(items) => match p.statement {
            Some(StatementView::InsertStatement { cols, values, table }) => (
                ParserView {
                    cursor: end,
                    statement: Some(StatementView::InsertStatement { cols, values: items, table }),
                    ..p
                },
                Ok(Some(State::End)),
            ),
            Some(_) => (ParserView { cursor: end, ..p }, Err(ParseError::WrongStatementType)),
            None => (ParserView { cursor: end, ..p }, Err(ParseError::StatementNotCreated)),
        },
        Err(e) => (ParserView { cursor: end, ..p }, Err(e)),
    }
}

/// What `state` does to the parser.
pub open spec fn step_of(p: ParserView, state: State) -> Step {
    match state {
        State::Init => init_step(p),
        State::SelectSentence => select_sentence_step(p),
        State::InsertSentence => insert_sentence_step(p),
        State::IntoKeyword => into_keyword_step(p),
        State::GetTableName => get_table_name_step(p),
        State::ExtractCols => extract_cols_step(p),
        State::ValuesKeyword => values_keyword_step(p),
        State::ExtractValues => extract_values_step(p),
        State::End => (p, Ok(None)),
    }
}

/// How many states may still follow `state`.
pub open spec fn rank(state: State) -> nat {
    match state {
        State::Init => 7,
        State::SelectSentence => 6,
        State::InsertSentence => 6,
        State::IntoKeyword => 5,
        State::GetTableName => 4,
        State::ExtractCols => 3,
        State::ValuesKeyword => 2,
        State::ExtractValues => 1,
        State::End => 0,
    }
}

/// The chain of states from `state` on: the parser's last value, and the
/// error that cut the chain short, if one did.
pub open spec fn run(p: ParserView, state: State) -> (ParserView, Result<(), ParseError>)
    decreases rank(state),
    via run_decreases
{
    let (next, result) = step_of(p, state);
    match result {
        Ok(Some(then)) => run(next, then),
        Ok(None) => (next, Ok(())),
        Err(e) => (next, Err(e)),
    }
}

#[via_fn]
proof fn run_decreases(p: ParserView, state: State) {
    lemma_step_descends(p, state);
}

/// What a chain of states that ended as `end` has parsed.
pub open spec fn finish(end: (ParserView, Result<(), ParseError>)) -> Result<
    StatementView,
    ParseError,
> {
    match end.1 {
        Ok(_) => match end.0.statement {
            Some(statement) => Ok(statement),
            None => Err(ParseError::CouldNotParse),
        },
        Err(e) => Err(e),
    }
}

/// Every state hands on to one that lies further down the chain.
pub proof fn lemma_step_descends(p: ParserView, state: State)
    ensures
        match step_of(p, state).1 {
            Ok(Some(then)) => rank(then) < rank(state),
            _ => true,
        },
{
}

/// The chain of states from `Init` parses what the grammar says: the
/// statement or error of [`parse_outcome`], whatever statement and kept token
/// the parser held before.
pub proof fn lemma_run_parses(p: ParserView)
    ensures
        finish(run(p, State::Init)) == parse_outcome(p.text, p.cursor),
{
    reveal_with_fuel(run, 9);
}

/// Whatever the statement's kind, a parse whose second token is not `INTO`
/// fails, and with the error that says so.
pub proof fn lemma_into_keyword_required(buf: Seq<char>, pos: nat)
    requires
        next_token(buf, pos).0 is Select || next_token(buf, pos).0 is Insert,
        !(next_token(buf, next_token(buf, pos).1).0 is Into),
    ensures
        parse_outcome(buf, pos) == Err::<StatementView, ParseError>(ParseError::IntoExpected),
{
}

/// A parse depends on the input and the cursor alone: two parsers that agree
/// on both parse the same statement, or fail with the same error.
pub proof fn lemma_parse_is_deterministic(a: ParserView, b: ParserView)
    requires
        a.text == b.text,
        a.cursor == b.cursor,
    ensures
        finish(run(a, State::Init)) == finish(run(b, State::Init)),
{
    lemma_run_parses(a);
    lemma_run_parses(b);
}

/// Two results of one outcome are equal: both hold statements of one value,
/// or both hold the same message.
pub proof fn lemma_results_agree(
    first: Result<Statement, String>,
    second: Result<Statement, String>,
    outcome: Result<StatementView, ParseError>,
)
    requires
        is_result_of(first, outcome),
        is_result_of(second, outcome),
    ensures
        match (first, second) {
            (Ok(a), Ok(b)) => a@ == b@,
            (Err(a), Err(b)) => a@ == b@,
            _ => false,
        },
{
}

/// The empty input is no statement.
pub proof fn lemma_empty_input_fails()
    ensures
        parse_outcome(Seq::empty(), 0) == Err::<StatementView, ParseError>(
            ParseError::BadBeginning,
        ),
{
}

/// An identifier that the parser reads is not empty.
pub proof fn lemma_identifier_not_empty(buf: Seq<char>, pos: nat)
    ensures
        match next_token(buf, pos).0 {
            TokenView::Ident(text) => text.len() > 0,
            _ => true,
        },
{
    lemma_ident_run_bounds(buf, pos);
    lemma_ident_run_bounds(buf, scan_at(buf, pos).1);
}

/// A list that was read to its end holds at least one item.
pub proof fn lemma_list_not_empty(buf: Seq<char>, pos: nat)
    ensures
        match list_at(buf, pos).0 {
            Ok(items) => items.len() > 0,
            Err(_) => true,
        },
{
    lemma_items_not_empty(buf, next_token(buf, pos).1);
}

proof fn lemma_items_not_empty(buf: Seq<char>, pos: nat)
    ensures
        match items_at(buf, pos).0 {
            Ok(items) => items.len() > 0,
            Err(_) => true,
        },
    decreases buf.len() - pos,
{
    lemma_next_token_advances(buf, pos);
    lemma_next_token_advances(buf, next_token(buf, pos).1);
    let (item, after_item) = next_token(buf, pos);
    if item is Ident {
        let (sep, after_sep) = next_token(buf, after_item);
        if sep is Comma {
            lemma_items_not_empty(buf, after_sep);
        }
    }
}

/// A list fails in one of three ways: it does not open, an item is no
/// identifier, or it does not close.
pub proof fn lemma_list_errors(buf: Seq<char>, pos: nat)
    ensures
        match list_at(buf, pos).0 {
            Ok(_) => true,
            Err(e) => e == ParseError::OpenParenExpected || e == ParseError::IdentExpected || e
                == ParseError::CloseParenExpected,
        },
{
    lemma_items_errors(buf, next_token(buf, pos).1);
}

proof fn lemma_items_errors(buf: Seq<char>, pos: nat)
    ensures
        match items_at(buf, pos).0 {
            Ok(_) => true,
            Err(e) => e == ParseError::IdentExpected || e == ParseError::CloseParenExpected,
        },
    decreases buf.len() - pos,
{
    lemma_next_token_advances(buf, pos);
    lemma_next_token_advances(buf, next_token(buf, pos).1);
    let (item, after_item) = next_token(buf, pos);
    if item is Ident {
        let (sep, after_sep) = next_token(buf, after_item);
        if sep is Comma {
            lemma_items_errors(buf, after_sep);
        }
    }
}

/// Where no well-formed column list stands, `ExtractCols` reads nothing and
/// still goes on to `VALUES`.
pub proof fn lemma_columns_are_optional(p: ParserView)
    requires
        p.statement is Some,
        p.statement->Some_0 is InsertStatement,
        list_at(p.text, p.cursor).0 is Err,
    ensures
        extract_cols_step(p).0.cursor == p.cursor,
        extract_cols_step(p).0.statement->Some_0->cols == Seq::<Seq<char>>::empty(),
        extract_cols_step(p).1 == Ok::<Option<State>, ParseError>(Some(State::ValuesKeyword)),
{
}

/// A statement that was parsed is an insert statement with a table name and
/// at least one value.
pub proof fn lemma_success_is_complete(buf: Seq<char>, pos: nat)
    ensures
        match parse_outcome(buf, pos) {
            Ok(StatementView::InsertStatement { cols, values, table }) => table.len() > 0
                && values.len() > 0,
            Ok(_) => false,
            Err(_) => true,
        },
{
    let (first, after_first) = next_token(buf, pos);
    let (second, after_second) = next_token(buf, after_first);
    let (third, after_third) = next_token(buf, after_second);
    let (cols, after_cols) = optional_list_at(buf, after_third);
    let (fifth, after_fifth) = next_token(buf, after_cols);
    lemma_identifier_not_empty(buf, after_second);
    lemma_list_not_empty(buf, after_fifth);
}

/// Whether `s` holds exactly the characters of `word`.
fn spells(s: &String, word: &str) -> (r: bool)
    ensures
        r == (s@ == word@),
{
    let other = word.to_owned();
    *s == other
}

/// The token as the parser sees it: see [`classify`].
pub fn promote(token: Token) -> (r: Token)
    ensures
        r@ == classify(token@),
{
    match token {
        Token::Ident(text) => {
            if spells(&text, "SELECT") {
                Token::Select
            } else if spells(&text, "FROM") {
                Token::From
            } else if spells(&text, "INSERT") {
                Token::Insert
            } else if spells(&text, "INTO") {
                Token::Into
            } else if spells(&text, "VALUES") {
                Token::Values
            } else {
                Token::Ident(text)
            }
        },
        other => other,
    }
}

/// A token of the same value.
fn copy_token(token: &Token) -> (r: Token)
    ensures
        r@ == token@,
{
    match token {
        Token::Ilegal => Token::Ilegal,
        Token::EOF => Token::EOF,
        Token::WS => Token::WS,
        Token::Ident(text) => Token::Ident(text.clone()),
        Token::Asterisk => Token::Asterisk,
        Token::Comma => Token::Comma,
        Token::ParLeft => Token::ParLeft,
        Token::ParRight => Token::ParRight,
        Token::Select => Token::Select,
        Token::From => Token::From,
        Token::Insert => Token::Insert,
        Token::Into => Token::Into,
        Token::Values => Token::Values,
    }
}

/// Strings of the same texts, in the same order.
fn copy_strings(strings: &Vec<String>) -> (r: Vec<String>)
    ensures
        texts(r@) == texts(strings@),
{
    let mut r: Vec<String> = Vec::new();
    let mut i: usize = 0;
    while i < strings.len()
        invariant
            i <= strings.len(),
            texts(r@) == texts(strings@.take(i as int)),
        decreases strings.len() - i,
    {
        let ghost sofar = r@;
        r.push(strings[i].clone());
        assert(strings@.take(i + 1) =~= strings@.take(i as int).push(strings@[i as int]));
        assert(texts(r@) =~= texts(sofar).push(strings@[i as int]@));
        assert(texts(strings@.take(i + 1)) =~= texts(strings@.take(i as int)).push(
            strings@[i as int]@,
        ));
        i += 1;
    }
    assert(strings@.take(i as int) =~= strings@);
    r
}

/// A statement of the same value.
fn copy_statement(statement: &Statement) -> (r: Statement)
    ensures
        r@ == statement@,
{
    match statement {
        Statement::SelectStatement { fields, table } => Statement::SelectStatement {
            fields: copy_strings(fields),
            table: table.clone(),
        },
        Statement::InsertStatement { cols, values, table } => Statement::InsertStatement {
            cols: copy_strings(cols),
            values: copy_strings(values),
            table: table.clone(),
        },
    }
}

/// The value of a list as it was read: the texts of its items, or the error.
pub open spec fn list_view(list: Result<Vec<String>, ParseError>) -> Result<
    Seq<Seq<char>>,
    ParseError,
> {
    match list {
        Ok(items) => Ok(texts(items@)),
        Err(e) => Err(e),
    }
}

/// The value of a parse's result: the statement's value, or the error whose
/// message the result holds.
pub open spec fn is_result_of(
    result: Result<Statement, String>,
    outcome: Result<StatementView, ParseError>,
) -> bool {
    match result {
        Ok(statement) => outcome == Ok::<StatementView, ParseError>(statement@),
        Err(message) => outcome is Err && message@ == outcome->Err_0.text(),
    }
}

impl View for Parser {
    type V = ParserView;

    closed spec fn view(&self) -> ParserView {
        ParserView {
            text: self.lexer.text(),
            cursor: self.lexer.cursor(),
            statement: match self.stmt {
                Some(statement) => Some(statement@),
                None => None,
            },
            lookahead: match self.buf {
                Some(token) => Some(token@),
                None => None,
            },
        }
    }
}

impl Parser {
    /// A parser at the start of `query`, with no statement and no token kept.
    pub fn new(query: String) -> (p: Self)
        ensures
            p@ == (ParserView { text: query@, cursor: 0, statement: None, lookahead: None }),
    {
        let l = Lexer::new(query);
        Parser { lexer: l, stmt: None, buf: None }
    }

    /// Parses one statement from the cursor on. The result is the statement
    /// of [`parse_outcome`], or the message of its error; the parser is left
    /// as the chain of states leaves it.
    pub fn parse(&mut self) -> (r: Result<Statement, String>)
        ensures
            is_result_of(r, parse_outcome(old(self)@.text, old(self)@.cursor)),
            final(self)@ == run(old(self)@, State::Init).0,
    {
        proof {
            lemma_run_parses(self@);
        }
        let mut state = State::Init;
        loop
            invariant_except_break
                run(self@, state) == run(old(self)@, State::Init),
            invariant
                finish(run(old(self)@, State::Init)) == parse_outcome(
                    old(self)@.text,
                    old(self)@.cursor,
                ),
            ensures
                self@ == run(old(self)@, State::Init).0,
                run(old(self)@, State::Init).1 is Ok,
            decreases rank(state),
        {
            proof {
                lemma_step_descends(self@, state);
            }
            match self.step(state) {
                Ok(Some(then)) => {
                    state = then;
                },
                Ok(None) => {
                    break ;
                },
                Err(e) => {
                    return Err(e.message());
                },
            }
        }
        match &self.stmt {
            Some(statement) => Ok(copy_statement(statement)),
            None => Err(ParseError::CouldNotParse.message()),
        }
    }

    /// Runs one state.
    pub fn step(&mut self, state: State) -> (r: Result<Option<State>, ParseError>)
        ensures
            (final(self)@, r) == step_of(old(self)@, state),
    {
        match state {
            State::Init => self.init(),
            State::SelectSentence => self.select_sentence(),
            State::InsertSentence => self.insert_sentence(),
            State::IntoKeyword => self.into_keyword(),
            State::GetTableName => self.get_table_name(),
            State::ExtractCols => self.extract_cols(),
            State::ValuesKeyword => self.values_keyword(),
            State::ExtractValues => self.extract_values(),
            State::End => self.end(),
        }
    }

    /// The token that was kept, if any.
    pub fn buf(&self) -> (r: Option<Token>)
        ensures
            match r {
                Some(token) => self@.lookahead == Some(token@),
                None => self@.lookahead.is_none(),
            },
    {
        match &self.buf {
            Some(token) => Some(copy_token(token)),
            None => None,
        }
    }

    /// Looks at a token and keeps it: the token that was kept before, or
    /// else the one under the cursor, whitespace included, which is then
    /// stepped over.
    pub fn scan(&mut self) -> (token: Token)
        ensures
            match old(self)@.lookahead {
                Some(kept) => token@ == kept && final(self)@ == old(self)@,
                None => {
                    let (next, end) = scan_at(old(self)@.text, old(self)@.cursor);
                    token@ == classify(next) && final(self)@ == (ParserView {
                        cursor: end,
                        lookahead: Some(classify(next)),
                        ..old(self)@
                    })
                },
            },
    {
        match &self.buf {
            Some(res) => copy_token(res),
            None => {
                let token = promote(self.lexer.scan());
                self.buf = Some(copy_token(&token));
                token
            },
        }
    }

    /// Reads the next token that is not whitespace.
    pub fn scan_ignore_whitespace(&mut self) -> (token: Token)
        ensures
            (token@, final(self)@.cursor) == next_token(old(self)@.text, old(self)@.cursor),
            final(self)@ == (ParserView { cursor: final(self)@.cursor, ..old(self)@ }),
    {
        let mut token = self.lexer.scan();
        if matches!(token, Token::WS) {
            token = self.lexer.scan();
        }
        promote(token)
    }

    /// Moves the scanner one character back, and not at all at the start of
    /// the input. The token that was kept stays.
    pub fn unscan(&mut self)
        ensures
            final(self)@ == (ParserView {
                cursor: if old(self)@.cursor > 0 {
                    (old(self)@.cursor - 1) as nat
                } else {
                    0
                },
                ..old(self)@
            }),
    {
        self.lexer.unread();
    }

    /// The state `Init`: see [`init_step`].
    pub fn init(&mut self) -> (r: Result<Option<State>, ParseError>)
        ensures
            (final(self)@, r) == init_step(old(self)@),
    {
        let token = self.scan_ignore_whitespace();
        match token {
            Token::Select => Ok(Some(State::SelectSentence)),
            Token::Insert => Ok(Some(State::InsertSentence)),
            _ => Err(ParseError::BadBeginning),
        }
    }

    /// The state `SelectSentence`: see [`select_sentence_step`].
    pub fn select_sentence(&mut self) -> (r: Result<Option<State>, ParseError>)
        ensures
            (final(self)@, r) == select_sentence_step(old(self)@),
    {
        let fields: Vec<String> = Vec::new();
        assert(texts(fields@) =~= Seq::empty());
        self.stmt = Some(Statement::SelectStatement { fields, table: String::new() });
        Ok(Some(State::IntoKeyword))
    }

    /// The state `InsertSentence`: see [`insert_sentence_step`].
    pub fn insert_sentence(&mut self) -> (r: Result<Option<State>, ParseError>)
        ensures
            (final(self)@, r) == insert_sentence_step(old(self)@),
    {
        let cols: Vec<String> = Vec::new();
        let values: Vec<String> = Vec::new();
        assert(texts(cols@) =~= Seq::empty());
        assert(texts(values@) =~= Seq::empty());
        self.stmt = Some(Statement::InsertStatement { cols, values, table: String::new() });
        Ok(Some(State::IntoKeyword))
    }

    /// The state `IntoKeyword`: see [`into_keyword_step`].
    pub fn into_keyword(&mut self) -> (r: Result<Option<State>, ParseError>)
        ensures
            (final(self)@, r) == into_keyword_step(old(self)@),
    {
        let token = self.scan_ignore_whitespace();
        if !matches!(token, Token::Into) {
            Err(ParseError::IntoExpected)
        } else {
            Ok(Some(State::GetTableName))
        }
    }

    /// The state `GetTableName`: see [`get_table_name_step`].
    pub fn get_table_name(&mut self) -> (r: Result<Option<State>, ParseError>)
        ensures
            (final(self)@, r) == get_table_name_step(old(self)@),
    {
        let token = self.scan_ignore_whitespace();
        match token {
            Token::Ident(table_name) => match self.stmt.take() {
                Some(Statement::InsertStatement { cols, values, table: _ }) => {
                    self.stmt = Some(
                        Statement::InsertStatement { cols, values, table: table_name },
                    );
                    Ok(Some(State::ExtractCols))
                },
                Some(other) => {
                    self.stmt = Some(other);
                    Err(ParseError::WrongStatementType)
                },
                None => Err(ParseError::StatementNotCreated),
            },
            _ => Err(ParseError::TableNameExpected),
        }
    }

    /// The state `ExtractCols`: see [`extract_cols_step`]. A list that is
    /// missing or malformed is no error: the scanner goes back to where the
    /// attempt began.
    pub fn extract_cols(&mut self) -> (r: Result<Option<State>, ParseError>)
        ensures
            (final(self)@, r) == extract_cols_step(old(self)@),
    {
        let start = self.lexer.pos();
        let veci = match self.get_into_parentheses() {
            Ok(veci) => veci,
            Err(_) => {
                self.lexer.reset(start);
                let none: Vec<String> = Vec::new();
                assert(texts(none@) =~= Seq::empty());
                none
            },
        };
        match self.stmt.take() {
            Some(Statement::InsertStatement { cols: _, values, table }) => {
                self.stmt = Some(Statement::InsertStatement { cols: veci, values, table });
                Ok(Some(State::ValuesKeyword))
            },
            Some(other) => {
                self.stmt = Some(other);
                Err(ParseError::WrongStatementType)
            },
            None => Err(ParseError::StatementNotCreated),
        }
    }

    /// The state `ValuesKeyword`: see [`values_keyword_step`].
    pub fn values_keyword(&mut self) -> (r: Result<Option<State>, ParseError>)
        ensures
            (final(self)@, r) == values_keyword_step(old(self)@),
    {
        let token = self.scan_ignore_whitespace();
        if !matches!(token, Token::Values) {
            Err(ParseError::ValuesExpected)
        } else {
            Ok(Some(State::ExtractValues))
        }
    }

    /// The state `ExtractValues`: see [`extract_values_step`].
    pub fn extract_values(&mut self) -> (r: Result<Option<State>, ParseError>)
        ensures
            (final(self)@, r) == extract_values_step(old(self)@),
    {
        let veci = match self.get_into_parentheses() {
            Ok(veci) => veci,
            Err(e) => {
                return Err(e);
            },
        };
        match self.stmt.take() {
            Some(Statement::InsertStatement { cols, values: _, table }) => {
                self.stmt = Some(Statement::InsertStatement { cols, values: veci, table });
                Ok(Some(State::End))
            },
            Some(other) => {
                self.stmt = Some(other);
                Err(ParseError::WrongStatementType)
            },
            None => Err(ParseError::StatementNotCreated),
        }
    }

    /// Reads a parenthesized list of identifiers, separated by commas: see
    /// [`list_at`]. The token behind an item that is no comma is handed back
    /// to the scanner and read again as the closing parenthesis.
    pub fn get_into_parentheses(&mut self) -> (r: Result<Vec<String>, ParseError>)
        ensures
            list_view(r) == list_at(old(self)@.text, old(self)@.cursor).0,
            final(self)@ == (ParserView {
                cursor: list_at(old(self)@.text, old(self)@.cursor).1,
                ..old(self)@
            }),
    {
        let token = self.scan_ignore_whitespace();
        if !matches!(token, Token::ParLeft) {
            return Err(ParseError::OpenParenExpected);
        }
        let mut veci: Vec<String> = Vec::new();
        let ghost buf = self@.text;
        let ghost first = self@.cursor;
        assert(texts(veci@) =~= Seq::empty());
        loop
            invariant_except_break
                items_at(buf, first) == prefixed(texts(veci@), items_at(buf, self@.cursor)),
            invariant
                self@ == (ParserView { cursor: self@.cursor, ..old(self)@ }),
                buf == old(self)@.text,
                list_at(buf, old(self)@.cursor) == items_at(buf, first),
            ensures
                items_at(buf, first) == closed_at(texts(veci@), buf, self@.cursor),
            decreases buf.len() - self@.cursor,
        {
            let ghost here = self@.cursor;
            let ghost sofar = texts(veci@);
            proof {
                lemma_next_token_advances(buf, here);
                lemma_next_token_advances(buf, next_token(buf, here).1);
            }
            let token = self.scan_ignore_whitespace();
            match token {
                Token::Ident(value) => {
                    let ghost text = value@;
                    veci.push(value);
                    assert(texts(veci@) =~= sofar + seq![text]);
                    let before = self.lexer.pos();
                    let sep = self.scan_ignore_whitespace();
                    if !matches!(sep, Token::Comma) {
                        self.lexer.reset(before);
                        break ;
                    }
                    proof {
                        let rest = items_at(buf, self@.cursor);
                        if rest.0 is Ok {
                            assert(sofar + (seq![text] + rest.0->Ok_0) =~= (sofar + seq![text])
                                + rest.0->Ok_0);
                        }
                    }
                },
                _ => {
                    return Err(ParseError::IdentExpected);
                },
            }
        }
        let token = self.scan_ignore_whitespace();
        if !matches!(token, Token::ParRight) {
            return Err(ParseError::CloseParenExpected);
        }
        Ok(veci)
    }

    /// The state `End`: nothing is left to do.
    pub fn end(&mut self) -> (r: Result<Option<State>, ParseError>)
        ensures
            (final(self)@, r) == (old(self)@, Ok::<Option<State>, ParseError>(None)),
    {
        Ok(None)
    }
}

/// The outcome of a list whose items so far are `items`, as the token at
/// `pos` decides it: a closing parenthesis ends the list, anything else is
/// an error.
pub open spec fn closed_at(items: Seq<Seq<char>>, buf: Seq<char>, pos: nat) -> (
    Result<Seq<Seq<char>>, ParseError>,
    nat,
) {
    let (token, end) = next_token(buf, pos);
    if token is ParRight {
        (Ok(items), end)
    } else {
        (Err(ParseError::CloseParenExpected), end)
    }
}

} // verus!
