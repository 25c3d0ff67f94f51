use parser::lexer::Token;
use parser::parser::{promote, ParseError, Parser, State, Statement};

fn parse(text: &str) -> Result<Statement, String> {
    Parser::new(String::from(text)).parse()
}

fn insert(table: &str, cols: &[&str], values: &[&str]) -> Statement {
    Statement::InsertStatement {
        table: String::from(table),
        cols: cols.iter().map(|s| String::from(*s)).collect(),
        values: values.iter().map(|s| String::from(*s)).collect(),
    }
}

#[test]
fn parser_it_scans() {
    let mut p = Parser::new(String::from(
        "INSERT INTO tbl (name, email) VALUES (demo, demo)",
    ));
    let token = p.scan();
    assert_eq!(token, Token::Insert);
}

#[test]
fn it_stores_buf() {
    let mut p = Parser::new(String::from(
        "INSERT INTO tbl (name, email) VALUES (demo, demo)",
    ));
    let token = p.scan();
    p.unscan();
    assert_eq!(p.buf(), Some(token));
}

#[test]
fn a_fresh_parser_keeps_no_token() {
    let p = Parser::new(String::from("INSERT"));
    assert_eq!(p.buf(), None);
}

#[test]
fn scan_keeps_its_token() {
    let mut p = Parser::new(String::from(" INTO tbl"));
    assert_eq!(p.scan(), Token::WS);
    assert_eq!(p.scan(), Token::WS);
    assert_eq!(p.buf(), Some(Token::WS));
    assert_eq!(p.scan_ignore_whitespace(), Token::Into);
    assert_eq!(p.scan(), Token::WS);
}

#[test]
fn scan_ignore_whitespace_skips_whitespace() {
    let mut p = Parser::new(String::from("  VALUES \n ( tbl"));
    assert_eq!(p.scan_ignore_whitespace(), Token::Values);
    assert_eq!(p.scan_ignore_whitespace(), Token::ParLeft);
    assert_eq!(p.scan_ignore_whitespace(), Token::Ident(String::from("tbl")));
    assert_eq!(p.scan_ignore_whitespace(), Token::EOF);
    assert_eq!(p.scan_ignore_whitespace(), Token::EOF);
    assert_eq!(p.buf(), None);
}

#[test]
fn unscan_goes_one_character_back() {
    let mut p = Parser::new(String::from("a)"));
    p.unscan();
    assert_eq!(p.scan_ignore_whitespace(), Token::Ident(String::from("a")));
    assert_eq!(p.scan_ignore_whitespace(), Token::ParRight);
    p.unscan();
    assert_eq!(p.scan_ignore_whitespace(), Token::ParRight);
    assert_eq!(p.scan_ignore_whitespace(), Token::EOF);
}

#[test]
fn keywords_are_written_in_capitals() {
    assert_eq!(promote(Token::Ident(String::from("SELECT"))), Token::Select);
    assert_eq!(promote(Token::Ident(String::from("FROM"))), Token::From);
    assert_eq!(promote(Token::Ident(String::from("INSERT"))), Token::Insert);
    assert_eq!(promote(Token::Ident(String::from("INTO"))), Token::Into);
    assert_eq!(promote(Token::Ident(String::from("VALUES"))), Token::Values);
    for text in ["select", "Insert", "INT", "INTOO", "VALUE", "", "values"] {
        assert_eq!(
            promote(Token::Ident(String::from(text))),
            Token::Ident(String::from(text))
        );
    }
    for token in [Token::EOF, Token::WS, Token::Ilegal, Token::Comma, Token::Into] {
        assert_eq!(promote(token.clone()), token);
    }
}

#[test]
fn messages() {
    assert_eq!(ParseError::BadBeginning.message(), "bad statement beginning");
    assert_eq!(ParseError::IntoExpected.message(), "INTO keyword expected");
    assert_eq!(ParseError::TableNameExpected.message(), "table name expected");
    assert_eq!(ParseError::ValuesExpected.message(), "VALUES keyword expected");
    assert_eq!(ParseError::OpenParenExpected.message(), "( expected");
    assert_eq!(ParseError::IdentExpected.message(), "ident expected");
    assert_eq!(ParseError::CloseParenExpected.message(), ") expected");
    assert_eq!(ParseError::WrongStatementType.message(), "Wrong statement type");
    assert_eq!(ParseError::StatementNotCreated.message(), "Statement not created");
    assert_eq!(ParseError::CouldNotParse.message(), "could not parse");
}

#[test]
fn empty_input_is_a_bad_beginning() {
    assert_eq!(parse(""), Err(String::from("bad statement beginning")));
    assert_eq!(parse("  \n\t "), Err(String::from("bad statement beginning")));
}

#[test]
fn other_beginnings_are_bad() {
    for text in ["tbl", "insert into tbl values (a)", "* FROM tbl", "INTO tbl", "(INSERT"] {
        assert_eq!(parse(text), Err(String::from("bad statement beginning")));
    }
}

#[test]
fn into_must_come_second() {
    for text in [
        "INSERT",
        "INSERT tbl VALUES (a)",
        "INSERT into tbl VALUES (a)",
        "INSERT  ,INTO tbl",
        "SELECT",
        "SELECT * FROM user",
        "SELECT name",
        "  SELECT\n(INTO",
    ] {
        assert_eq!(parse(text), Err(String::from("INTO keyword expected")));
    }
}

#[test]
fn a_table_name_must_follow_into() {
    for text in ["INSERT INTO", "INSERT INTO (a) VALUES (b)", "INSERT INTO VALUES (b)", "SELECT INTO *"] {
        assert_eq!(parse(text), Err(String::from("table name expected")));
    }
}

#[test]
fn select_into_is_the_wrong_statement_type() {
    assert_eq!(parse("SELECT INTO tbl"), Err(String::from("Wrong statement type")));
    assert_eq!(
        parse("SELECT INTO tbl VALUES (a)"),
        Err(String::from("Wrong statement type"))
    );
}

#[test]
fn values_must_follow_the_columns() {
    for text in [
        "INSERT INTO tbl",
        "INSERT INTO tbl (a, b)",
        "INSERT INTO tbl (a, b) values (c)",
        "INSERT INTO tbl tbl VALUES (c)",
    ] {
        assert_eq!(parse(text), Err(String::from("VALUES keyword expected")));
    }
}

#[test]
fn a_malformed_column_list_is_read_again_as_what_follows() {
    for text in [
        "INSERT INTO tbl (a b) VALUES (c)",
        "INSERT INTO tbl (a, ) VALUES (c)",
        "INSERT INTO tbl () VALUES (c)",
        "INSERT INTO tbl (a, VALUES (c)",
    ] {
        assert_eq!(parse(text), Err(String::from("VALUES keyword expected")));
    }
}

#[test]
fn the_value_list_must_open() {
    for text in ["INSERT INTO tbl VALUES", "INSERT INTO tbl VALUES a", "INSERT INTO tbl (a) VALUES )"] {
        assert_eq!(parse(text), Err(String::from("( expected")));
    }
}

#[test]
fn the_value_list_holds_identifiers() {
    for text in [
        "INSERT INTO tbl VALUES ()",
        "INSERT INTO tbl VALUES (",
        "INSERT INTO tbl VALUES (a, )",
        "INSERT INTO tbl VALUES (a, 1)",
        "INSERT INTO tbl VALUES (*)",
        "INSERT INTO tbl VALUES (a, INTO)",
    ] {
        assert_eq!(parse(text), Err(String::from("ident expected")));
    }
}

#[test]
fn the_value_list_must_close() {
    for text in [
        "INSERT INTO tbl VALUES (a",
        "INSERT INTO tbl VALUES (a b)",
        "INSERT INTO tbl VALUES (a, b c)",
        "INSERT INTO tbl VALUES (a (",
        "INSERT INTO tbl VALUES (a  ",
        "INSERT INTO tbl VALUES (a#)",
    ] {
        assert_eq!(parse(text), Err(String::from(") expected")));
    }
}

#[test]
fn parses_without_spaces_and_with_many() {
    assert_eq!(
        parse("INSERT INTO t(a,b)VALUES(c,d)"),
        Ok(insert("t", &["a", "b"], &["c", "d"]))
    );
    assert_eq!(
        parse("\n INSERT\tINTO  t  ( a ,b )\n VALUES ( c1 , d_2 , e ) "),
        Ok(insert("t", &["a", "b"], &["c1", "d_2", "e"]))
    );
    assert_eq!(parse("INSERT INTO t VALUES (x)"), Ok(insert("t", &[], &["x"])));
}

#[test]
fn what_follows_the_statement_is_not_read() {
    assert_eq!(
        parse("INSERT INTO t VALUES (x) and so on #"),
        Ok(insert("t", &[], &["x"]))
    );
}

#[test]
fn lower_case_words_are_identifiers() {
    assert_eq!(
        parse("INSERT INTO select (from, into) VALUES (values, insert)"),
        Ok(insert("select", &["from", "into"], &["values", "insert"]))
    );
}

#[test]
fn a_fresh_parser_parses_the_same() {
    for text in [
        "INSERT INTO tbl (name, email) VALUES (demo, demo)",
        "INSERT INTO tbl VALUES (demo, demo)",
        "INSERT INTO tbl VALUES (demo demo)",
        "SELECT * FROM user",
        "",
    ] {
        let first = Parser::new(String::from(text)).parse();
        let second = Parser::new(String::from(text)).parse();
        assert_eq!(first, second);
    }
}

#[test]
fn parse_goes_on_from_the_cursor() {
    let mut p = Parser::new(String::from("tbl INSERT INTO t VALUES (x)"));
    assert_eq!(p.scan_ignore_whitespace(), Token::Ident(String::from("tbl")));
    assert_eq!(p.parse(), Ok(insert("t", &[], &["x"])));
    assert_eq!(p.scan_ignore_whitespace(), Token::EOF);
}

#[test]
fn states_follow_one_another() {
    let mut p = Parser::new(String::from("INSERT INTO tbl (a) VALUES (b)"));
    assert_eq!(p.step(State::Init), Ok(Some(State::InsertSentence)));
    assert_eq!(p.step(State::InsertSentence), Ok(Some(State::IntoKeyword)));
    assert_eq!(p.step(State::IntoKeyword), Ok(Some(State::GetTableName)));
    assert_eq!(p.step(State::GetTableName), Ok(Some(State::ExtractCols)));
    assert_eq!(p.step(State::ExtractCols), Ok(Some(State::ValuesKeyword)));
    assert_eq!(p.step(State::ValuesKeyword), Ok(Some(State::ExtractValues)));
    assert_eq!(p.step(State::ExtractValues), Ok(Some(State::End)));
    assert_eq!(p.step(State::End), Ok(None));
    assert_eq!(p.scan_ignore_whitespace(), Token::EOF);
}

#[test]
fn select_goes_on_to_into() {
    let mut p = Parser::new(String::from("SELECT INTO"));
    assert_eq!(p.init(), Ok(Some(State::SelectSentence)));
    assert_eq!(p.select_sentence(), Ok(Some(State::IntoKeyword)));
    assert_eq!(p.into_keyword(), Ok(Some(State::GetTableName)));
}

#[test]
fn states_need_a_statement() {
    let mut p = Parser::new(String::from("tbl (a) (b)"));
    assert_eq!(p.get_table_name(), Err(ParseError::StatementNotCreated));
    assert_eq!(p.extract_cols(), Err(ParseError::StatementNotCreated));
    assert_eq!(p.extract_values(), Err(ParseError::StatementNotCreated));
    assert_eq!(p.scan_ignore_whitespace(), Token::EOF);
}

#[test]
fn states_need_an_insert_statement() {
    let mut p = Parser::new(String::from("tbl (a) (b)"));
    assert_eq!(p.select_sentence(), Ok(Some(State::IntoKeyword)));
    assert_eq!(p.get_table_name(), Err(ParseError::WrongStatementType));
    assert_eq!(p.extract_cols(), Err(ParseError::WrongStatementType));
    assert_eq!(p.extract_values(), Err(ParseError::WrongStatementType));
}

#[test]
fn extract_cols_goes_back_where_no_list_stands() {
    let mut p = Parser::new(String::from("(a, b c) VALUES"));
    assert_eq!(p.insert_sentence(), Ok(Some(State::IntoKeyword)));
    assert_eq!(p.extract_cols(), Ok(Some(State::ValuesKeyword)));
    assert_eq!(p.scan_ignore_whitespace(), Token::ParLeft);
}

#[test]
fn reads_a_list() {
    let mut p = Parser::new(String::from(" ( a , b,c ) d"));
    assert_eq!(
        p.get_into_parentheses(),
        Ok(vec![String::from("a"), String::from("b"), String::from("c")])
    );
    assert_eq!(p.scan_ignore_whitespace(), Token::Ident(String::from("d")));
}

#[test]
fn a_list_stops_behind_the_token_that_breaks_it() {
    let mut p = Parser::new(String::from("(a, b c) d"));
    assert_eq!(p.get_into_parentheses(), Err(ParseError::CloseParenExpected));
    assert_eq!(p.scan_ignore_whitespace(), Token::ParRight);
    let mut q = Parser::new(String::from("a, b"));
    assert_eq!(q.get_into_parentheses(), Err(ParseError::OpenParenExpected));
    assert_eq!(q.scan_ignore_whitespace(), Token::Comma);
    let mut r = Parser::new(String::from("(a, , b"));
    assert_eq!(r.get_into_parentheses(), Err(ParseError::IdentExpected));
    assert_eq!(r.scan_ignore_whitespace(), Token::Ident(String::from("b")));
}
