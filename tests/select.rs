use nom_sql::{
    caseless_tag, error_to_u32, multispace, parse_select, selection, tag, where_clause, AsBytes,
    AsChar,
    Column, ConditionBase, ConditionExpression, ConditionTree, ErrorKind, FieldExpression,
    IResult, InputLength, JoinConstraint, JoinOperator, JoinRightSide, Needed, Operator,
    ParseError, Table,
};

fn qualified(table: &str, name: &str) -> ConditionExpression {
    ConditionExpression::Base(ConditionBase::Field(Column {
        name: name.as_bytes().to_vec(),
        table: Some(table.as_bytes().to_vec()),
    }))
}

fn table(name: &str) -> Table {
    Table {
        name: name.as_bytes().to_vec(),
    }
}

#[test]
fn select_with_left_join() {
    let q = b"SELECT * FROM Article LEFT JOIN Author ON Article.author_id = Author.id;";
    match selection(q) {
        IResult::Done(rest, s) => {
            assert!(rest.is_empty());
            assert_eq!(s.fields, vec![FieldExpression::All]);
            assert_eq!(s.tables, vec![table("Article")]);
            assert_eq!(s.join.len(), 1);
            let j = &s.join[0];
            assert_eq!(j.operator, JoinOperator::LeftJoin);
            assert_eq!(j.right, JoinRightSide::Table(table("Author")));
            let expected = ConditionExpression::ComparisonOp(ConditionTree {
                operator: Operator::Equal,
                left: Box::new(qualified("Article", "author_id")),
                right: Box::new(qualified("Author", "id")),
            });
            assert_eq!(j.constraint, JoinConstraint::On(expected));
            assert_eq!(s.where_clause, None);
        }
        _ => panic!("no parse"),
    }
}

#[test]
fn select_missing_fields_fails() {
    let r = selection(b"SELECT FROM ;");
    assert!(matches!(r, IResult::Error(ParseError::Position(_, _))));
    assert!(parse_select(b"SELECT FROM ;").is_err());
}

#[test]
fn select_with_where_and_using() {
    let q = b"select a, t.b from t, u natural inner join (v, w) using (a, b) where a = 1;";
    match selection(q) {
        IResult::Done(rest, s) => {
            assert!(rest.is_empty());
            assert_eq!(s.tables, vec![table("t"), table("u")]);
            assert_eq!(s.fields.len(), 2);
            assert_eq!(s.join.len(), 1);
            assert_eq!(s.join[0].operator, JoinOperator::InnerJoin);
            assert_eq!(
                s.join[0].right,
                JoinRightSide::Tables(vec![table("v"), table("w")])
            );
            match &s.join[0].constraint {
                JoinConstraint::Using(cols) => assert_eq!(cols.len(), 2),
                _ => panic!("expected USING"),
            }
            assert!(s.where_clause.is_some());
        }
        _ => panic!("no parse"),
    }
}

#[test]
fn select_without_terminator_at_end_of_input() {
    match selection(b"SELECT x FROM t WHERE x = ?") {
        IResult::Done(rest, s) => {
            assert!(rest.is_empty());
            assert_eq!(
                s.fields,
                vec![FieldExpression::Col(Column {
                    name: b"x".to_vec(),
                    table: None
                })]
            );
            assert!(s.where_clause.is_some());
        }
        _ => panic!("no parse"),
    }
}

#[test]
fn truncated_keyword_asks_for_more() {
    assert_eq!(caseless_tag(b"WHER", b"where"), IResult::Incomplete(Needed::Size(5)));
    assert_eq!(
        caseless_tag(b"WHERE", b"where"),
        IResult::Done(&b""[..], &b"WHERE"[..])
    );
    assert_eq!(selection(b"SELEC"), IResult::Incomplete(Needed::Size(6)));
    assert_eq!(selection(b"SELECT * FR"), IResult::Incomplete(Needed::Size(13)));
    assert!(matches!(selection(b"SELECT * FROM t;"), IResult::Done(_, _)));
    assert!(matches!(
        parse_select(b"SELEC"),
        Err(ParseError::Position(ErrorKind::Complete, _))
    ));
}

#[test]
fn truncated_where_keyword_asks_for_more() {
    assert_eq!(where_clause(b" WHER"), IResult::Incomplete(Needed::Size(6)));
    assert!(matches!(where_clause(b" WHERE a = 1"), IResult::Done(_, _)));
    assert_eq!(
        selection(b"SELECT * FROM t WHER"),
        IResult::Incomplete(Needed::Size(21))
    );
    assert!(matches!(
        selection(b"SELECT * FROM t WHERE a = 1;"),
        IResult::Done(_, _)
    ));
    assert_eq!(
        selection(b"SELECT * FROM t WHERE a ="),
        IResult::Incomplete(Needed::Size(26))
    );
}

#[test]
fn literal_matching() {
    assert_eq!(tag(b"abc", b"ab"), IResult::Done(&b"c"[..], &b"ab"[..]));
    assert_eq!(
        tag(b"aXc", b"ab"),
        IResult::Error(ParseError::Position(ErrorKind::Tag, &b"aXc"[..]))
    );
    assert_eq!(
        tag(b"AB", b"ab"),
        IResult::Error(ParseError::Position(ErrorKind::Tag, &b"AB"[..]))
    );
    assert_eq!(caseless_tag(b"AbC", b"abc"), IResult::Done(&b""[..], &b"AbC"[..]));
    assert_eq!(tag(b"a", b"ab"), IResult::Incomplete(Needed::Size(2)));
}

#[test]
fn whitespace() {
    assert_eq!(multispace(b" \t\r\nx"), IResult::Done(&b"x"[..], &b" \t\r\n"[..]));
    assert_eq!(multispace(b"  "), IResult::Done(&b""[..], &b"  "[..]));
    assert_eq!(
        multispace(b"x "),
        IResult::Error(ParseError::Position(ErrorKind::MultiSpace, &b"x "[..]))
    );
    assert_eq!(
        multispace(b""),
        IResult::Error(ParseError::Position(ErrorKind::MultiSpace, &b""[..]))
    );
}

#[test]
fn error_codes() {
    assert_eq!(error_to_u32(&ErrorKind::Custom(9)), 0);
    assert_eq!(error_to_u32(&ErrorKind::Tag), 1);
    assert_eq!(error_to_u32(&ErrorKind::MultiSpace), 21);
    assert_eq!(error_to_u32(&ErrorKind::Complete), 48);
}

#[test]
fn byte_classes() {
    assert!(b'q'.is_alpha());
    assert!(!b'1'.is_alpha());
    assert!(b'7'.is_0_to_9());
    assert!(b'Z'.is_alphanum());
    assert!(b'f'.is_hex_digit());
    assert!(!b'g'.is_hex_digit());
    assert!(b'7'.is_oct_digit());
    assert!(!b'8'.is_oct_digit());
    assert_eq!(b'A'.as_char(), 'A');
    let s: &[u8] = b"abcd";
    assert_eq!(s.input_len(), 4);
    assert_eq!("héllo".input_len(), 6);
    assert_eq!(AsBytes::as_bytes(&"ab"), b"ab");
    assert_eq!(AsBytes::as_bytes(&s), b"abcd");
}

#[test]
fn each_error_kind_has_an_input() {
    let q: &[u8] = b"SELECT , FROM t";
    assert_eq!(
        selection(q),
        IResult::Error(ParseError::Position(
            ErrorKind::Custom(nom_sql::common::EXPECTED_IDENTIFIER),
            &q[7..]
        ))
    );
    let q: &[u8] = b"SELECT * FROM t x";
    assert_eq!(
        selection(q),
        IResult::Error(ParseError::Position(ErrorKind::Tag, &q[16..]))
    );
    let q: &[u8] = b"SELECT*FROM t";
    assert_eq!(
        selection(q),
        IResult::Error(ParseError::Position(ErrorKind::MultiSpace, &q[6..]))
    );
    let q: &[u8] = b"SELECT * FROM t WHER";
    assert_eq!(
        parse_select(q).err(),
        Some(ParseError::Position(ErrorKind::Complete, q))
    );
}

#[test]
fn parse_select_returns_statement_and_rest() {
    match parse_select(b"SELECT a FROM t; SELECT b FROM u;") {
        Ok((s, rest)) => {
            assert_eq!(s.tables, vec![table("t")]);
            assert_eq!(rest, b"SELECT b FROM u;");
        }
        Err(_) => panic!("no parse"),
    }
}

#[test]
fn keywords_ignore_case() {
    assert!(matches!(
        selection(b"sElEcT * fRoM t wHeRe a = 1 aNd b = 2 Or NoT (c = 3);"),
        IResult::Done(_, _)
    ));
}

#[test]
fn truncated_joins_and_lists_ask_for_more() {
    assert_eq!(
        selection(b"SELECT * FROM t LEFT JOI"),
        IResult::Incomplete(Needed::Size(25))
    );
    assert!(matches!(
        selection(b"SELECT * FROM t LEFT JOIN u ON t.a = u.b"),
        IResult::Done(_, _)
    ));
    assert_eq!(selection(b"SELECT a,"), IResult::Incomplete(Needed::Size(10)));
    assert!(matches!(selection(b"SELECT * FROM"), IResult::Incomplete(_)));
    assert!(matches!(selection(b"SELECT * FROM t, "), IResult::Incomplete(_)));
    assert!(matches!(
        selection(b"SELECT * FROM t JOIN u USING (a,"),
        IResult::Incomplete(_)
    ));
}
