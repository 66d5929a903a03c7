use nom_sql::{
    condition_expr, Column, ConditionBase, ConditionExpression, ConditionTree, ErrorKind, IResult,
    Literal, Needed, Operator, ParseError,
};

fn field(name: &str) -> ConditionExpression {
    ConditionExpression::Base(ConditionBase::Field(Column {
        name: name.as_bytes().to_vec(),
        table: None,
    }))
}

fn num(v: i64) -> ConditionExpression {
    ConditionExpression::Base(ConditionBase::Literal(Literal::Integer(v)))
}

fn tree(op: Operator, l: ConditionExpression, r: ConditionExpression) -> ConditionTree {
    ConditionTree {
        operator: op,
        left: Box::new(l),
        right: Box::new(r),
    }
}

fn cmp(name: &str, v: i64) -> ConditionExpression {
    ConditionExpression::ComparisonOp(tree(Operator::Equal, field(name), num(v)))
}

fn logical(op: Operator, l: ConditionExpression, r: ConditionExpression) -> ConditionExpression {
    ConditionExpression::LogicalOp(tree(op, l, r))
}

fn parse_all(text: &str) -> ConditionExpression {
    match condition_expr(text.as_bytes()) {
        IResult::Done(rest, e) => {
            assert!(rest.is_empty(), "input left over");
            e
        }
        _ => panic!("no parse"),
    }
}

fn col(name: &str) -> Column {
    Column {
        name: name.as_bytes().to_vec(),
        table: None,
    }
}

#[test]
fn and_of_two_comparisons() {
    let e = parse_all("a = 1 AND b = 2");
    assert_eq!(e, logical(Operator::And, cmp("a", 1), cmp("b", 2)));
}

#[test]
fn and_binds_tighter_than_or() {
    let e = parse_all("a = 1 OR b = 2 AND c = 3");
    let expected = logical(
        Operator::Or,
        cmp("a", 1),
        logical(Operator::And, cmp("b", 2), cmp("c", 3)),
    );
    assert_eq!(e, expected);
}

#[test]
fn or_chain_nests_to_the_right() {
    let e = parse_all("a = 1 or b = 2 or c = 3");
    let expected = logical(
        Operator::Or,
        cmp("a", 1),
        logical(Operator::Or, cmp("b", 2), cmp("c", 3)),
    );
    assert_eq!(e, expected);
}

#[test]
fn and_chain_nests_to_the_right() {
    let e = parse_all("a = 1 AND b = 2 And c = 3");
    let expected = logical(
        Operator::And,
        cmp("a", 1),
        logical(Operator::And, cmp("b", 2), cmp("c", 3)),
    );
    assert_eq!(e, expected);
}

#[test]
fn negation_of_parenthesized_comparison() {
    let e = parse_all("NOT (a = 1)");
    assert_eq!(e, ConditionExpression::NegationOp(Box::new(cmp("a", 1))));
}

#[test]
fn parentheses_group() {
    let e = parse_all("(a = 1 OR b = 2) AND c = 3");
    let expected = logical(
        Operator::And,
        logical(Operator::Or, cmp("a", 1), cmp("b", 2)),
        cmp("c", 3),
    );
    assert_eq!(e, expected);
}

#[test]
fn leaves_of_every_kind() {
    let e = parse_all("t.x >= ? and name = 'bob' and n <> -42");
    let left = ConditionExpression::ComparisonOp(tree(
        Operator::GreaterOrEqual,
        ConditionExpression::Base(ConditionBase::Field(Column {
            name: b"x".to_vec(),
            table: Some(b"t".to_vec()),
        })),
        ConditionExpression::Base(ConditionBase::Placeholder),
    ));
    let mid = ConditionExpression::ComparisonOp(tree(
        Operator::Equal,
        field("name"),
        ConditionExpression::Base(ConditionBase::Literal(Literal::String(b"bob".to_vec()))),
    ));
    let right = ConditionExpression::ComparisonOp(tree(Operator::NotEqual, field("n"), num(-42)));
    assert_eq!(
        e,
        logical(Operator::And, left, logical(Operator::And, mid, right))
    );
}

#[test]
fn comparison_operators() {
    let cases: Vec<(&str, Operator)> = vec![
        ("a != b", Operator::NotEqual),
        ("a <> b", Operator::NotEqual),
        ("a <= b", Operator::LessOrEqual),
        ("a < b", Operator::Less),
        ("a > b", Operator::Greater),
        ("a like b", Operator::Like),
        ("a NOT_LIKE b", Operator::NotLike),
        ("a in b", Operator::In),
    ];
    for (text, op) in cases {
        let e = parse_all(text);
        assert_eq!(
            e,
            ConditionExpression::ComparisonOp(tree(op, field("a"), field("b")))
        );
    }
}

#[test]
fn integer_too_large_is_read_as_no_integer() {
    assert_eq!(
        parse_all("a = 9223372036854775807"),
        ConditionExpression::ComparisonOp(tree(Operator::Equal, field("a"), num(i64::MAX)))
    );
    // The digits do not fit: the leaf falls back to a column name.
    assert_eq!(
        parse_all("a = 9223372036854775808"),
        ConditionExpression::ComparisonOp(tree(
            Operator::Equal,
            field("a"),
            field("9223372036854775808")
        ))
    );
}

#[test]
fn missing_operator_fails() {
    let r = condition_expr(b"a b");
    assert!(matches!(r, IResult::Error(ParseError::Position(ErrorKind::Tag, _))));
}

#[test]
fn empty_condition_asks_for_more() {
    assert_eq!(condition_expr(b""), IResult::Incomplete(Needed::Size(1)));
}

#[test]
fn truncated_condition_asks_for_more() {
    assert_eq!(condition_expr(b"NO"), IResult::Incomplete(Needed::Size(3)));
    assert_eq!(condition_expr(b"a = 1 AN"), IResult::Incomplete(Needed::Size(9)));
    assert_eq!(condition_expr(b"a = 1 AND"), IResult::Incomplete(Needed::Size(10)));
    assert_eq!(condition_expr(b"(a = 1"), IResult::Incomplete(Needed::Size(7)));
    assert!(matches!(condition_expr(b"a <"), IResult::Incomplete(_)));
    assert!(matches!(condition_expr(b"NOT (a = 1)"), IResult::Done(_, _)));
    assert!(matches!(condition_expr(b"a = 1 AND b = 2"), IResult::Done(_, _)));
}

#[test]
fn contained_columns_of_conjunction() {
    match parse_all("a = 1 AND b = 2") {
        ConditionExpression::LogicalOp(t) => {
            let cols = t.contained_columns();
            assert_eq!(cols.len(), 2);
            assert!(cols.contains(&col("a")));
            assert!(cols.contains(&col("b")));
        }
        _ => panic!("not a logical node"),
    }
}

#[test]
fn contained_columns_skips_negation() {
    match parse_all("NOT (a = 1) AND b = 2") {
        ConditionExpression::LogicalOp(t) => {
            let cols = t.contained_columns();
            assert_eq!(cols, vec![col("b")]);
        }
        _ => panic!("not a logical node"),
    }
}

#[test]
fn contained_columns_reports_each_once() {
    match parse_all("a = b OR a = 1 AND b = a") {
        ConditionExpression::LogicalOp(t) => {
            let cols = t.contained_columns();
            assert_eq!(cols.len(), 2);
            assert!(cols.contains(&col("a")));
            assert!(cols.contains(&col("b")));
        }
        _ => panic!("not a logical node"),
    }
}

#[test]
fn text_of_condition() {
    let e = parse_all("NOT (a = 1) AND t.b LIKE 'x%' OR c >= -7");
    assert_eq!(e.to_text(), b"NOT a = 1 AND t.b LIKE 'x%' OR c >= -7".to_vec());
    assert_eq!(ConditionBase::Placeholder.to_text(), b"?".to_vec());
    assert_eq!(Literal::Integer(i64::MIN).to_text(), b"-9223372036854775808".to_vec());
    assert_eq!(Literal::Integer(0).to_text(), b"0".to_vec());
}

#[test]
fn text_parses_back_to_the_same_tree() {
    let inputs = [
        "a = 1 AND b = 2",
        "a = 1 OR b = 2 AND c = 3",
        "NOT (a = 1)",
        "x.y <> 'abc' or z = ? and NOT NOT w < -3",
        "a=1 and (b=2)",
        "name = 1 AND no = 2 OR nothing.n <> -9223372036854775808",
    ];
    for text in inputs {
        let first = parse_all(text);
        let printed = first.to_text();
        match condition_expr(&printed) {
            IResult::Done(rest, second) => {
                assert!(rest.is_empty());
                assert_eq!(first, second);
            }
            _ => panic!("printed text does not parse"),
        }
    }
}

#[test]
fn least_integer_is_read() {
    assert_eq!(
        parse_all("a = -9223372036854775808"),
        ConditionExpression::ComparisonOp(tree(Operator::Equal, field("a"), num(i64::MIN)))
    );
    assert!(matches!(condition_expr(b"a = -9223372036854775809"), IResult::Error(_)));
}

#[test]
fn duplicate_copies_every_node() {
    let e = parse_all("NOT (t.a = 'x') AND b < ? OR c >= 3");
    let d = e.duplicate();
    assert_eq!(d, e);
    match &e {
        ConditionExpression::LogicalOp(t) => assert_eq!(&t.duplicate(), t),
        _ => panic!("not a logical node"),
    }
}
