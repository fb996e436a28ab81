use teckel::expr::{BinaryOp, Expr, Literal, UnaryOp};
use teckel::expr_parser::parse_expression;

fn parse(input: &str) -> Expr {
    parse_expression(input).unwrap_or_else(|e| panic!("failed to parse '{input}': {e}"))
}

#[test]
fn simple_column() {
    assert_eq!(parse("name"), Expr::ColumnRef { table: None, column: "name".into() });
}

#[test]
fn qualified_column() {
    assert_eq!(
        parse("employees.name"),
        Expr::ColumnRef { table: Some("employees".into()), column: "name".into() }
    );
}

#[test]
fn integer_literal() {
    assert_eq!(parse("42"), Expr::Literal(Literal::Integer(42)));
}

#[test]
fn float_literal() {
    assert_eq!(parse("3.15"), Expr::Literal(Literal::Float("3.15".into())));
    let text = match parse("3.15") {
        Expr::Literal(Literal::Float(t)) => t,
        other => panic!("expected Float, got {other:?}"),
    };
    assert_eq!(text.parse::<f64>().unwrap(), 3.15);
}

#[test]
fn string_literal_simple() {
    assert_eq!(parse("'hello'"), Expr::Literal(Literal::String("hello".into())));
}

#[test]
fn string_literal_escaped_quote() {
    assert_eq!(parse("'it''s'"), Expr::Literal(Literal::String("it's".into())));
}

#[test]
fn null_literal() {
    assert_eq!(parse("NULL"), Expr::Literal(Literal::Null));
    assert_eq!(parse("null"), Expr::Literal(Literal::Null));
}

#[test]
fn boolean_literals() {
    assert_eq!(parse("true"), Expr::Literal(Literal::Boolean(true)));
    assert_eq!(parse("false"), Expr::Literal(Literal::Boolean(false)));
}

#[test]
fn arithmetic() {
    let expr = parse("salary * 1.1");
    assert!(matches!(expr, Expr::BinaryOp { op: BinaryOp::Mul, .. }));
}

#[test]
fn arithmetic_precedence() {
    let expr = parse("a + b * c");
    match expr {
        Expr::BinaryOp { op: BinaryOp::Add, right, .. } => {
            assert!(matches!(*right, Expr::BinaryOp { op: BinaryOp::Mul, .. }));
        }
        other => panic!("expected Add(_, Mul(_, _)), got {other:?}"),
    }
}

#[test]
fn comparison_eq() {
    let expr = parse("status = 'active'");
    assert!(matches!(expr, Expr::BinaryOp { op: BinaryOp::Eq, .. }));
}

#[test]
fn comparison_double_eq() {
    let expr = parse("x == 1");
    assert!(matches!(expr, Expr::BinaryOp { op: BinaryOp::Eq, .. }));
}

#[test]
fn and_or_precedence() {
    let expr = parse("a = 1 AND b = 2 OR c = 3");
    assert!(matches!(expr, Expr::BinaryOp { op: BinaryOp::Or, .. }));
}

#[test]
fn not_expression() {
    let expr = parse("NOT active");
    assert!(matches!(expr, Expr::UnaryOp { op: UnaryOp::Not, .. }));
}

#[test]
fn is_null() {
    let expr = parse("x IS NULL");
    assert!(matches!(expr, Expr::IsNull { negated: false, .. }));
}

#[test]
fn is_not_null() {
    let expr = parse("x IS NOT NULL");
    assert!(matches!(expr, Expr::IsNull { negated: true, .. }));
}

#[test]
fn in_list() {
    let expr = parse("status IN ('a', 'b', 'c')");
    match expr {
        Expr::InList { list, negated, .. } => {
            assert!(!negated);
            assert_eq!(list.len(), 3);
        }
        other => panic!("expected InList, got {other:?}"),
    }
}

#[test]
fn not_in_list() {
    let expr = parse("x NOT IN (1, 2)");
    assert!(matches!(expr, Expr::InList { negated: true, .. }));
}

#[test]
fn between() {
    let expr = parse("age BETWEEN 18 AND 65");
    assert!(matches!(expr, Expr::Between { negated: false, .. }));
}

#[test]
fn like_pattern() {
    let expr = parse("name LIKE '%smith%'");
    assert!(matches!(expr, Expr::Like { negated: false, .. }));
}

#[test]
fn function_call() {
    match parse("upper(name)") {
        Expr::FunctionCall { name, args, distinct } => {
            assert_eq!(name, "upper");
            assert_eq!(args.len(), 1);
            assert!(!distinct);
        }
        other => panic!("expected FunctionCall, got {other:?}"),
    }
}

#[test]
fn count_star() {
    match parse("count(*)") {
        Expr::FunctionCall { name, args, .. } => {
            assert_eq!(name, "count");
            assert_eq!(args, vec![Expr::Wildcard]);
        }
        other => panic!("expected FunctionCall, got {other:?}"),
    }
}

#[test]
fn count_distinct() {
    match parse("count(DISTINCT customer_id)") {
        Expr::FunctionCall { name, distinct, .. } => {
            assert_eq!(name, "count");
            assert!(distinct);
        }
        other => panic!("expected FunctionCall, got {other:?}"),
    }
}

#[test]
fn nested_functions() {
    match parse("upper(trim(name))") {
        Expr::FunctionCall { name, args, .. } => {
            assert_eq!(name, "upper");
            assert!(matches!(args[0], Expr::FunctionCall { .. }));
        }
        other => panic!("expected nested FunctionCall, got {other:?}"),
    }
}

#[test]
fn case_expression() {
    match parse("CASE WHEN amount > 1000 THEN 'high' ELSE 'low' END") {
        Expr::Case { when_clauses, else_clause } => {
            assert_eq!(when_clauses.len(), 1);
            assert!(else_clause.is_some());
        }
        other => panic!("expected Case, got {other:?}"),
    }
}

#[test]
fn case_multi_when() {
    match parse("CASE WHEN amount > 1000 THEN 'high' WHEN amount > 100 THEN 'medium' ELSE 'low' END") {
        Expr::Case { when_clauses, .. } => assert_eq!(when_clauses.len(), 2),
        other => panic!("expected Case, got {other:?}"),
    }
}

#[test]
fn cast_expression() {
    match parse("CAST(amount AS double)") {
        Expr::Cast { data_type, .. } => assert_eq!(data_type, "double"),
        other => panic!("expected Cast, got {other:?}"),
    }
}

#[test]
fn aliased_expression() {
    match parse("salary * 1.1 as adjusted_salary") {
        Expr::Alias { alias, .. } => assert_eq!(alias, "adjusted_salary"),
        other => panic!("expected Alias, got {other:?}"),
    }
}

#[test]
fn aggregate_with_alias() {
    match parse("sum(amount) as total") {
        Expr::Alias { expr, alias } => {
            assert_eq!(alias, "total");
            assert!(matches!(*expr, Expr::FunctionCall { .. }));
        }
        other => panic!("expected Alias(FunctionCall), got {other:?}"),
    }
}

#[test]
fn complex_filter() {
    let expr = parse("status = 'active' AND created_at >= '2025-01-01'");
    assert!(matches!(expr, Expr::BinaryOp { op: BinaryOp::And, .. }));
}

#[test]
fn backtick_identifier() {
    assert_eq!(parse("`my column`"), Expr::ColumnRef { table: None, column: "my column".into() });
}

#[test]
fn no_args_function() {
    match parse("current_timestamp()") {
        Expr::FunctionCall { name, args, .. } => {
            assert_eq!(name, "current_timestamp");
            assert!(args.is_empty());
        }
        other => panic!("expected FunctionCall, got {other:?}"),
    }
}

#[test]
fn negation() {
    assert!(matches!(parse("-amount"), Expr::UnaryOp { op: UnaryOp::Neg, .. }));
}

#[test]
fn parenthesized() {
    assert!(matches!(parse("(a + b) * c"), Expr::BinaryOp { op: BinaryOp::Mul, .. }));
}

#[test]
fn multi_arg_function() {
    match parse("concat(first_name, ' ', last_name)") {
        Expr::FunctionCall { name, args, .. } => {
            assert_eq!(name, "concat");
            assert_eq!(args.len(), 3);
        }
        other => panic!("expected FunctionCall, got {other:?}"),
    }
}

#[test]
fn join_condition_qualified() {
    match parse("employees.dept_id = departments.id") {
        Expr::BinaryOp { left, op: BinaryOp::Eq, right } => {
            assert!(matches!(*left, Expr::ColumnRef { table: Some(_), .. }));
            assert!(matches!(*right, Expr::ColumnRef { table: Some(_), .. }));
        }
        other => panic!("expected Eq of qualified cols, got {other:?}"),
    }
}

#[test]
fn lag_with_offset() {
    match parse("lag(salary, 1)") {
        Expr::FunctionCall { name, args, .. } => {
            assert_eq!(name, "lag");
            assert_eq!(args.len(), 2);
        }
        other => panic!("expected FunctionCall, got {other:?}"),
    }
}

#[test]
fn empty_expression_fails() {
    assert!(parse_expression("").is_err());
    assert!(parse_expression("  ").is_err());
}

#[test]
fn not_a_and_b_or_c() {
    let expr = parse("NOT a AND b OR c");
    assert!(matches!(expr, Expr::BinaryOp { op: BinaryOp::Or, .. }));
}

#[test]
fn count_1_as_alias() {
    match parse("count(1) as num_sales") {
        Expr::Alias { expr, alias } => {
            assert_eq!(alias, "num_sales");
            assert!(matches!(*expr, Expr::FunctionCall { .. }));
        }
        other => panic!("expected Alias, got {other:?}"),
    }
}

#[test]
fn integer_too_large_fails() {
    assert!(parse_expression("9223372036854775807").is_ok());
    assert!(parse_expression("9223372036854775808").is_err());
}

#[test]
fn trailing_input_fails() {
    let err = parse_expression("a b").unwrap_err();
    assert!(err.contains("unexpected trailing input"));
}

#[test]
fn keywords_ignore_case() {
    assert!(matches!(parse("x is not null"), Expr::IsNull { negated: true, .. }));
    assert!(matches!(parse("a and b"), Expr::BinaryOp { op: BinaryOp::And, .. }));
}

#[test]
fn comparison_operators() {
    assert!(matches!(parse("a <> b"), Expr::BinaryOp { op: BinaryOp::Neq, .. }));
    assert!(matches!(parse("a != b"), Expr::BinaryOp { op: BinaryOp::Neq, .. }));
    assert!(matches!(parse("a <= b"), Expr::BinaryOp { op: BinaryOp::LtEq, .. }));
    assert!(matches!(parse("a >= b"), Expr::BinaryOp { op: BinaryOp::GtEq, .. }));
    assert!(matches!(parse("a < b"), Expr::BinaryOp { op: BinaryOp::Lt, .. }));
    assert!(matches!(parse("a > b"), Expr::BinaryOp { op: BinaryOp::Gt, .. }));
}

#[test]
fn left_associative_subtraction() {
    match parse("a - b - c") {
        Expr::BinaryOp { left, op: BinaryOp::Sub, .. } => {
            assert!(matches!(*left, Expr::BinaryOp { op: BinaryOp::Sub, .. }));
        }
        other => panic!("expected Sub(Sub(_, _), _), got {other:?}"),
    }
}

#[test]
fn unterminated_string_fails() {
    assert!(parse_expression("'abc").is_err());
}

#[test]
fn float_needs_a_digit_after_the_point() {
    let e = parse_expression("1.").unwrap_err();
    assert_eq!(e, "expected digit after decimal point at position 2");
    assert!(parse_expression("x = 1. + 2").is_err());
    assert_eq!(parse("1.5"), Expr::Literal(Literal::Float("1.5".into())));
}

#[test]
fn error_messages_name_what_was_expected() {
    let err = |s: &str| parse_expression(s).unwrap_err();
    assert_eq!(err("a +"), "unexpected end of input");
    assert_eq!(err("(a"), "expected ')', found end of input");
    assert_eq!(err("(a b"), "expected ')', found 'b' at position 3");
    assert_eq!(err("x IS 5"), "expected NULL after IS at position 5");
    assert_eq!(err("a BETWEEN 1 5"), "expected AND in BETWEEN at position 12");
    assert_eq!(err("CASE WHEN a 1 END"), "expected THEN at position 12");
    assert_eq!(err("CASE WHEN a THEN 1"), "expected END at position 18");
    assert_eq!(err("CAST(a INT)"), "expected AS in CAST at position 7");
    assert_eq!(err("CAST(a AS )"), "expected type name at position 10");
    assert_eq!(err("#"), "unexpected character '#' at position 0");
    assert_eq!(err("'abc"), "unterminated string literal");
    assert_eq!(err("`abc"), "unterminated backtick identifier");
    assert_eq!(err("t."), "expected identifier at position 2");
    assert_eq!(err("99999999999999999999"), "invalid integer: number too large to fit in target type");
    assert_eq!(err("a ? b"), "unexpected trailing input at position 2: '? b'");
}

#[test]
fn error_positions_count_bytes() {
    assert_eq!(parse_expression("'é' #").unwrap_err(), "unexpected trailing input at position 5: '#'");
    assert_eq!(parse_expression("'é' = §").unwrap_err(), "unexpected character '§' at position 7");
}
