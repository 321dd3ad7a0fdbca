use bma_formula::bma_fn_tree::BmaFnUpdate;
use bma_formula::enums::AggregateFn;
use bma_formula::enums::ArithOp;
use bma_formula::enums::UnaryFn;
use bma_formula::parser::parse_bma_fn_tokens;
use bma_formula::parser::parse_bma_formula;
use bma_formula::tokenizer::try_tokenize_bma_formula;
use bma_formula::tokens::BmaFnToken;
use bma_formula::tokens::Literal;

#[test]
fn test_parse_zero() {
    assert_eq!(parse_bma_formula("0"), Ok(BmaFnUpdate::mk_constant(0)));
}

#[test]
fn test_parse_plain_number() {
    assert_eq!(parse_bma_formula("12345"), Ok(BmaFnUpdate::mk_constant(12345)));
}

#[test]
fn test_parse_largest_constant() {
    assert_eq!(
        parse_bma_formula("2147483647"),
        Ok(BmaFnUpdate::mk_constant(2147483647))
    );
}

#[test]
fn test_parse_constant_too_large() {
    assert_eq!(
        parse_bma_formula("2147483648"),
        Err("Invalid number: '2147483648'".to_string())
    );
}

#[test]
fn test_chained_subtraction_nests_right() {
    // `1 - 2 - 3` reads as `1 - (2 - 3)`: each level recurses into itself on
    // the right-hand remainder.
    let expected = BmaFnUpdate::mk_arithmetic(
        BmaFnUpdate::mk_constant(1),
        BmaFnUpdate::mk_arithmetic(
            BmaFnUpdate::mk_constant(2),
            BmaFnUpdate::mk_constant(3),
            ArithOp::Minus,
        ),
        ArithOp::Minus,
    );
    assert_eq!(parse_bma_formula("1 - 2 - 3"), Ok(expected));
}

#[test]
fn test_division_binds_loosest() {
    // `6 / 2 + 1` splits at `/` first: division is the loosest-binding level.
    let expected = BmaFnUpdate::mk_arithmetic(
        BmaFnUpdate::mk_constant(6),
        BmaFnUpdate::mk_arithmetic(
            BmaFnUpdate::mk_constant(2),
            BmaFnUpdate::mk_constant(1),
            ArithOp::Plus,
        ),
        ArithOp::Div,
    );
    assert_eq!(parse_bma_formula("6 / 2 + 1"), Ok(expected));
}

#[test]
fn test_parse_parenthesized_atom() {
    assert_eq!(parse_bma_formula("(7)"), Ok(BmaFnUpdate::mk_constant(7)));
}

#[test]
fn test_parse_empty_parentheses() {
    assert_eq!(
        parse_bma_formula("()"),
        Err("Expected formula, found nothing.".to_string())
    );
}

#[test]
fn test_parse_variable_with_underscore() {
    let expected = BmaFnUpdate::mk_arithmetic(
        BmaFnUpdate::mk_variable("var_1"),
        BmaFnUpdate::mk_constant(2),
        ArithOp::Plus,
    );
    assert_eq!(parse_bma_formula("var_1 + 2"), Ok(expected));
}

#[test]
fn test_parse_ceil_function() {
    assert_eq!(
        parse_bma_formula("ceil(3)"),
        Ok(BmaFnUpdate::mk_unary(BmaFnUpdate::mk_constant(3), UnaryFn::Ceil))
    );
}

#[test]
fn test_parse_floor_function() {
    assert_eq!(
        parse_bma_formula("floor(9)"),
        Ok(BmaFnUpdate::mk_unary(BmaFnUpdate::mk_constant(9), UnaryFn::Floor))
    );
}

#[test]
fn test_parse_avg_function() {
    let expected = BmaFnUpdate::mk_aggregation(
        AggregateFn::Avg,
        vec![BmaFnUpdate::mk_constant(1), BmaFnUpdate::mk_constant(2)],
    );
    assert_eq!(parse_bma_formula("avg(1, 2)"), Ok(expected));
}

#[test]
fn test_parse_nested_aggregation() {
    let expected = BmaFnUpdate::mk_aggregation(
        AggregateFn::Min,
        vec![
            BmaFnUpdate::mk_aggregation(
                AggregateFn::Max,
                vec![BmaFnUpdate::mk_constant(1), BmaFnUpdate::mk_constant(2)],
            ),
            BmaFnUpdate::mk_constant(3),
        ],
    );
    assert_eq!(parse_bma_formula("min(max(1, 2), 3)"), Ok(expected));
}

#[test]
fn test_parse_whitespace_everywhere() {
    let expected = BmaFnUpdate::mk_arithmetic(
        BmaFnUpdate::mk_constant(3),
        BmaFnUpdate::mk_constant(5),
        ArithOp::Plus,
    );
    assert_eq!(parse_bma_formula("  3\t+\n5 "), Ok(expected));
}

#[test]
fn test_parse_stray_comma() {
    assert_eq!(
        parse_bma_formula("3 , 5"),
        Err("Unexpected character: ','".to_string())
    );
}

#[test]
fn test_parse_stray_closing_parenthesis() {
    assert_eq!(
        parse_bma_formula("3)"),
        Err("Unexpected character: ')'".to_string())
    );
}

#[test]
fn test_parse_comma_inside_unary_call() {
    assert_eq!(
        parse_bma_formula("abs(1, 2)"),
        Err("Unexpected character: ','".to_string())
    );
}

#[test]
fn test_parse_aggregation_without_arguments() {
    // `min()` holds one empty argument group, which is no formula.
    assert_eq!(
        parse_bma_formula("min()"),
        Err("Expected formula, found nothing.".to_string())
    );
}

#[test]
fn test_parse_unknown_function_is_malformed() {
    // `foo` is no known function name, so the name and the group stand as
    // two adjacent tokens, which the atomic level rejects.
    assert_eq!(
        parse_bma_formula("foo(5)"),
        Err("Unexpected: [foo, (5)]. Expecting formula.".to_string())
    );
}

#[test]
fn test_parse_function_name_detached_from_parenthesis() {
    // A known function name counts as a call only when `(` follows at once.
    assert_eq!(
        parse_bma_formula("abs (5)"),
        Err("Unexpected: [abs, (5)]. Expecting formula.".to_string())
    );
}

#[test]
fn test_parse_adjacent_constants_are_malformed() {
    assert_eq!(
        parse_bma_formula("3 5"),
        Err("Unexpected: [3, 5]. Expecting formula.".to_string())
    );
}

#[test]
fn test_parse_operator_alone_is_malformed() {
    // A lone `+` splits into two empty operand slices; the left one is
    // rejected first.
    assert_eq!(
        parse_bma_formula("+"),
        Err("Expected formula, found nothing.".to_string())
    );
}

#[test]
fn test_repeated_parse_is_identical() {
    let first = parse_bma_formula("min(3, 5, 5 + variable)");
    let second = parse_bma_formula("min(3, 5, 5 + variable)");
    assert_eq!(first, second);
    let first_err = parse_bma_formula("3 + (5 * 2");
    let second_err = parse_bma_formula("3 + (5 * 2");
    assert_eq!(first_err, second_err);
}

#[test]
fn test_tokenize_simple_addition() {
    let tokens = try_tokenize_bma_formula("3 + 5".to_string()).unwrap();
    assert_eq!(
        tokens,
        vec![
            BmaFnToken::Atomic(Literal::Int(3)),
            BmaFnToken::Binary(ArithOp::Plus),
            BmaFnToken::Atomic(Literal::Int(5)),
        ]
    );
}

#[test]
fn test_tokenize_function_call() {
    let tokens = try_tokenize_bma_formula("abs(5)".to_string()).unwrap();
    assert_eq!(
        tokens,
        vec![BmaFnToken::Unary(
            UnaryFn::Abs,
            Box::new(BmaFnToken::TokenList(vec![BmaFnToken::Atomic(Literal::Int(5))])),
        )]
    );
}

#[test]
fn test_parse_tokens_ungrouped_function_argument() {
    // A hand-built function token whose argument is no `TokenList`.
    let tokens = vec![BmaFnToken::Unary(
        UnaryFn::Abs,
        Box::new(BmaFnToken::Atomic(Literal::Int(5))),
    )];
    assert_eq!(
        parse_bma_fn_tokens(&tokens),
        Err("Function must be applied on `TokenList` args.".to_string())
    );
}

#[test]
fn test_parse_tokens_directly() {
    let tokens = vec![
        BmaFnToken::Atomic(Literal::Int(4)),
        BmaFnToken::Binary(ArithOp::Mult),
        BmaFnToken::Atomic(Literal::Str("x".to_string())),
    ];
    let expected = BmaFnUpdate::mk_arithmetic(
        BmaFnUpdate::mk_constant(4),
        BmaFnUpdate::mk_variable("x"),
        ArithOp::Mult,
    );
    assert_eq!(parse_bma_fn_tokens(&tokens), Ok(expected));
}
