use bma_formula::bma_fn_tree::BmaFnUpdate;
use bma_formula::enums::AggregateFn;
use bma_formula::enums::ArithOp;
use bma_formula::enums::UnaryFn;
use bma_formula::parser::parse_bma_formula;

#[test]
fn test_parse_simple_addition() {
    let input = "3 + 5";
    let result = parse_bma_formula(input);
    let expected = BmaFnUpdate::mk_arithmetic(
        BmaFnUpdate::mk_constant(3),
        BmaFnUpdate::mk_constant(5),
        ArithOp::Plus,
    );
    assert_eq!(result, Ok(expected));
}

#[test]
fn test_parse_simple_subtraction() {
    let input = "10 - 7";
    let result = parse_bma_formula(input);
    let expected = BmaFnUpdate::mk_arithmetic(
        BmaFnUpdate::mk_constant(10),
        BmaFnUpdate::mk_constant(7),
        ArithOp::Minus,
    );
    assert_eq!(result, Ok(expected));
}

#[test]
fn test_parse_multiplication_and_division() {
    let input = "8 * 4 / 2";
    let result = parse_bma_formula(input);
    let expected = BmaFnUpdate::mk_arithmetic(
        BmaFnUpdate::mk_arithmetic(
            BmaFnUpdate::mk_constant(8),
            BmaFnUpdate::mk_constant(4),
            ArithOp::Mult,
        ),
        BmaFnUpdate::mk_constant(2),
        ArithOp::Div,
    );
    assert_eq!(result, Ok(expected));
}

#[test]
fn test_parse_nested_arithmetic() {
    let input = "3 + (5 * 2)";
    let result = parse_bma_formula(input);
    let expected = BmaFnUpdate::mk_arithmetic(
        BmaFnUpdate::mk_constant(3),
        BmaFnUpdate::mk_arithmetic(
            BmaFnUpdate::mk_constant(5),
            BmaFnUpdate::mk_constant(2),
            ArithOp::Mult,
        ),
        ArithOp::Plus,
    );
    assert_eq!(result, Ok(expected));
}

#[test]
fn test_parse_abs_function() {
    let input = "abs(5)";
    let result = parse_bma_formula(input);
    let expected = BmaFnUpdate::mk_unary(BmaFnUpdate::mk_constant(5), UnaryFn::Abs);
    assert_eq!(result, Ok(expected));
}

#[test]
fn test_parse_aggregate_min() {
    let input = "min(3, 5, 5 + variable)";
    let result = parse_bma_formula(input);
    let expected = BmaFnUpdate::mk_aggregation(
        AggregateFn::Min,
        vec![
            BmaFnUpdate::mk_constant(3),
            BmaFnUpdate::mk_constant(5),
            BmaFnUpdate::mk_arithmetic(
                BmaFnUpdate::mk_constant(5),
                BmaFnUpdate::mk_variable("variable"),
                ArithOp::Plus,
            ),
        ],
    );
    assert_eq!(result, Ok(expected));
}

#[test]
fn test_parse_unmatched_parentheses() {
    let input = "3 + (5 * 2";
    let result = parse_bma_formula(input);
    assert!(result.is_err());
    assert_eq!(
        result,
        Err("Expected ')' to previously encountered opening counterpart.".to_string())
    );
}

#[test]
fn test_parse_invalid_token() {
    let input = "5 + @";
    let result = parse_bma_formula(input);
    assert!(result.is_err());
    assert_eq!(result, Err("Unexpected character: '@'".to_string()));
}

#[test]
fn test_parse_function_with_multiple_arguments() {
    let input = "max(3, 5, 10)";
    let result = parse_bma_formula(input);
    let expected = BmaFnUpdate::mk_aggregation(
        AggregateFn::Max,
        vec![
            BmaFnUpdate::mk_constant(3),
            BmaFnUpdate::mk_constant(5),
            BmaFnUpdate::mk_constant(10),
        ],
    );
    assert_eq!(result, Ok(expected));
}

#[test]
fn test_parse_empty_formula() {
    let input = "";
    let result = parse_bma_formula(input);
    assert!(result.is_err());
    assert_eq!(result, Err("Expected formula, found nothing.".to_string()));
}
