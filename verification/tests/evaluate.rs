use calculate::error::EvalError;
use calculate::eval::evaluate;

#[test]
fn single_literal_is_returned() {
    assert_eq!(evaluate("42"), Ok(42));
    assert_eq!(evaluate("0"), Ok(0));
    assert_eq!(evaluate("-7"), Ok(-7));
    assert_eq!(evaluate("+5"), Ok(5));
}

#[test]
fn addition() {
    assert_eq!(evaluate("3 4 +"), Ok(7));
}

#[test]
fn subtraction_is_left_minus_right() {
    assert_eq!(evaluate("10 4 -"), Ok(6));
}

#[test]
fn multiplication() {
    assert_eq!(evaluate("6 7 *"), Ok(42));
}

#[test]
fn division() {
    assert_eq!(evaluate("20 5 /"), Ok(4));
}

#[test]
fn division_by_zero_fails() {
    assert_eq!(evaluate("7 0 /"), Err(EvalError::DivisionByZero));
}

#[test]
fn lone_operator_underflows() {
    assert_eq!(evaluate("+"), Err(EvalError::StackUnderflow));
}

#[test]
fn operator_with_one_operand_underflows() {
    assert_eq!(evaluate("5 +"), Err(EvalError::StackUnderflow));
    assert_eq!(evaluate("0 /"), Err(EvalError::StackUnderflow));
}

#[test]
fn invalid_token_is_reported() {
    assert_eq!(evaluate("abc"), Err(EvalError::InvalidToken(String::from("abc"))));
}

#[test]
fn invalid_token_aborts_evaluation() {
    assert_eq!(evaluate("3 x4 +"), Err(EvalError::InvalidToken(String::from("x4"))));
    assert_eq!(evaluate("1 2 ++"), Err(EvalError::InvalidToken(String::from("++"))));
    assert_eq!(evaluate("é"), Err(EvalError::InvalidToken(String::from("é"))));
}

#[test]
fn evaluating_twice_gives_the_same_result() {
    let first = evaluate("8 2 - 3 *");
    let second = evaluate("8 2 - 3 *");
    assert_eq!(first, second);
    assert_eq!(first, Ok(18));
}

#[test]
fn operand_order_matters() {
    assert_ne!(evaluate("10 4 -"), evaluate("4 10 -"));
    assert_eq!(evaluate("4 10 -"), Ok(-6));
}

#[test]
fn empty_input_underflows() {
    assert_eq!(evaluate(""), Err(EvalError::StackUnderflow));
    assert_eq!(evaluate("   "), Err(EvalError::StackUnderflow));
}

#[test]
fn repeated_and_mixed_separators_are_skipped() {
    assert_eq!(evaluate("  3   4  + "), Ok(7));
    assert_eq!(evaluate("3\t4\n+\r"), Ok(7));
}

#[test]
fn division_truncates_toward_zero() {
    assert_eq!(evaluate("-7 2 /"), Ok(-3));
    assert_eq!(evaluate("7 -2 /"), Ok(-3));
    assert_eq!(evaluate("-7 -2 /"), Ok(3));
}

#[test]
fn arithmetic_wraps_on_overflow() {
    assert_eq!(evaluate("2147483647 1 +"), Ok(i32::MIN));
    assert_eq!(evaluate("-2147483648 1 -"), Ok(i32::MAX));
    assert_eq!(evaluate("65536 65536 *"), Ok(0));
    assert_eq!(evaluate("-2147483648 -1 /"), Ok(i32::MIN));
}

#[test]
fn literal_range_is_checked() {
    assert_eq!(evaluate("2147483647"), Ok(i32::MAX));
    assert_eq!(evaluate("-2147483648"), Ok(i32::MIN));
    assert_eq!(
        evaluate("2147483648"),
        Err(EvalError::InvalidToken(String::from("2147483648")))
    );
    assert_eq!(
        evaluate("-2147483649"),
        Err(EvalError::InvalidToken(String::from("-2147483649")))
    );
}

#[test]
fn leftover_operands_leave_the_top_as_result() {
    assert_eq!(evaluate("3 4"), Ok(4));
}

#[test]
fn longer_expression() {
    assert_eq!(evaluate("15 7 1 1 + - / 3 *"), Ok(9));
}
