use binlens::context::ParseContext;
use binlens::expression::{checked_divide, checked_round_up, Expression};

fn lit(v: i64) -> Expression {
    Expression::Literal(v)
}

fn var(name: &str) -> Expression {
    Expression::Variable(name.to_string())
}

fn eval(expr: &Expression, context: &ParseContext) -> Option<i64> {
    binlens::expression::calc(expr, context)
}

fn context_with(bindings: &[(&str, i64)]) -> ParseContext {
    let mut context = ParseContext::new();
    for (name, value) in bindings {
        context.insert_variable(name.to_string(), *value);
    }
    context
}

#[test]
fn literal_is_itself() {
    let context = ParseContext::new();
    assert_eq!(eval(&lit(42), &context), Some(42));
    assert_eq!(eval(&lit(-7), &context), Some(-7));
    assert_eq!(eval(&lit(i64::MIN), &context), Some(i64::MIN));
}

#[test]
fn variable_is_what_it_is_bound_to() {
    let context = context_with(&[("width", 640), ("height", 480)]);
    assert_eq!(eval(&var("width"), &context), Some(640));
    assert_eq!(eval(&var("height"), &context), Some(480));
}

#[test]
fn unbound_variable_is_unresolvable() {
    let context = context_with(&[("width", 640)]);
    assert_eq!(eval(&var("depth"), &context), None);
    assert_eq!(eval(&var(""), &context), None);
}

#[test]
fn rebinding_overwrites() {
    let mut context = context_with(&[("n", 1), ("m", 5)]);
    context.insert_variable("n".to_string(), 2);
    assert_eq!(context.get_variable("n".to_string()), Some(2));
    assert_eq!(context.get_variable("m".to_string()), Some(5));
    assert_eq!(context.get_variable("k".to_string()), None);
}

#[test]
fn empty_context_binds_nothing() {
    let context = ParseContext::new();
    assert_eq!(context.get_variable("n".to_string()), None);
}

#[test]
fn sum_adds_from_zero() {
    let context = context_with(&[("n", 10)]);
    assert_eq!(eval(&Expression::Sum(vec![]), &context), Some(0));
    assert_eq!(eval(&Expression::Sum(vec![lit(1), lit(2), var("n")]), &context), Some(13));
    assert_eq!(eval(&Expression::Sum(vec![lit(54), lit(-14), lit(-40)]), &context), Some(0));
}

#[test]
fn product_multiplies_from_one() {
    let context = context_with(&[("n", 10)]);
    assert_eq!(eval(&Expression::Product(vec![]), &context), Some(1));
    assert_eq!(eval(&Expression::Product(vec![lit(3), lit(4), var("n")]), &context), Some(120));
    assert_eq!(eval(&Expression::Product(vec![lit(-3), lit(4)]), &context), Some(-12));
}

#[test]
fn sum_with_unresolvable_term_is_unresolvable() {
    let context = ParseContext::new();
    assert_eq!(eval(&Expression::Sum(vec![lit(1), var("missing"), lit(2)]), &context), None);
    assert_eq!(eval(&Expression::Product(vec![var("missing")]), &context), None);
}

#[test]
fn overflow_is_unresolvable() {
    let context = ParseContext::new();
    assert_eq!(eval(&Expression::Sum(vec![lit(i64::MAX), lit(1)]), &context), None);
    assert_eq!(eval(&Expression::Sum(vec![lit(i64::MIN), lit(-1)]), &context), None);
    assert_eq!(eval(&Expression::Product(vec![lit(i64::MAX), lit(2)]), &context), None);
    // A step that leaves the range fails even where the whole would fit.
    assert_eq!(eval(&Expression::Sum(vec![lit(i64::MAX), lit(1), lit(-1)]), &context), None);
    assert_eq!(eval(&Expression::Sum(vec![lit(i64::MAX), lit(-1), lit(1)]), &context), Some(i64::MAX));
}

#[test]
fn division_truncates_toward_zero() {
    let context = ParseContext::new();
    let divide = |a: i64, b: i64| {
        eval(&Expression::IntegerDivide(Box::new(lit(a)), Box::new(lit(b))), &context)
    };
    assert_eq!(divide(7, 2), Some(3));
    assert_eq!(divide(-7, 2), Some(-3));
    assert_eq!(divide(7, -2), Some(-3));
    assert_eq!(divide(-7, -2), Some(3));
    assert_eq!(divide(0, 5), Some(0));
    assert_eq!(divide(6, 3), Some(2));
}

#[test]
fn division_by_zero_is_unresolvable() {
    let context = ParseContext::new();
    assert_eq!(
        eval(&Expression::IntegerDivide(Box::new(lit(7)), Box::new(lit(0))), &context),
        None
    );
    assert_eq!(checked_divide(7, 0), None);
    assert_eq!(checked_divide(i64::MIN, -1), None);
    assert_eq!(checked_divide(i64::MIN, 1), Some(i64::MIN));
}

#[test]
fn division_with_unresolvable_operand_is_unresolvable() {
    let context = context_with(&[("n", 8)]);
    assert_eq!(
        eval(&Expression::IntegerDivide(Box::new(var("n")), Box::new(var("d"))), &context),
        None
    );
    assert_eq!(
        eval(&Expression::IntegerDivide(Box::new(var("d")), Box::new(var("n"))), &context),
        None
    );
    assert_eq!(
        eval(&Expression::IntegerDivide(Box::new(var("n")), Box::new(lit(3))), &context),
        Some(2)
    );
}

#[test]
fn round_up_to_multiple() {
    let context = context_with(&[("row", 6)]);
    let round = |a: Expression, b: i64| {
        eval(&Expression::RoundUpToMultiple(Box::new(a), Box::new(lit(b))), &context)
    };
    assert_eq!(round(lit(10), 4), Some(12));
    assert_eq!(round(lit(12), 4), Some(12));
    assert_eq!(round(lit(0), 4), Some(0));
    assert_eq!(round(lit(1), 4), Some(4));
    assert_eq!(round(var("row"), 4), Some(8));
    assert_eq!(round(lit(5), 1), Some(5));
    // ((-5 + 4 - 1) / 4) * 4, with the quotient rounded toward zero
    assert_eq!(round(lit(-5), 4), Some(0));
    assert_eq!(round(var("missing"), 4), None);
}

#[test]
fn round_up_refuses_zero_and_overflow() {
    assert_eq!(checked_round_up(10, 0), None);
    assert_eq!(checked_round_up(i64::MAX, 2), None);
    assert_eq!(checked_round_up(i64::MIN, 1), Some(i64::MIN));
    assert_eq!(checked_round_up(i64::MIN, -1), None);
    assert_eq!(checked_round_up(i64::MIN, 0), None);
    assert_eq!(checked_round_up(10, 4), Some(12));
    assert_eq!(checked_round_up(i64::MAX - 1, 1), Some(i64::MAX - 1));
}

#[test]
fn nested_expression() {
    // ((width * 3 + 3) / 4) * 4 * height, for a 24-bit bitmap of 5 by 2
    let context = context_with(&[("width", 5), ("height", 2)]);
    let row = Expression::RoundUpToMultiple(
        Box::new(Expression::Product(vec![var("width"), lit(3)])),
        Box::new(lit(4)),
    );
    let size = Expression::Product(vec![row, var("height")]);
    assert_eq!(eval(&size, &context), Some(32));
}

#[test]
fn evaluation_does_not_change_the_context() {
    let context = context_with(&[("n", 3)]);
    assert_eq!(eval(&Expression::Sum(vec![var("n"), var("n")]), &context), Some(6));
    assert_eq!(context.get_variable("n".to_string()), Some(3));
    assert_eq!(context.variables.len(), 1);
}
