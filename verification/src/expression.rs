//! The arithmetic that a schema uses for lengths and repeat counts.

use crate::context::ParseContext;
use vstd::prelude::*;

verus! {

/// An expression over 64-bit signed integers and the variables of a parse.
#[derive(Debug, PartialEq, Eq)]
pub enum Expression {
    /// A constant.
    Literal(i64),
    /// The value that a variable is bound to.
    Variable(String),
    /// The sum of the terms, taken from left to right, starting from zero.
    Sum(Vec<Expression>),
    /// The product of the factors, taken from left to right, starting from one.
    Product(Vec<Expression>),
    /// The first divided by the second, rounded toward zero.
    IntegerDivide(Box<Expression>, Box<Expression>),
    /// The first rounded up to a multiple of the second: `((a + b - 1) / b) * b`.
    RoundUpToMultiple(Box<Expression>, Box<Expression>),
}

/// What an [`Expression`] stands for.
pub enum ExpressionView {
    Literal(i64),
    Variable(Seq<char>),
    Sum(Seq<ExpressionView>),
    Product(Seq<ExpressionView>),
    IntegerDivide(Box<ExpressionView>, Box<ExpressionView>),
    RoundUpToMultiple(Box<ExpressionView>, Box<ExpressionView>),
}

/// What an expression stands for.
pub open spec fn expression_view(expr: Expression) -> ExpressionView
    decreases expr,
{
    match expr {
        Expression::Literal(v) => ExpressionView::Literal(v),
        Expression::Variable(name) => ExpressionView::Variable(name@),
        Expression::Sum(terms) => ExpressionView::Sum(
            Seq::new(
                terms@.len(),
                |i: int|
                    if 0 <= i < terms@.len() {
                        expression_view(terms@[i])
                    } else {
                        arbitrary()
                    },
            ),
        ),
        Expression::Product(factors) => ExpressionView::Product(
            Seq::new(
                factors@.len(),
                |i: int|
                    if 0 <= i < factors@.len() {
                        expression_view(factors@[i])
                    } else {
                        arbitrary()
                    },
            ),
        ),
        Expression::IntegerDivide(input, by) => ExpressionView::IntegerDivide(
            Box::new(expression_view(*input)),
            Box::new(expression_view(*by)),
        ),
        Expression::RoundUpToMultiple(input, of) => ExpressionView::RoundUpToMultiple(
            Box::new(expression_view(*input)),
            Box::new(expression_view(*of)),
        ),
    }
}

impl View for Expression {
    type V = ExpressionView;

    open spec fn view(&self) -> ExpressionView {
        expression_view(*self)
    }
}

/// What a list of expressions stands for.
pub open spec fn expressions_view(list: Seq<Expression>) -> Seq<ExpressionView> {
    Seq::new(list.len(), |i: int| list[i]@)
}

/// `v`, where it is a 64-bit signed integer.
pub open spec fn checked(v: int) -> Option<i64> {
    if i64::MIN <= v <= i64::MAX {
        Some(v as i64)
    } else {
        None
    }
}

/// The quotient of `a` by `b` rounded toward zero, for `b` other than zero.
pub open spec fn truncating_quotient(a: int, b: int) -> int {
    if a >= 0 && b > 0 {
        a / b
    } else if a < 0 && b < 0 {
        (-a) / (-b)
    } else if a < 0 {
        -((-a) / b)
    } else {
        -(a / (-b))
    }
}

/// Division rounded toward zero; nothing where the divisor is zero or the
/// quotient is no 64-bit signed integer.
pub open spec fn divide(a: i64, b: i64) -> Option<i64> {
    if b == 0 {
        None
    } else {
        checked(truncating_quotient(a as int, b as int))
    }
}

/// `((a + b - 1) / b) * b`, where every step is a 64-bit signed integer.
pub open spec fn round_up_to_multiple(a: i64, b: i64) -> Option<i64> {
    match checked(a + b) {
        Some(s) => match checked(s - 1) {
            Some(t) => match divide(t, b) {
                Some(q) => checked(q * b),
                None => None,
            },
            None => None,
        },
        None => None,
    }
}

/// What an expression evaluates to over the bindings `vars`: nothing where a
/// variable is unbound, a divisor is zero, or a step leaves the 64-bit signed
/// integers.
pub open spec fn evaluate(expr: ExpressionView, vars: Map<Seq<char>, i64>) -> Option<i64>
    decreases expr, 0nat,
{
    match expr {
        ExpressionView::Literal(v) => Some(v),
        ExpressionView::Variable(name) => if vars.contains_key(name) {
            Some(vars[name])
        } else {
            None
        },
        ExpressionView::Sum(terms) => evaluate_sum(terms, vars),
        ExpressionView::Product(factors) => evaluate_product(factors, vars),
        ExpressionView::IntegerDivide(input, by) => match evaluate(*input, vars) {
            Some(a) => match evaluate(*by, vars) {
                Some(b) => divide(a, b),
                None => None,
            },
            None => None,
        },
        ExpressionView::RoundUpToMultiple(input, of) => match evaluate(*input, vars) {
            Some(a) => match evaluate(*of, vars) {
                Some(b) => round_up_to_multiple(a, b),
                None => None,
            },
            None => None,
        },
    }
}

/// The terms added up from left to right.
pub open spec fn evaluate_sum(terms: Seq<ExpressionView>, vars: Map<Seq<char>, i64>) -> Option<i64>
    decreases terms, 1nat,
{
    if terms.len() == 0 {
        Some(0)
    } else {
        match evaluate_sum(terms.drop_last(), vars) {
            Some(acc) => match evaluate(terms.last(), vars) {
                Some(v) => checked(acc + v),
                None => None,
            },
            None => None,
        }
    }
}

/// The factors multiplied from left to right.
pub open spec fn evaluate_product(
    factors: Seq<ExpressionView>,
    vars: Map<Seq<char>, i64>,
) -> Option<i64>
    decreases factors, 1nat,
{
    if factors.len() == 0 {
        Some(1)
    } else {
        match evaluate_product(factors.drop_last(), vars) {
            Some(acc) => match evaluate(factors.last(), vars) {
                Some(v) => checked(acc * v),
                None => None,
            },
            None => None,
        }
    }
}

/// A sum that has failed on some of its first terms fails on all of them.
pub proof fn lemma_sum_fails_from_prefix(
    terms: Seq<ExpressionView>,
    vars: Map<Seq<char>, i64>,
    k: int,
)
    requires
        0 <= k <= terms.len(),
        evaluate_sum(terms.take(k), vars) is None,
    ensures
        evaluate_sum(terms, vars) is None,
    decreases terms.len() - k,
{
    if k < terms.len() {
        assert(terms.take(k + 1).drop_last() =~= terms.take(k));
        lemma_sum_fails_from_prefix(terms, vars, k + 1);
    } else {
        assert(terms.take(k) =~= terms);
    }
}

/// A product that has failed on some of its first factors fails on all of them.
pub proof fn lemma_product_fails_from_prefix(
    factors: Seq<ExpressionView>,
    vars: Map<Seq<char>, i64>,
    k: int,
)
    requires
        0 <= k <= factors.len(),
        evaluate_product(factors.take(k), vars) is None,
    ensures
        evaluate_product(factors, vars) is None,
    decreases factors.len() - k,
{
    if k < factors.len() {
        assert(factors.take(k + 1).drop_last() =~= factors.take(k));
        lemma_product_fails_from_prefix(factors, vars, k + 1);
    } else {
        assert(factors.take(k) =~= factors);
    }
}

/// Division rounded toward zero, refusing a zero divisor and a quotient that
/// does not fit.
pub fn checked_divide(a: i64, b: i64) -> (q: Option<i64>)
    ensures
        q == divide(a, b),
{
    a.checked_div(b)
}

/// `a` rounded up to a multiple of `b`, refusing every step that does not fit.
pub fn checked_round_up(a: i64, b: i64) -> (r: Option<i64>)
    ensures
        r == round_up_to_multiple(a, b),
{
    match a.checked_add(b) {
        Some(s) => match s.checked_sub(1) {
            Some(t) => match checked_divide(t, b) {
                Some(q) => q.checked_mul(b),
                None => None,
            },
            None => None,
        },
        None => None,
    }
}

/// Evaluates `def` over the variables bound in `context`.
pub fn calc(def: &Expression, context: &ParseContext) -> (value: Option<i64>)
    ensures
        value == evaluate(def@, context@),
    decreases def,
{
    match def {
        Expression::Literal(v) => Some(*v),
        Expression::Variable(name) => context.get_variable(name.clone()),
        Expression::Sum(terms) => {
            let ghost views = expressions_view(terms@);
            let mut summing: i64 = 0;
            let mut i: usize = 0;
            proof {
                assert(def@ == ExpressionView::Sum(views)) by {
                    assert(def@->Sum_0 =~= views);
                }
                assert(views.take(0) =~= Seq::empty());
            }
            while i < terms.len()
                invariant
                    i <= terms.len(),
                    *def == Expression::Sum(*terms),
                    def@ == ExpressionView::Sum(views),
                    views == expressions_view(terms@),
                    evaluate_sum(views.take(i as int), context@) == Some(summing),
                decreases terms.len() - i,
            {
                proof {
                    assert(views.take(i + 1).drop_last() =~= views.take(i as int));
                    assert(views.take(i + 1).last() == terms@[i as int]@);
                }
                let step = match calc(&terms[i], context) {
                    Some(c) => summing.checked_add(c),
                    None => None,
                };
                match step {
                    Some(next) => {
                        summing = next;
                    },
                    None => {
                        proof {
                            lemma_sum_fails_from_prefix(views, context@, i + 1);
                        }
                        return None;
                    },
                }
                i = i + 1;
            }
            proof {
                assert(views.take(i as int) =~= views);
            }
            Some(summing)
        },
        Expression::Product(factors) => {
            let ghost views = expressions_view(factors@);
            let mut mul: i64 = 1;
            let mut i: usize = 0;
            proof {
                assert(def@ == ExpressionView::Product(views)) by {
                    assert(def@->Product_0 =~= views);
                }
                assert(views.take(0) =~= Seq::empty());
            }
            while i < factors.len()
                invariant
                    i <= factors.len(),
                    *def == Expression::Product(*factors),
                    def@ == ExpressionView::Product(views),
                    views == expressions_view(factors@),
                    evaluate_product(views.take(i as int), context@) == Some(mul),
                decreases factors.len() - i,
            {
                proof {
                    assert(views.take(i + 1).drop_last() =~= views.take(i as int));
                    assert(views.take(i + 1).last() == factors@[i as int]@);
                }
                let step = match calc(&factors[i], context) {
                    Some(c) => mul.checked_mul(c),
                    None => None,
                };
                match step {
                    Some(next) => {
                        mul = next;
                    },
                    None => {
                        proof {
                            lemma_product_fails_from_prefix(views, context@, i + 1);
                        }
                        return None;
                    },
                }
                i = i + 1;
            }
            proof {
                assert(views.take(i as int) =~= views);
            }
            Some(mul)
        },
        Expression::IntegerDivide(input, by) => match calc(input, context) {
            Some(inp) => match calc(by, context) {
                Some(ope) => checked_divide(inp, ope),
                None => None,
            },
            None => None,
        },
        Expression::RoundUpToMultiple(input, of) => match calc(input, context) {
            Some(inp) => match calc(of, context) {
                Some(ope) => checked_round_up(inp, ope),
                None => None,
            },
            None => None,
        },
    }
}

} // verus!
