//! End-to-end scenarios: whole lines of text through tokenize, parse and
//! evaluate against the default environment.

use tack::env::{default_environment, Environment};
use tack::eval::eval;
use tack::evaluate_text;
use tack::exp::BuiltinOp;
use tack::exp::Expression;
use tack::fault::{Error, EvalFault, ParseFault};
use tack::render::render;

fn ev(env: &mut Environment, text: &str) -> Result<Expression, Error> {
    evaluate_text(String::from(text), env)
}

fn ev_shown(env: &mut Environment, text: &str) -> String {
    render(&ev(env, text).expect("evaluation failed"))
}

#[test]
fn sum_of_four() {
    let mut env = default_environment();
    match ev(&mut env, "(+ 1 2 3 4)") {
        Ok(Expression::Num(n)) => assert_eq!(n, 10),
        other => panic!("want Num(10), got {:?}", other.map(|e| render(&e))),
    }
}

#[test]
fn empty_sum_is_zero() {
    let mut env = default_environment();
    assert_eq!(ev_shown(&mut env, "(+)"), "0");
}

#[test]
fn subtraction_takes_rest_from_first() {
    let mut env = default_environment();
    match ev(&mut env, "(- 10 1 2)") {
        Ok(Expression::Num(n)) => assert_eq!(n, 7),
        other => panic!("want Num(7), got {:?}", other.map(|e| render(&e))),
    }
}

#[test]
fn comparison_chains() {
    let mut env = default_environment();
    assert_eq!(ev_shown(&mut env, "(< 1 2 3)"), "true");
    assert_eq!(ev_shown(&mut env, "(< 1 3 2)"), "false");
    assert_eq!(ev_shown(&mut env, "(< 5)"), "true");
    assert_eq!(ev_shown(&mut env, "(= 2 2 2)"), "true");
    assert_eq!(ev_shown(&mut env, "(> 3 2 1)"), "true");
    assert_eq!(ev_shown(&mut env, "(>= 3 3 1)"), "true");
    assert_eq!(ev_shown(&mut env, "(<= 1 1 4)"), "true");
}

#[test]
fn def_binds_and_returns_symbol() {
    let mut env = default_environment();
    match ev(&mut env, "(def x 5)") {
        Ok(Expression::Sym(s)) => assert_eq!(s, "x"),
        other => panic!("want Sym(x), got {:?}", other.map(|e| render(&e))),
    }
    assert_eq!(ev_shown(&mut env, "(+ x 1)"), "6");
}

#[test]
fn unbound_symbol_in_fresh_environment() {
    let mut env = default_environment();
    match ev(&mut env, "x") {
        Err(Error::Eval(EvalFault::UnboundSymbol(s))) => assert_eq!(s, "x"),
        other => panic!("want unbound symbol, got {:?}", other.map(|e| render(&e))),
    }
}

#[test]
fn closure_application() {
    let mut env = default_environment();
    assert_eq!(ev_shown(&mut env, "((fn (a b) (+ a b)) 3 4)"), "7");
}

#[test]
fn closure_arity_mismatch() {
    let mut env = default_environment();
    match ev(&mut env, "((fn (a b) (+ a b)) 3)") {
        Err(Error::Eval(EvalFault::ArityMismatch { want, got })) => {
            assert_eq!(want, 2);
            assert_eq!(got, 1);
        },
        other => panic!("want arity mismatch, got {:?}", other.map(|e| render(&e))),
    }
}

#[test]
fn if_takes_true_branch() {
    let mut env = default_environment();
    assert_eq!(ev_shown(&mut env, "(if (> 3 2) 1 0)"), "1");
    assert_eq!(ev_shown(&mut env, "(if (> 2 3) 1 0)"), "0");
}

#[test]
fn if_without_else_on_false_condition_fails() {
    let mut env = default_environment();
    match ev(&mut env, "(if (> 2 3) 1)") {
        Err(Error::Eval(EvalFault::MissingBranch)) => {},
        other => panic!("want missing branch, got {:?}", other.map(|e| render(&e))),
    }
}

#[test]
fn literal_evaluation_is_idempotent() {
    let mut env = default_environment();
    assert_eq!(ev_shown(&mut env, "42"), "42");
    assert_eq!(ev_shown(&mut env, "42"), "42");
    assert_eq!(ev_shown(&mut env, "true"), "true");
    assert_eq!(ev_shown(&mut env, "true"), "true");
    // and no binding appeared as a side effect
    assert!(matches!(ev(&mut env, "y"), Err(Error::Eval(EvalFault::UnboundSymbol(_)))));
}

#[test]
fn leftover_tokens_are_ignored() {
    let mut env = default_environment();
    assert_eq!(ev_shown(&mut env, "1 2 3"), "1");
}

#[test]
fn call_frame_is_discarded_after_the_call() {
    let mut env = default_environment();
    ev(&mut env, "(def x 1)").unwrap();
    assert_eq!(ev_shown(&mut env, "((fn (x) x) 9)"), "9");
    assert_eq!(ev_shown(&mut env, "x"), "1");
}

#[test]
fn closure_resolves_free_variables_at_call_time() {
    let mut env = default_environment();
    ev(&mut env, "(def f (fn () y))").unwrap();
    ev(&mut env, "(def y 7)").unwrap();
    assert_eq!(ev_shown(&mut env, "(f)"), "7");
}

#[test]
fn def_inside_argument_mutates_callers_frame() {
    let mut env = default_environment();
    // the argument is evaluated in the caller's environment, so the
    // binding it makes is visible from the closure body and afterwards
    assert_eq!(ev_shown(&mut env, "((fn (q) a) (def a 5))"), "5");
    assert_eq!(ev_shown(&mut env, "a"), "5");
}

#[test]
fn failed_def_leaves_no_binding() {
    let mut env = default_environment();
    assert!(matches!(ev(&mut env, "(def b (+ 1 true))"), Err(Error::Eval(_))));
    assert!(matches!(ev(&mut env, "b"), Err(Error::Eval(EvalFault::UnboundSymbol(_)))));
}

#[test]
fn empty_input_is_a_parse_error() {
    let mut env = default_environment();
    assert!(matches!(ev(&mut env, ""), Err(Error::Parse(ParseFault::MissingExpression))));
    assert!(matches!(ev(&mut env, "   "), Err(Error::Parse(ParseFault::MissingExpression))));
}

#[test]
fn lone_close_is_a_parse_error() {
    let mut env = default_environment();
    assert!(matches!(ev(&mut env, ")"), Err(Error::Parse(ParseFault::UnexpectedClose))));
}

#[test]
fn unterminated_list_is_a_parse_error() {
    let mut env = default_environment();
    assert!(matches!(ev(&mut env, "(+ 1"), Err(Error::Parse(ParseFault::UnterminatedList))));
}

#[test]
fn empty_call_fails() {
    let mut env = default_environment();
    assert!(matches!(ev(&mut env, "()"), Err(Error::Eval(EvalFault::EmptyCall))));
}

#[test]
fn non_callable_head_fails() {
    let mut env = default_environment();
    assert!(matches!(ev(&mut env, "(1 2)"), Err(Error::Eval(EvalFault::NotCallable))));
}

#[test]
fn non_numeric_argument_fails() {
    let mut env = default_environment();
    assert!(matches!(ev(&mut env, "(+ 1 true)"), Err(Error::Eval(EvalFault::NotANumber))));
}

#[test]
fn subtraction_needs_an_argument() {
    let mut env = default_environment();
    assert!(matches!(ev(&mut env, "(-)"), Err(Error::Eval(EvalFault::MissingArgument))));
    assert!(matches!(ev(&mut env, "(<)"), Err(Error::Eval(EvalFault::MissingArgument))));
}

#[test]
fn special_form_shape_faults() {
    let mut env = default_environment();
    assert!(matches!(ev(&mut env, "(def)"), Err(Error::Eval(EvalFault::DefMissingName))));
    assert!(matches!(ev(&mut env, "(def 5 5)"), Err(Error::Eval(EvalFault::DefNameNotSymbol))));
    assert!(matches!(ev(&mut env, "(def x)"), Err(Error::Eval(EvalFault::DefMissingValue))));
    assert!(matches!(ev(&mut env, "(def x 1 2)"), Err(Error::Eval(EvalFault::DefExtraForms))));
    assert!(matches!(ev(&mut env, "(if)"), Err(Error::Eval(EvalFault::MissingCondition))));
    assert!(matches!(ev(&mut env, "(if 1 2)"), Err(Error::Eval(EvalFault::NonBoolCondition))));
    assert!(matches!(ev(&mut env, "(if true)"), Err(Error::Eval(EvalFault::MissingBranch))));
    assert!(matches!(ev(&mut env, "(fn)"), Err(Error::Eval(EvalFault::FnMissingParams))));
    assert!(matches!(ev(&mut env, "(fn (a))"), Err(Error::Eval(EvalFault::FnMissingBody))));
    assert!(matches!(ev(&mut env, "(fn (a) a a)"), Err(Error::Eval(EvalFault::FnExtraForms))));
}

#[test]
fn malformed_parameter_lists_fail_at_call_time() {
    let mut env = default_environment();
    assert!(matches!(ev(&mut env, "((fn x 1) 2)"), Err(Error::Eval(EvalFault::BadParamList))));
    assert!(matches!(ev(&mut env, "((fn (1) 1) 2)"), Err(Error::Eval(EvalFault::BadParamSymbol))));
}

#[test]
fn arithmetic_overflow_is_a_fault() {
    let mut env = default_environment();
    assert!(matches!(
        ev(&mut env, "(+ 9223372036854775807 1)"),
        Err(Error::Eval(EvalFault::Overflow))
    ));
    assert!(matches!(
        ev(&mut env, "(- -9223372036854775808 1)"),
        Err(Error::Eval(EvalFault::Overflow))
    ));
}

#[test]
fn runaway_recursion_exhausts_the_depth_budget() {
    let mut env = default_environment();
    ev(&mut env, "(def loopy (fn (x) (loopy x)))").unwrap();
    assert!(matches!(ev(&mut env, "(loopy 1)"), Err(Error::Eval(EvalFault::OutOfSteps))));
}

#[test]
fn callables_are_not_self_evaluating() {
    let mut env = default_environment();
    let direct = eval(&Expression::Builtin(BuiltinOp::Add), &mut env, 10);
    assert!(matches!(direct, Err(EvalFault::NotSelfEvaluating)));
}

#[test]
fn signed_number_atoms() {
    let mut env = default_environment();
    assert_eq!(ev_shown(&mut env, "(+ +5 -3)"), "2");
    assert_eq!(ev_shown(&mut env, "-9223372036854775808"), "-9223372036854775808");
    assert_eq!(ev_shown(&mut env, "9223372036854775807"), "9223372036854775807");
}

#[test]
fn error_messages_are_descriptive() {
    let mut env = default_environment();
    match ev(&mut env, "nope") {
        Err(e) => assert_eq!(e.message(), "unexpected symbol 'nope'"),
        other => panic!("want an error, got {:?}", other.map(|e| render(&e))),
    }
    match ev(&mut env, "(+ 1") {
        Err(e) => assert_eq!(e.message(), "missing ')'"),
        other => panic!("want an error, got {:?}", other.map(|e| render(&e))),
    }
    match ev(&mut env, "(+ 1 true)") {
        Err(e) => assert_eq!(e.message(), "want a number"),
        other => panic!("want an error, got {:?}", other.map(|e| render(&e))),
    }
}
