//! Component-level checks: the tokenizer, the atom classifier, the
//! parser and the renderer, each on its own.

use tack::env::default_environment;
use tack::evaluate_text;
use tack::exp::Expression;
use tack::parse::{parse, parse_atom};
use tack::render::{render, to_source};
use tack::token::tokenise;

#[test]
fn tokenise_pads_parens() {
    let toks = tokenise(String::from("(+ 1 2)"));
    let want: Vec<String> = ["(", "+", "1", "2", ")"].iter().map(|s| s.to_string()).collect();
    assert_eq!(toks, want);
}

#[test]
fn tokenise_collapses_whitespace() {
    let toks = tokenise(String::from("  hi \t there \n"));
    let want: Vec<String> = ["hi", "there"].iter().map(|s| s.to_string()).collect();
    assert_eq!(toks, want);
    assert!(tokenise(String::from("   ")).is_empty());
    assert!(tokenise(String::from("")).is_empty());
}

#[test]
fn tokenise_needs_no_spaces_around_parens() {
    let toks = tokenise(String::from("((a)(b))"));
    let want: Vec<String> =
        ["(", "(", "a", ")", "(", "b", ")", ")"].iter().map(|s| s.to_string()).collect();
    assert_eq!(toks, want);
}

#[test]
fn parse_sum_list() {
    let toks = tokenise(String::from("(+ 1 2 3 4)"));
    let (e, after) = parse(&toks, 0).expect("parse failed");
    assert_eq!(after, toks.len(), "tokens must be consumed entirely");
    match e {
        Expression::List(items) => {
            assert_eq!(items.len(), 5);
            assert!(matches!(&items[0], Expression::Sym(s) if s == "+"));
            for (k, item) in items[1..].iter().enumerate() {
                assert!(matches!(item, Expression::Num(n) if *n == k as i64 + 1));
            }
        },
        other => panic!("want a list, got {}", render(&other)),
    }
}

#[test]
fn atom_classification_priority() {
    assert!(matches!(parse_atom(&String::from("true")), Expression::Bool(true)));
    assert!(matches!(parse_atom(&String::from("false")), Expression::Bool(false)));
    assert!(matches!(parse_atom(&String::from("17")), Expression::Num(17)));
    assert!(matches!(parse_atom(&String::from("-4")), Expression::Num(-4)));
    assert!(matches!(parse_atom(&String::from("truth")), Expression::Sym(_)));
    assert!(matches!(parse_atom(&String::from("-")), Expression::Sym(_)));
    assert!(matches!(parse_atom(&String::from("+")), Expression::Sym(_)));
    assert!(matches!(parse_atom(&String::from("1.5")), Expression::Sym(_)));
    // too large for 64 bits: falls back to a symbol
    assert!(matches!(parse_atom(&String::from("99999999999999999999")), Expression::Sym(_)));
}

#[test]
fn render_joins_lists_with_commas() {
    let toks = tokenise(String::from("(+ 1 (- 2) true x)"));
    let (e, _) = parse(&toks, 0).expect("parse failed");
    assert_eq!(render(&e), "(+,1,(-,2),true,x)");
}

#[test]
fn render_shows_callables_as_opaque_labels() {
    let mut env = default_environment();
    let f = evaluate_text(String::from("(fn (a) a)"), &mut env).unwrap();
    assert_eq!(render(&f), "Lambda {}");
    let plus = evaluate_text(String::from("+"), &mut env).unwrap();
    assert_eq!(render(&plus), "Function {}");
}

#[test]
fn source_round_trip_on_a_pure_expression() {
    let toks = tokenise(String::from("(foo -3 true (1 ()) bar)"));
    let (e, _) = parse(&toks, 0).expect("parse failed");
    let text = to_source(&e);
    assert_eq!(text, "(foo -3 true (1 ()) bar)");
    let again = tokenise(text);
    let (e2, after) = parse(&again, 0).expect("reparse failed");
    assert_eq!(after, again.len());
    assert_eq!(render(&e), render(&e2));
}

#[test]
fn negative_number_rendering() {
    let toks = tokenise(String::from("(-5 10 0)"));
    let (e, _) = parse(&toks, 0).expect("parse failed");
    assert_eq!(render(&e), "(-5,10,0)");
}
