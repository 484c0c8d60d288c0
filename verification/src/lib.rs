//! A small interpreter for a Lisp-like expression language.
//!
//! Text is tokenized into parenthesis and atom tokens, parsed by recursive
//! descent into an [`exp::Expression`] tree, and evaluated against a chain
//! of scopes ([`env::Environment`]) that supports shadowing and lexical
//! lookup.  The evaluator handles the special forms `def`, `if` and `fn`,
//! applies user closures by chaining one fresh frame to the caller's
//! environment, and dispatches the numeric built-ins `+`, `-`, `=`, `>`,
//! `>=`, `<` and `<=`.
//!
//! Every component is specified against a mathematical model: expressions
//! as [`exp::ExpModel`], environments as a sequence of maps, and the
//! evaluator itself as a step-bounded spec-level interpreter.  The
//! executable code is proved to agree with the model exactly, including
//! which error each ill-formed input produces.

use vstd::prelude::*;

pub mod env;
pub mod eval;
pub mod exp;
pub mod num;
pub mod parse;
pub mod render;
pub mod token;
pub mod fault;
pub mod laws;
mod text;

verus! {

/// The recursion depth budget one line of input gets; exhausting it is
/// the resource-exhaustion outcome of runaway recursion.
pub const EVAL_DEPTH_LIMIT: u64 = 500;

/// What one line of input does to an environment: tokenize, parse the
/// first expression (leftover tokens are ignored), evaluate it.  The
/// pair carries the environment as the evaluation leaves it and the
/// value or error.
pub open spec fn evaluate_text_model(
    text: Seq<char>,
    env: Seq<Map<Seq<char>, exp::ExpModel>>,
) -> (Seq<Map<Seq<char>, exp::ExpModel>>, Result<exp::ExpModel, fault::ErrorModel>) {
    match parse::parse_model(token::tokens_model(text)) {
        Ok((e, _leftover)) => {
            let stepped = eval::eval_model(EVAL_DEPTH_LIMIT as nat, e, env);
            match stepped.1 {
                Ok(v) => (stepped.0, Ok(v)),
                Err(f) => (stepped.0, Err(fault::ErrorModel::Eval(f))),
            }
        },
        Err(pf) => (env, Err(fault::ErrorModel::Parse(pf))),
    }
}

/// The whole pipeline on one line of text: tokenize, parse, evaluate
/// against the given environment.  Returns the resulting expression, or
/// the parse or evaluation error; a `def` mutates the environment's
/// innermost frame exactly as [`evaluate_text_model`] states.
pub fn evaluate_text(text: String, env: &mut env::Environment) -> (r: Result<
    exp::Expression,
    fault::Error,
>)
    ensures
        ({
            let stepped = evaluate_text_model(text@, old(env).model());
            final(env).model() == stepped.0 && (match r {
                Ok(v) => stepped.1 == Ok::<_, fault::ErrorModel>(v.model()),
                Err(er) => stepped.1 == Err::<exp::ExpModel, _>(er.model()),
            })
        }),
{
    let tokens = token::tokenise(text);
    proof {
        assert(token::token_views(tokens@).skip(0) =~= token::token_views(tokens@));
    }
    match parse::parse(&tokens, 0) {
        Ok((e, _rest)) => match eval::eval(&e, env, EVAL_DEPTH_LIMIT) {
            Ok(v) => Ok(v),
            Err(f) => Err(fault::Error::Eval(f)),
        },
        Err(pf) => Err(fault::Error::Parse(pf)),
    }
}

} // verus!
