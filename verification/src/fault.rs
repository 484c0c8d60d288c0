//! The two error kinds of the interpreter: parse faults and evaluation
//! faults, each with a mathematical model and a rendered message.

use vstd::prelude::*;
use vstd::string::StringExecFns;
use crate::exp::ExpModel;

verus! {

/// Why parsing failed.
#[derive(Clone, Copy, PartialEq, Eq, Structural, Debug)]
pub enum ParseFault {
    /// The token sequence was empty where an expression was expected.
    MissingExpression,
    /// A lone `)` stood where an expression was expected.
    UnexpectedClose,
    /// A `(` was opened but the tokens ran out before the matching `)`.
    UnterminatedList,
}

/// Why evaluation failed.
#[derive(Debug)]
pub enum EvalFault {
    /// The evaluation depth budget was exhausted; stands for resource
    /// exhaustion on runaway recursion.
    OutOfSteps,
    /// A symbol was bound in no frame of the environment chain.
    UnboundSymbol(String),
    /// A closure or built-in was evaluated directly rather than called.
    NotSelfEvaluating,
    /// An empty list was evaluated: there is nothing to call.
    EmptyCall,
    /// The head of a call evaluated to something that is not callable.
    NotCallable,
    /// `def` came without a name.
    DefMissingName,
    /// The first form after `def` was not a symbol.
    DefNameNotSymbol,
    /// `def` came without a value to bind.
    DefMissingValue,
    /// `def` came with more than two forms.
    DefExtraForms,
    /// `if` came without a condition.
    MissingCondition,
    /// The `if` condition did not evaluate to a boolean.
    NonBoolCondition,
    /// The selected `if` branch was absent; in particular a false
    /// condition with no else branch is a fault, not a no-op.
    MissingBranch,
    /// `fn` came without a parameter list.
    FnMissingParams,
    /// `fn` came without a body.
    FnMissingBody,
    /// `fn` came with more than two forms.
    FnExtraForms,
    /// A closure's parameter expression was not a list at call time.
    BadParamList,
    /// A closure's parameter list held something that is not a symbol.
    BadParamSymbol,
    /// A closure was called with the wrong number of arguments.
    ArityMismatch { want: usize, got: usize },
    /// A built-in received an argument that did not evaluate to a number.
    NotANumber,
    /// `-` or a comparison was called with no arguments.
    MissingArgument,
    /// An arithmetic result fell outside the 64-bit signed range.
    Overflow,
}

/// The mathematical model of an [`EvalFault`].
pub enum FaultModel {
    OutOfSteps,
    UnboundSymbol(Seq<char>),
    NotSelfEvaluating,
    EmptyCall,
    NotCallable,
    DefMissingName,
    DefNameNotSymbol,
    DefMissingValue,
    DefExtraForms,
    MissingCondition,
    NonBoolCondition,
    MissingBranch,
    FnMissingParams,
    FnMissingBody,
    FnExtraForms,
    BadParamList,
    BadParamSymbol,
    ArityMismatch { want: int, got: int },
    NotANumber,
    MissingArgument,
    Overflow,
}

impl EvalFault {
    /// The model that this fault denotes.
    pub open spec fn model(self) -> FaultModel {
        match self {
            EvalFault::OutOfSteps => FaultModel::OutOfSteps,
            EvalFault::UnboundSymbol(s) => FaultModel::UnboundSymbol(s@),
            EvalFault::NotSelfEvaluating => FaultModel::NotSelfEvaluating,
            EvalFault::EmptyCall => FaultModel::EmptyCall,
            EvalFault::NotCallable => FaultModel::NotCallable,
            EvalFault::DefMissingName => FaultModel::DefMissingName,
            EvalFault::DefNameNotSymbol => FaultModel::DefNameNotSymbol,
            EvalFault::DefMissingValue => FaultModel::DefMissingValue,
            EvalFault::DefExtraForms => FaultModel::DefExtraForms,
            EvalFault::MissingCondition => FaultModel::MissingCondition,
            EvalFault::NonBoolCondition => FaultModel::NonBoolCondition,
            EvalFault::MissingBranch => FaultModel::MissingBranch,
            EvalFault::FnMissingParams => FaultModel::FnMissingParams,
            EvalFault::FnMissingBody => FaultModel::FnMissingBody,
            EvalFault::FnExtraForms => FaultModel::FnExtraForms,
            EvalFault::BadParamList => FaultModel::BadParamList,
            EvalFault::BadParamSymbol => FaultModel::BadParamSymbol,
            EvalFault::ArityMismatch { want, got } => FaultModel::ArityMismatch {
                want: want as int,
                got: got as int,
            },
            EvalFault::NotANumber => FaultModel::NotANumber,
            EvalFault::MissingArgument => FaultModel::MissingArgument,
            EvalFault::Overflow => FaultModel::Overflow,
        }
    }
}

/// An error of the whole pipeline: either kind, parse or eval.
#[derive(Debug)]
pub enum Error {
    Parse(ParseFault),
    Eval(EvalFault),
}

/// The mathematical model of an [`Error`].
pub enum ErrorModel {
    Parse(ParseFault),
    Eval(FaultModel),
}

impl Error {
    /// The model that this error denotes.
    pub open spec fn model(self) -> ErrorModel {
        match self {
            Error::Parse(p) => ErrorModel::Parse(p),
            Error::Eval(f) => ErrorModel::Eval(f.model()),
        }
    }
}

/// The model of an evaluation result: value or fault.
pub open spec fn result_model(r: Result<crate::exp::Expression, EvalFault>) -> Result<
    ExpModel,
    FaultModel,
> {
    match r {
        Ok(e) => Ok(e.model()),
        Err(f) => Err(f.model()),
    }
}

/// The descriptive message of a parse fault.
pub open spec fn parse_message(p: ParseFault) -> Seq<char> {
    match p {
        ParseFault::MissingExpression => "expected an expression"@,
        ParseFault::UnexpectedClose => "unexpected ')'"@,
        ParseFault::UnterminatedList => "missing ')'"@,
    }
}

/// The descriptive message of an evaluation fault.
pub open spec fn fault_message(f: FaultModel) -> Seq<char> {
    match f {
        FaultModel::OutOfSteps => "evaluation depth limit reached"@,
        FaultModel::UnboundSymbol(s) => "unexpected symbol '"@ + s + "'"@,
        FaultModel::NotSelfEvaluating => "unexpected form"@,
        FaultModel::EmptyCall => "want non-empty list"@,
        FaultModel::NotCallable => "first form must be a function"@,
        FaultModel::DefMissingName => "want first form"@,
        FaultModel::DefNameNotSymbol => "want first form to be a symbol"@,
        FaultModel::DefMissingValue => "want second form"@,
        FaultModel::DefExtraForms => "def only takes two forms"@,
        FaultModel::MissingCondition => "want conditional"@,
        FaultModel::NonBoolCondition => "unexpected condition"@,
        FaultModel::MissingBranch => "want branch"@,
        FaultModel::FnMissingParams => "want args"@,
        FaultModel::FnMissingBody => "want body"@,
        FaultModel::FnExtraForms => "lambda only takes two forms"@,
        FaultModel::BadParamList => "want args to be a list"@,
        FaultModel::BadParamSymbol => "want symbols in args"@,
        FaultModel::ArityMismatch { .. } => "wrong number of arguments"@,
        FaultModel::NotANumber => "want a number"@,
        FaultModel::MissingArgument => "want at least one number"@,
        FaultModel::Overflow => "number out of range"@,
    }
}

impl ParseFault {
    /// The message this fault carries.
    pub fn message(&self) -> (r: String)
        ensures
            r@ == parse_message(*self),
    {
        match self {
            ParseFault::MissingExpression => String::from_str("expected an expression"),
            ParseFault::UnexpectedClose => String::from_str("unexpected ')'"),
            ParseFault::UnterminatedList => String::from_str("missing ')'"),
        }
    }
}

impl EvalFault {
    /// The message this fault carries.
    pub fn message(&self) -> (r: String)
        ensures
            r@ == fault_message(self.model()),
    {
        match self {
            EvalFault::OutOfSteps => String::from_str("evaluation depth limit reached"),
            EvalFault::UnboundSymbol(s) => {
                let mut out = String::from_str("unexpected symbol '");
                out.append(s.as_str());
                out.append("'");
                out
            },
            EvalFault::NotSelfEvaluating => String::from_str("unexpected form"),
            EvalFault::EmptyCall => String::from_str("want non-empty list"),
            EvalFault::NotCallable => String::from_str("first form must be a function"),
            EvalFault::DefMissingName => String::from_str("want first form"),
            EvalFault::DefNameNotSymbol => String::from_str("want first form to be a symbol"),
            EvalFault::DefMissingValue => String::from_str("want second form"),
            EvalFault::DefExtraForms => String::from_str("def only takes two forms"),
            EvalFault::MissingCondition => String::from_str("want conditional"),
            EvalFault::NonBoolCondition => String::from_str("unexpected condition"),
            EvalFault::MissingBranch => String::from_str("want branch"),
            EvalFault::FnMissingParams => String::from_str("want args"),
            EvalFault::FnMissingBody => String::from_str("want body"),
            EvalFault::FnExtraForms => String::from_str("lambda only takes two forms"),
            EvalFault::BadParamList => String::from_str("want args to be a list"),
            EvalFault::BadParamSymbol => String::from_str("want symbols in args"),
            EvalFault::ArityMismatch { .. } => String::from_str("wrong number of arguments"),
            EvalFault::NotANumber => String::from_str("want a number"),
            EvalFault::MissingArgument => String::from_str("want at least one number"),
            EvalFault::Overflow => String::from_str("number out of range"),
        }
    }
}

impl Error {
    /// The message this error carries, whichever kind it is.
    pub fn message(&self) -> (r: String)
        ensures
            r@ == (match self.model() {
                ErrorModel::Parse(p) => parse_message(p),
                ErrorModel::Eval(f) => fault_message(f),
            }),
    {
        match self {
            Error::Parse(p) => p.message(),
            Error::Eval(f) => f.message(),
        }
    }
}


} // verus!
