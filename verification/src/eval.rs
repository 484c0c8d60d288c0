//! The evaluator: a single recursive eval/apply walk.  Literals evaluate
//! to themselves, symbols by lookup, lists as special forms (`def`, `if`,
//! `fn`) or as calls of closures and built-ins.  The complete semantics
//! is the spec-level interpreter [`eval_model`], bounded by a recursion
//! depth budget; the executable evaluator is proved to agree with it on
//! the value or fault returned and on every binding the environment
//! gains.

use vstd::prelude::*;
use crate::env::{
    bind_model, define, define_model, environment_get, lookup_model, names_of, pop_frame,
    push_call_frame, Environment,
};
use crate::exp::{clone_exp, lemma_list_model, models_of, BuiltinOp, ExpModel, Expression};
use crate::fault::{result_model, EvalFault, FaultModel};
use crate::text::str_eq;

verus! {

/// The chain of scopes an evaluation runs against: one map per frame,
/// innermost last.
pub type EnvModel = Seq<Map<Seq<char>, ExpModel>>;

/// Every value is a number.
pub open spec fn all_numbers(vals: Seq<ExpModel>) -> bool {
    forall|i: int| 0 <= i < vals.len() ==> (#[trigger] vals[i]) is Num
}

/// The integer carried by each value; 0 where it is not a number.
pub open spec fn numbers_of(vals: Seq<ExpModel>) -> Seq<int> {
    Seq::new(vals.len(), |i: int| if 0 <= i < vals.len() {
        vals[i]->Num_0
    } else {
        0
    })
}

/// The sum of a sequence of integers.
pub open spec fn sum_of(s: Seq<int>) -> int
    decreases s.len(),
{
    if s.len() == 0 {
        0
    } else {
        sum_of(s.drop_last()) + s.last()
    }
}

/// Left-to-right summation stays within the 64-bit signed range at every
/// intermediate step.
pub open spec fn sum_in_range(s: Seq<int>) -> bool {
    forall|i: int| 0 <= i <= s.len() ==> i64::MIN <= sum_of(#[trigger] s.take(i)) <= i64::MAX
}

/// Subtracting a sequence from a first value left to right stays within
/// the 64-bit signed range at every intermediate step.
pub open spec fn sub_in_range(first: int, rest: Seq<int>) -> bool {
    forall|i: int|
        0 <= i <= rest.len() ==> i64::MIN <= first - sum_of(#[trigger] rest.take(i)) <= i64::MAX
}

/// The pairwise test a comparison built-in applies.
pub open spec fn cmp_holds(op: BuiltinOp, a: int, b: int) -> bool {
    match op {
        BuiltinOp::CmpEq => a == b,
        BuiltinOp::CmpGt => a > b,
        BuiltinOp::CmpGe => a >= b,
        BuiltinOp::CmpLt => a < b,
        BuiltinOp::CmpLe => a <= b,
        _ => false,
    }
}

/// A monotonic chain: every adjacent pair satisfies the comparison; a
/// single value holds trivially.
pub open spec fn chain_holds(op: BuiltinOp, s: Seq<int>) -> bool {
    forall|i: int| 0 <= i < s.len() - 1 ==> cmp_holds(op, #[trigger] s[i], s[i + 1])
}

/// What a built-in returns on already-evaluated arguments: a fault if any
/// argument is not a number, then `+` sums (the empty sum is 0), `-`
/// subtracts the sum of the rest from the first, and a comparison tests
/// its monotonic chain; `-` and the comparisons need an argument, and
/// arithmetic leaving the 64-bit range is a fault.
pub open spec fn apply_builtin_model(op: BuiltinOp, vals: Seq<ExpModel>) -> Result<
    ExpModel,
    FaultModel,
> {
    if !all_numbers(vals) {
        Err(FaultModel::NotANumber)
    } else {
        let nums = numbers_of(vals);
        match op {
            BuiltinOp::Add => if sum_in_range(nums) {
                Ok(ExpModel::Num(sum_of(nums)))
            } else {
                Err(FaultModel::Overflow)
            },
            BuiltinOp::Sub => if nums.len() == 0 {
                Err(FaultModel::MissingArgument)
            } else if sub_in_range(nums[0], nums.drop_first()) {
                Ok(ExpModel::Num(nums[0] - sum_of(nums.drop_first())))
            } else {
                Err(FaultModel::Overflow)
            },
            _ => if nums.len() == 0 {
                Err(FaultModel::MissingArgument)
            } else {
                Ok(ExpModel::Bool(chain_holds(op, nums)))
            },
        }
    }
}

/// The parameter names of a closure's parameter expression, which must be
/// a list of symbols.
pub open spec fn params_model(p: ExpModel) -> Result<Seq<Seq<char>>, FaultModel> {
    match p {
        ExpModel::List(es) => if forall|i: int| 0 <= i < es.len() ==> (#[trigger] es[i]) is Sym {
            Ok(
                Seq::new(
                    es.len(),
                    |i: int| if 0 <= i < es.len() {
                        es[i]->Sym_0
                    } else {
                        Seq::empty()
                    },
                ),
            )
        } else {
            Err(FaultModel::BadParamSymbol)
        },
        _ => Err(FaultModel::BadParamList),
    }
}

/// One evaluation step against an environment, with a recursion depth
/// budget: the complete semantics of the language.  The pair carries the
/// environment as the evaluation leaves it — including every binding a
/// `def` made before a later fault — and the value or fault.
pub open spec fn eval_model(fuel: nat, e: ExpModel, env: EnvModel) -> (
    EnvModel,
    Result<ExpModel, FaultModel>,
)
    decreases fuel, 0nat, 0nat,
{
    if fuel == 0 {
        (env, Err(FaultModel::OutOfSteps))
    } else {
        match e {
            ExpModel::Bool(_) => (env, Ok(e)),
            ExpModel::Num(_) => (env, Ok(e)),
            ExpModel::Sym(s) => match lookup_model(env, s) {
                Some(v) => (env, Ok(v)),
                None => (env, Err(FaultModel::UnboundSymbol(s))),
            },
            ExpModel::Closure { .. } => (env, Err(FaultModel::NotSelfEvaluating)),
            ExpModel::Builtin(_) => (env, Err(FaultModel::NotSelfEvaluating)),
            ExpModel::List(items) => if items.len() == 0 {
                (env, Err(FaultModel::EmptyCall))
            } else {
                let head = items[0];
                let args = items.drop_first();
                if head == ExpModel::Sym("def"@) {
                    eval_def_model((fuel - 1) as nat, args, env)
                } else if head == ExpModel::Sym("if"@) {
                    eval_if_model((fuel - 1) as nat, args, env)
                } else if head == ExpModel::Sym("fn"@) {
                    (env, eval_lambda_model(args))
                } else {
                    let stepped = eval_model((fuel - 1) as nat, head, env);
                    match stepped.1 {
                        Ok(h) => match h {
                            ExpModel::Closure { params, body } => apply_model(
                                (fuel - 1) as nat,
                                *params,
                                *body,
                                args,
                                stepped.0,
                            ),
                            ExpModel::Builtin(op) => call_builtin_model(
                                (fuel - 1) as nat,
                                op,
                                args,
                                stepped.0,
                            ),
                            _ => (stepped.0, Err(FaultModel::NotCallable)),
                        },
                        Err(f) => (stepped.0, Err(f)),
                    }
                }
            },
        }
    }
}

/// `def`: exactly a symbol and a value; evaluates the value, binds it in
/// the innermost frame, and returns the unevaluated symbol.  Binding
/// happens only after the value fully evaluates.
pub open spec fn eval_def_model(fuel: nat, args: Seq<ExpModel>, env: EnvModel) -> (
    EnvModel,
    Result<ExpModel, FaultModel>,
)
    decreases fuel, 2nat, 0nat,
{
    if args.len() == 0 {
        (env, Err(FaultModel::DefMissingName))
    } else if !(args[0] is Sym) {
        (env, Err(FaultModel::DefNameNotSymbol))
    } else if args.len() == 1 {
        (env, Err(FaultModel::DefMissingValue))
    } else if args.len() > 2 {
        (env, Err(FaultModel::DefExtraForms))
    } else {
        let stepped = eval_model(fuel, args[1], env);
        match stepped.1 {
            Ok(v) => (define_model(stepped.0, args[0]->Sym_0, v), Ok(args[0])),
            Err(f) => (stepped.0, Err(f)),
        }
    }
}

/// `if`: evaluates the condition, which must yield a boolean, then the
/// branch it selects; a false condition without an else branch is a
/// fault, not a no-op.
pub open spec fn eval_if_model(fuel: nat, args: Seq<ExpModel>, env: EnvModel) -> (
    EnvModel,
    Result<ExpModel, FaultModel>,
)
    decreases fuel, 2nat, 0nat,
{
    if args.len() == 0 {
        (env, Err(FaultModel::MissingCondition))
    } else {
        let stepped = eval_model(fuel, args[0], env);
        match stepped.1 {
            Ok(c) => match c {
                ExpModel::Bool(b) => {
                    let branch: int = if b {
                        1
                    } else {
                        2
                    };
                    if branch < args.len() {
                        eval_model(fuel, args[branch], stepped.0)
                    } else {
                        (stepped.0, Err(FaultModel::MissingBranch))
                    }
                },
                _ => (stepped.0, Err(FaultModel::NonBoolCondition)),
            },
            Err(f) => (stepped.0, Err(f)),
        }
    }
}

/// `fn`: wraps exactly a parameter list and a body, both unevaluated and
/// not yet validated; validation happens at call time.
pub open spec fn eval_lambda_model(args: Seq<ExpModel>) -> Result<ExpModel, FaultModel> {
    if args.len() == 0 {
        Err(FaultModel::FnMissingParams)
    } else if args.len() == 1 {
        Err(FaultModel::FnMissingBody)
    } else if args.len() > 2 {
        Err(FaultModel::FnExtraForms)
    } else {
        Ok(ExpModel::Closure { params: Box::new(args[0]), body: Box::new(args[1]) })
    }
}

/// Evaluates argument expressions left to right in the caller's
/// environment, which each argument may mutate through `def`.
pub open spec fn eval_args_model(fuel: nat, args: Seq<ExpModel>, env: EnvModel) -> (
    EnvModel,
    Result<Seq<ExpModel>, FaultModel>,
)
    decreases fuel, 1nat, args.len(),
{
    if args.len() == 0 {
        (env, Ok(Seq::empty()))
    } else {
        let stepped = eval_model(fuel, args[0], env);
        match stepped.1 {
            Ok(v0) => {
                let more = eval_args_model(fuel, args.drop_first(), stepped.0);
                match more.1 {
                    Ok(vs) => (more.0, Ok(seq![v0] + vs)),
                    Err(f) => (more.0, Err(f)),
                }
            },
            Err(f) => (stepped.0, Err(f)),
        }
    }
}

/// A closure call: validates the parameter list, checks the arity
/// exactly, evaluates the arguments in the caller's environment, runs the
/// body in one fresh frame chained to the caller's live chain, and
/// discards that frame when the call returns.
pub open spec fn apply_model(
    fuel: nat,
    params: ExpModel,
    body: ExpModel,
    args: Seq<ExpModel>,
    env: EnvModel,
) -> (EnvModel, Result<ExpModel, FaultModel>)
    decreases fuel, 2nat, 0nat,
{
    match params_model(params) {
        Ok(names) => if names.len() != args.len() {
            (
                env,
                Err(
                    FaultModel::ArityMismatch {
                        want: names.len() as int,
                        got: args.len() as int,
                    },
                ),
            )
        } else {
            let stepped = eval_args_model(fuel, args, env);
            match stepped.1 {
                Ok(vals) => {
                    let run = eval_model(fuel, body, stepped.0.push(bind_model(names, vals)));
                    (run.0.drop_last(), run.1)
                },
                Err(f) => (stepped.0, Err(f)),
            }
        },
        Err(f) => (env, Err(f)),
    }
}

/// A built-in call: evaluates every argument left to right, then applies
/// the primitive to the values.
pub open spec fn call_builtin_model(fuel: nat, op: BuiltinOp, args: Seq<ExpModel>, env: EnvModel) -> (
    EnvModel,
    Result<ExpModel, FaultModel>,
)
    decreases fuel, 2nat, 0nat,
{
    let stepped = eval_args_model(fuel, args, env);
    match stepped.1 {
        Ok(vals) => (stepped.0, apply_builtin_model(op, vals)),
        Err(f) => (stepped.0, Err(f)),
    }
}

/// Evaluation never changes how many frames the chain has: every frame a
/// call pushes is popped when the call returns, so the chain length
/// always equals the call nesting depth at construction time.
pub proof fn lemma_eval_frames(fuel: nat, e: ExpModel, env: EnvModel)
    ensures
        eval_model(fuel, e, env).0.len() == env.len(),
    decreases fuel, 0nat, 0nat,
{
    if fuel == 0 {
    } else {
        match e {
            ExpModel::List(items) => if items.len() == 0 {
            } else {
                let head = items[0];
                let args = items.drop_first();
                if head == ExpModel::Sym("def"@) {
                    lemma_def_frames((fuel - 1) as nat, args, env);
                } else if head == ExpModel::Sym("if"@) {
                    lemma_if_frames((fuel - 1) as nat, args, env);
                } else if head == ExpModel::Sym("fn"@) {
                } else {
                    lemma_eval_frames((fuel - 1) as nat, head, env);
                    let stepped = eval_model((fuel - 1) as nat, head, env);
                    match stepped.1 {
                        Ok(h) => match h {
                            ExpModel::Closure { params, body } => {
                                lemma_apply_frames(
                                    (fuel - 1) as nat,
                                    *params,
                                    *body,
                                    args,
                                    stepped.0,
                                );
                            },
                            ExpModel::Builtin(op) => {
                                lemma_call_builtin_frames((fuel - 1) as nat, op, args, stepped.0);
                            },
                            _ => {},
                        },
                        Err(_) => {},
                    }
                }
            },
            _ => {},
        }
    }
}

proof fn lemma_def_frames(fuel: nat, args: Seq<ExpModel>, env: EnvModel)
    ensures
        eval_def_model(fuel, args, env).0.len() == env.len(),
    decreases fuel, 2nat, 0nat,
{
    if args.len() >= 2 && args[0] is Sym && args.len() == 2 {
        lemma_eval_frames(fuel, args[1], env);
    }
}

proof fn lemma_if_frames(fuel: nat, args: Seq<ExpModel>, env: EnvModel)
    ensures
        eval_if_model(fuel, args, env).0.len() == env.len(),
    decreases fuel, 2nat, 0nat,
{
    if args.len() > 0 {
        lemma_eval_frames(fuel, args[0], env);
        let stepped = eval_model(fuel, args[0], env);
        match stepped.1 {
            Ok(c) => match c {
                ExpModel::Bool(b) => {
                    let branch: int = if b {
                        1
                    } else {
                        2
                    };
                    if branch < args.len() {
                        lemma_eval_frames(fuel, args[branch], stepped.0);
                    }
                },
                _ => {},
            },
            Err(_) => {},
        }
    }
}

proof fn lemma_args_frames(fuel: nat, args: Seq<ExpModel>, env: EnvModel)
    ensures
        eval_args_model(fuel, args, env).0.len() == env.len(),
    decreases fuel, 1nat, args.len(),
{
    if args.len() > 0 {
        lemma_eval_frames(fuel, args[0], env);
        let stepped = eval_model(fuel, args[0], env);
        match stepped.1 {
            Ok(_) => {
                lemma_args_frames(fuel, args.drop_first(), stepped.0);
            },
            Err(_) => {},
        }
    }
}

proof fn lemma_apply_frames(
    fuel: nat,
    params: ExpModel,
    body: ExpModel,
    args: Seq<ExpModel>,
    env: EnvModel,
)
    ensures
        apply_model(fuel, params, body, args, env).0.len() == env.len(),
    decreases fuel, 2nat, 0nat,
{
    match params_model(params) {
        Ok(names) => if names.len() == args.len() {
            lemma_args_frames(fuel, args, env);
            let stepped = eval_args_model(fuel, args, env);
            match stepped.1 {
                Ok(vals) => {
                    lemma_eval_frames(fuel, body, stepped.0.push(bind_model(names, vals)));
                },
                Err(_) => {},
            }
        } else {
        },
        Err(_) => {},
    }
}

proof fn lemma_call_builtin_frames(fuel: nat, op: BuiltinOp, args: Seq<ExpModel>, env: EnvModel)
    ensures
        call_builtin_model(fuel, op, args, env).0.len() == env.len(),
    decreases fuel, 2nat, 0nat,
{
    lemma_args_frames(fuel, args, env);
}

/// Successful argument evaluation yields exactly one value per argument.
pub proof fn lemma_args_values_len(fuel: nat, args: Seq<ExpModel>, env: EnvModel)
    ensures
        (match eval_args_model(fuel, args, env).1 {
            Ok(vs) => vs.len() == args.len(),
            Err(_) => true,
        }),
    decreases fuel, 1nat, args.len(),
{
    if args.len() > 0 {
        let stepped = eval_model(fuel, args[0], env);
        match stepped.1 {
            Ok(_) => {
                lemma_args_values_len(fuel, args.drop_first(), stepped.0);
            },
            Err(_) => {},
        }
    }
}

/// `fn` executably: builds the closure from the second and third list
/// elements, unevaluated.
pub fn eval_lambda(l: &Vec<Expression>) -> (r: Result<Expression, EvalFault>)
    requires
        l@.len() >= 1,
    ensures
        result_model(r) == eval_lambda_model(models_of(l@).drop_first()),
{
    proof {
        assert(models_of(l@).drop_first().len() == l@.len() - 1);
    }
    if l.len() < 2 {
        return Err(EvalFault::FnMissingParams);
    }
    if l.len() < 3 {
        return Err(EvalFault::FnMissingBody);
    }
    if l.len() > 3 {
        return Err(EvalFault::FnExtraForms);
    }
    proof {
        assert(models_of(l@).drop_first()[0] == models_of(l@)[1]);
        assert(models_of(l@).drop_first()[1] == models_of(l@)[2]);
    }
    Ok(
        Expression::Closure {
            params: Box::new(clone_exp(&l[1])),
            body: Box::new(clone_exp(&l[2])),
        },
    )
}

/// `def` executably: checks the shape, evaluates the value, binds it in
/// the innermost frame, and hands the symbol back.
pub fn eval_def(l: &Vec<Expression>, env: &mut Environment, fuel: u64) -> (r: Result<
    Expression,
    EvalFault,
>)
    requires
        l@.len() >= 1,
    ensures
        ({
            let stepped = eval_def_model(
                fuel as nat,
                models_of(l@).drop_first(),
                old(env).model(),
            );
            final(env).model() == stepped.0 && result_model(r) == stepped.1
        }),
    decreases fuel, 2nat, 0nat,
{
    let ghost args = models_of(l@).drop_first();
    proof {
        assert(args.len() == l@.len() - 1);
    }
    if l.len() < 2 {
        return Err(EvalFault::DefMissingName);
    }
    proof {
        assert(args[0] == models_of(l@)[1]);
    }
    let name = match &l[1] {
        Expression::Sym(s) => s,
        _ => {
            return Err(EvalFault::DefNameNotSymbol);
        },
    };
    if l.len() < 3 {
        return Err(EvalFault::DefMissingValue);
    }
    if l.len() > 3 {
        return Err(EvalFault::DefExtraForms);
    }
    proof {
        assert(args[1] == models_of(l@)[2]);
    }
    match eval(&l[2], env, fuel) {
        Ok(v) => {
            let bound = Expression::Sym(name.clone());
            define(env, name.clone(), v);
            Ok(bound)
        },
        Err(f) => Err(f),
    }
}

/// `if` executably: evaluates the condition once, then the branch the
/// boolean selects.
pub fn eval_if(l: &Vec<Expression>, env: &mut Environment, fuel: u64) -> (r: Result<
    Expression,
    EvalFault,
>)
    requires
        l@.len() >= 1,
    ensures
        ({
            let stepped = eval_if_model(fuel as nat, models_of(l@).drop_first(), old(env).model());
            final(env).model() == stepped.0 && result_model(r) == stepped.1
        }),
    decreases fuel, 2nat, 0nat,
{
    let ghost args = models_of(l@).drop_first();
    proof {
        assert(args.len() == l@.len() - 1);
    }
    if l.len() < 2 {
        return Err(EvalFault::MissingCondition);
    }
    proof {
        assert(args[0] == models_of(l@)[1]);
    }
    match eval(&l[1], env, fuel) {
        Ok(c) => match c {
            Expression::Bool(b) => {
                let branch: usize = if b {
                    2
                } else {
                    3
                };
                if branch < l.len() {
                    proof {
                        assert(args[branch - 1] == models_of(l@)[branch as int]);
                    }
                    eval(&l[branch], env, fuel)
                } else {
                    Err(EvalFault::MissingBranch)
                }
            },
            _ => Err(EvalFault::NonBoolCondition),
        },
        Err(f) => Err(f),
    }
}

/// Reads a closure's parameter expression as a list of symbol names.
#[verifier::loop_isolation(false)]
pub fn parse_args(form: &Expression) -> (r: Result<Vec<String>, EvalFault>)
    ensures
        match r {
            Ok(keys) => params_model(form.model()) == Ok::<_, FaultModel>(names_of(keys@)),
            Err(f) => params_model(form.model()) == Err::<Seq<Seq<char>>, _>(f.model()),
        },
{
    let list = match form {
        Expression::List(inner) => inner,
        _ => {
            return Err(EvalFault::BadParamList);
        },
    };
    proof {
        lemma_list_model(*list);
    }
    let ghost es = models_of(list@);
    let mut keys: Vec<String> = Vec::new();
    let mut i: usize = 0;
    while i < list.len()
        invariant
            form.model() == ExpModel::List(es),
            es == models_of(list@),
            i <= list@.len(),
            keys@.len() == i as int,
            forall|j: int| 0 <= j < i as int ==> (#[trigger] es[j]) is Sym,
            forall|j: int| 0 <= j < i as int ==> keys@[j]@ == es[j]->Sym_0,
        decreases list@.len() - i,
    {
        match &list[i] {
            Expression::Sym(s) => {
                keys.push(s.clone());
            },
            _ => {
                proof {
                    assert(!(es[i as int] is Sym));
                }
                return Err(EvalFault::BadParamSymbol);
            },
        }
        i = i + 1;
    }
    proof {
        match params_model(form.model()) {
            Ok(names) => {
                assert(names =~= names_of(keys@));
            },
            Err(_) => {
                assert(false);
            },
        }
    }
    Ok(keys)
}

/// Evaluates the argument expressions of a call, list elements from
/// `start` on, left to right in the caller's environment.
#[verifier::loop_isolation(false)]
pub fn eval_args(l: &Vec<Expression>, start: usize, env: &mut Environment, fuel: u64) -> (r:
    Result<Vec<Expression>, EvalFault>)
    requires
        start <= l@.len(),
    ensures
        ({
            let stepped = eval_args_model(
                fuel as nat,
                models_of(l@).skip(start as int),
                old(env).model(),
            );
            final(env).model() == stepped.0 && (match r {
                Ok(vs) => stepped.1 == Ok::<_, FaultModel>(models_of(vs@)),
                Err(f) => stepped.1 == Err::<Seq<ExpModel>, _>(f.model()),
            })
        }),
    decreases fuel, 1nat, l@.len() - start,
{
    let ghost whole = models_of(l@).skip(start as int);
    let ghost env0 = old(env).model();
    let mut vals: Vec<Expression> = Vec::new();
    let mut i: usize = start;
    proof {
        assert(models_of(vals@) =~= Seq::<ExpModel>::empty());
        match eval_args_model(fuel as nat, whole, env0).1 {
            Ok(vs) => {
                assert(models_of(vals@) + vs =~= vs);
            },
            Err(_) => {},
        }
    }
    loop
        invariant
            start <= i <= l@.len(),
            whole == models_of(l@).skip(start as int),
            eval_args_model(fuel as nat, whole, env0) == ({
                let stepped = eval_args_model(
                    fuel as nat,
                    models_of(l@).skip(i as int),
                    env.model(),
                );
                match stepped.1 {
                    Ok(vs) => (stepped.0, Ok::<_, FaultModel>(models_of(vals@) + vs)),
                    Err(f) => (stepped.0, Err::<Seq<ExpModel>, _>(f)),
                }
            }),
        decreases l@.len() - i,
    {
        let ghost cur = models_of(l@).skip(i as int);
        let ghost env_before = env.model();
        if i >= l.len() {
            proof {
                assert(cur.len() == 0);
                assert(eval_args_model(fuel as nat, cur, env_before) == (
                    env_before,
                    Ok::<Seq<ExpModel>, FaultModel>(Seq::empty()),
                ));
                assert(models_of(vals@) + Seq::<ExpModel>::empty() =~= models_of(vals@));
            }
            return Ok(vals);
        }
        proof {
            assert(cur[0] == models_of(l@)[i as int]);
            assert(cur.drop_first() =~= models_of(l@).skip(i as int + 1));
        }
        match eval(&l[i], env, fuel) {
            Ok(v) => {
                proof {
                    let ghost vm = v.model();
                    let stepped0 = eval_model(fuel as nat, cur[0], env_before);
                    assert(stepped0 == (env.model(), Ok::<ExpModel, FaultModel>(vm)));
                    let more = eval_args_model(
                        fuel as nat,
                        models_of(l@).skip(i as int + 1),
                        env.model(),
                    );
                    assert(eval_args_model(fuel as nat, cur, env_before) == (match more.1 {
                        Ok(vs) => (more.0, Ok::<Seq<ExpModel>, FaultModel>(seq![vm] + vs)),
                        Err(f2) => (more.0, Err::<Seq<ExpModel>, FaultModel>(f2)),
                    }));
                    match more.1 {
                        Ok(vs) => {
                            assert(models_of(vals@.push(v)) =~= models_of(vals@).push(vm));
                            assert(models_of(vals@) + (seq![vm] + vs) =~= (models_of(
                                vals@,
                            ).push(vm) + vs));
                        },
                        Err(_) => {},
                    }
                }
                vals.push(v);
                i = i + 1;
            },
            Err(f) => {
                proof {
                    let stepped0 = eval_model(fuel as nat, cur[0], env_before);
                    assert(eval_args_model(fuel as nat, cur, env_before) == (
                        stepped0.0,
                        Err::<Seq<ExpModel>, FaultModel>(f.model()),
                    ));
                }
                return Err(f);
            },
        }
    }
}

/// The pairwise test of a comparison built-in, executably.
fn cmp_value(op: BuiltinOp, a: i64, b: i64) -> (r: bool)
    ensures
        r == cmp_holds(op, a as int, b as int),
{
    match op {
        BuiltinOp::CmpEq => a == b,
        BuiltinOp::CmpGt => a > b,
        BuiltinOp::CmpGe => a >= b,
        BuiltinOp::CmpLt => a < b,
        BuiltinOp::CmpLe => a <= b,
        _ => false,
    }
}

/// Applies a built-in to already-evaluated arguments: numbers in, the
/// sum, difference or comparison-chain verdict out, exactly as
/// [`apply_builtin_model`] states.
#[verifier::loop_isolation(false)]
pub fn apply_builtin(op: BuiltinOp, vals: &Vec<Expression>) -> (r: Result<Expression, EvalFault>)
    ensures
        result_model(r) == apply_builtin_model(op, models_of(vals@)),
{
    let ghost vm = models_of(vals@);
    let mut nv: Vec<i64> = Vec::new();
    let mut i: usize = 0;
    while i < vals.len()
        invariant
            i <= vals@.len(),
            vm == models_of(vals@),
            nv@.len() == i as int,
            forall|j: int| 0 <= j < i as int ==> (#[trigger] vm[j]) is Num,
            forall|j: int| 0 <= j < i as int ==> nv@[j] as int == vm[j]->Num_0,
        decreases vals@.len() - i,
    {
        match &vals[i] {
            Expression::Num(n) => {
                nv.push(*n);
            },
            _ => {
                proof {
                    assert(!(vm[i as int] is Num));
                }
                return Err(EvalFault::NotANumber);
            },
        }
        i = i + 1;
    }
    let ghost nums = numbers_of(vm);
    proof {
        assert(all_numbers(vm));
        assert(nums.len() == nv@.len());
        assert(forall|j: int| 0 <= j < nums.len() ==> nv@[j] as int == nums[j]);
    }
    match op {
        BuiltinOp::Add => {
            let mut acc: i64 = 0;
            let mut j: usize = 0;
            proof {
                assert(nums.take(0) =~= Seq::<int>::empty());
            }
            while j < nv.len()
                invariant
                    j <= nv@.len(),
                    nv@.len() == nums.len(),
                    forall|k: int| 0 <= k < nums.len() ==> nv@[k] as int == nums[k],
                    acc as int == sum_of(nums.take(j as int)),
                    forall|k: int|
                        0 <= k <= j as int ==> i64::MIN <= sum_of(#[trigger] nums.take(k))
                            <= i64::MAX,
                decreases nv@.len() - j,
            {
                let b = nv[j];
                proof {
                    assert(nums.take(j as int + 1).drop_last() =~= nums.take(j as int));
                    assert(nums.take(j as int + 1).last() == nums[j as int]);
                }
                if (b >= 0 && acc > i64::MAX - b) || (b < 0 && acc < i64::MIN - b) {
                    proof {
                        assert(!(i64::MIN <= sum_of(nums.take(j as int + 1)) <= i64::MAX));
                        assert(!sum_in_range(nums));
                    }
                    return Err(EvalFault::Overflow);
                }
                acc = acc + b;
                j = j + 1;
            }
            proof {
                assert(nums.take(nums.len() as int) =~= nums);
                assert(sum_in_range(nums));
            }
            Ok(Expression::Num(acc))
        },
        BuiltinOp::Sub => {
            if nv.len() == 0 {
                return Err(EvalFault::MissingArgument);
            }
            let ghost rest = nums.drop_first();
            let mut acc: i64 = nv[0];
            let mut j: usize = 1;
            proof {
                assert(rest.take(0) =~= Seq::<int>::empty());
            }
            while j < nv.len()
                invariant
                    1 <= j <= nv@.len(),
                    nv@.len() == nums.len(),
                    nums.len() >= 1,
                    rest == nums.drop_first(),
                    forall|k: int| 0 <= k < nums.len() ==> nv@[k] as int == nums[k],
                    acc as int == nums[0] - sum_of(rest.take(j - 1)),
                    forall|k: int|
                        0 <= k <= j - 1 ==> i64::MIN <= nums[0] - sum_of(#[trigger] rest.take(k))
                            <= i64::MAX,
                decreases nv@.len() - j,
            {
                let b = nv[j];
                proof {
                    assert(rest[j - 1] == nums[j as int]);
                    assert(rest.take(j as int).drop_last() =~= rest.take(j - 1));
                    assert(rest.take(j as int).last() == rest[j - 1]);
                }
                if (b >= 0 && acc < i64::MIN + b) || (b < 0 && acc > i64::MAX + b) {
                    proof {
                        assert(!(i64::MIN <= nums[0] - sum_of(rest.take(j as int)) <= i64::MAX));
                        assert(!sub_in_range(nums[0], rest));
                    }
                    return Err(EvalFault::Overflow);
                }
                acc = acc - b;
                j = j + 1;
            }
            proof {
                assert(rest.take(rest.len() as int) =~= rest);
                assert(sub_in_range(nums[0], rest));
            }
            Ok(Expression::Num(acc))
        },
        _ => {
            if nv.len() == 0 {
                return Err(EvalFault::MissingArgument);
            }
            let mut j: usize = 0;
            while j + 1 < nv.len()
                invariant
                    j < nv@.len(),
                    nv@.len() == nums.len(),
                    forall|k: int| 0 <= k < nums.len() ==> nv@[k] as int == nums[k],
                    forall|k: int| 0 <= k < j as int ==> cmp_holds(op, #[trigger] nums[k], nums[k + 1]),
                decreases nv@.len() - j,
            {
                if !cmp_value(op, nv[j], nv[j + 1]) {
                    proof {
                        assert(!cmp_holds(op, nums[j as int], nums[j as int + 1]));
                        assert(!chain_holds(op, nums));
                    }
                    return Ok(Expression::Bool(false));
                }
                j = j + 1;
            }
            proof {
                assert(chain_holds(op, nums));
            }
            Ok(Expression::Bool(true))
        },
    }
}

/// Applies a closure: parameter names, exact arity, arguments evaluated
/// in the caller's environment, the body run in one fresh frame chained
/// to it, and that frame discarded afterwards.
pub fn apply_closure(
    params: &Expression,
    body: &Expression,
    l: &Vec<Expression>,
    env: &mut Environment,
    fuel: u64,
) -> (r: Result<Expression, EvalFault>)
    requires
        l@.len() >= 1,
    ensures
        ({
            let stepped = apply_model(
                fuel as nat,
                params.model(),
                body.model(),
                models_of(l@).drop_first(),
                old(env).model(),
            );
            final(env).model() == stepped.0 && result_model(r) == stepped.1
        }),
    decreases fuel, 2nat, 0nat,
{
    let ghost args = models_of(l@).drop_first();
    let keys = match parse_args(params) {
        Ok(k) => k,
        Err(f) => {
            return Err(f);
        },
    };
    proof {
        assert(names_of(keys@).len() == keys@.len());
        assert(args.len() == l@.len() - 1);
    }
    if keys.len() != l.len() - 1 {
        return Err(EvalFault::ArityMismatch { want: keys.len(), got: l.len() - 1 });
    }
    proof {
        assert(args =~= models_of(l@).skip(1));
    }
    proof {
        lemma_args_values_len(fuel as nat, args, old(env).model());
    }
    let vals = match eval_args(l, 1, env, fuel) {
        Ok(v) => v,
        Err(f) => {
            return Err(f);
        },
    };
    push_call_frame(env, &keys, &vals);
    let ghost chained = env.model();
    let br = eval(body, env, fuel);
    proof {
        lemma_eval_frames(fuel as nat, body.model(), chained);
    }
    pop_frame(env);
    br
}

/// Evaluates one expression against the environment, with a recursion
/// depth budget: literals to themselves, symbols by lookup, lists as
/// special forms or calls, exactly as [`eval_model`] states — including
/// every binding the environment keeps when a fault aborts the walk.
pub fn eval(e: &Expression, env: &mut Environment, fuel: u64) -> (r: Result<Expression, EvalFault>)
    ensures
        ({
            let stepped = eval_model(fuel as nat, e.model(), old(env).model());
            final(env).model() == stepped.0 && result_model(r) == stepped.1
        }),
    decreases fuel, 0nat, 0nat,
{
    if fuel == 0 {
        return Err(EvalFault::OutOfSteps);
    }
    match e {
        Expression::Bool(b) => Ok(Expression::Bool(*b)),
        Expression::Num(n) => Ok(Expression::Num(*n)),
        Expression::Sym(s) => match environment_get(s.as_str(), env) {
            Some(v) => Ok(v),
            None => Err(EvalFault::UnboundSymbol(s.clone())),
        },
        Expression::Closure { .. } => Err(EvalFault::NotSelfEvaluating),
        Expression::Builtin(_) => Err(EvalFault::NotSelfEvaluating),
        Expression::List(l) => {
            proof {
                lemma_list_model(*l);
            }
            let ghost items = models_of(l@);
            if l.len() == 0 {
                return Err(EvalFault::EmptyCall);
            }
            proof {
                assert(items[0] == l@[0].model());
                assert(items.drop_first() =~= models_of(l@).drop_first());
            }
            let head = &l[0];
            match head {
                Expression::Sym(s) => {
                    if str_eq(s.as_str(), "def") {
                        return eval_def(l, env, fuel - 1);
                    }
                    if str_eq(s.as_str(), "if") {
                        return eval_if(l, env, fuel - 1);
                    }
                    if str_eq(s.as_str(), "fn") {
                        return eval_lambda(l);
                    }
                },
                _ => {},
            }
            let ghost env0 = old(env).model();
            let ghost fm = fuel as nat;
            let ghost args = items.drop_first();
            let hr = eval(head, env, fuel - 1);
            let ghost stepped = eval_model((fm - 1) as nat, items[0], env0);
            proof {
                assert(stepped.0 == env.model());
            }
            match hr {
                Ok(h) => match h {
                    Expression::Closure { params, body } => {
                        proof {
                            assert(eval_model(fm, e.model(), env0) == apply_model(
                                (fm - 1) as nat,
                                params.model(),
                                body.model(),
                                args,
                                stepped.0,
                            ));
                        }
                        apply_closure(&*params, &*body, l, env, fuel - 1)
                    },
                    Expression::Builtin(op) => {
                        proof {
                            assert(eval_model(fm, e.model(), env0) == call_builtin_model(
                                (fm - 1) as nat,
                                op,
                                args,
                                stepped.0,
                            ));
                        }
                        let ghost env1 = env.model();
                        match eval_args(l, 1, env, fuel - 1) {
                            Ok(vs) => {
                                proof {
                                    assert(args =~= models_of(l@).skip(1));
                                    let sa = eval_args_model((fm - 1) as nat, args, env1);
                                    assert(sa.0 == env.model() && sa.1 == Ok::<
                                        Seq<ExpModel>,
                                        FaultModel,
                                    >(models_of(vs@)));
                                    assert(call_builtin_model((fm - 1) as nat, op, args, env1)
                                        == (env.model(), apply_builtin_model(
                                        op,
                                        models_of(vs@),
                                    )));
                                }
                                apply_builtin(op, &vs)
                            },
                            Err(f) => {
                                proof {
                                    assert(args =~= models_of(l@).skip(1));
                                    let sa = eval_args_model((fm - 1) as nat, args, env1);
                                    assert(call_builtin_model((fm - 1) as nat, op, args, env1)
                                        == (sa.0, Err::<ExpModel, FaultModel>(f.model())));
                                }
                                Err(f)
                            },
                        }
                    },
                    _ => {
                        proof {
                            assert(eval_model(fm, e.model(), env0) == (
                                stepped.0,
                                Err::<ExpModel, FaultModel>(FaultModel::NotCallable),
                            ));
                        }
                        Err(EvalFault::NotCallable)
                    },
                },
                Err(f) => {
                    proof {
                        assert(eval_model(fm, e.model(), env0) == (
                            stepped.0,
                            Err::<ExpModel, FaultModel>(f.model()),
                        ));
                    }
                    Err(f)
                },
            }
        },
    }
}

} // verus!
