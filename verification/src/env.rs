//! Environments: a chain of scope frames mapping symbol names to
//! expressions, supporting shadowing and lexical lookup through enclosing
//! scopes.  The chain is held innermost-frame-last; one frame is pushed
//! per closure invocation and popped when the invocation returns.

use vstd::prelude::*;
use crate::exp::{clone_exp, models_of, BuiltinOp, ExpModel, Expression};
use crate::text::str_eq;

verus! {

/// One scope's own name-to-value mapping.  Later entries shadow earlier
/// entries with the same name.
pub struct Frame {
    entries: Vec<(String, Expression)>,
}

/// The model of a frame's entries: a map in which the latest entry for a
/// name wins.
pub open spec fn frame_model(entries: Seq<(String, Expression)>) -> Map<Seq<char>, ExpModel>
    decreases entries.len(),
{
    if entries.len() == 0 {
        Map::empty()
    } else {
        frame_model(entries.drop_last()).insert(
            entries.last().0@,
            entries.last().1.model(),
        )
    }
}

impl Frame {
    /// The map that this frame denotes.
    pub closed spec fn model(&self) -> Map<Seq<char>, ExpModel> {
        frame_model(self.entries@)
    }
}

/// A chain of scopes, innermost frame last.  The root environment is the
/// single long-lived frame; every other frame is owned by one closure
/// invocation.
pub struct Environment {
    frames: Vec<Frame>,
}

impl Environment {
    /// The chain that this environment denotes: one map per frame,
    /// innermost scope last.
    pub closed spec fn model(&self) -> Seq<Map<Seq<char>, ExpModel>> {
        Seq::new(
            self.frames@.len(),
            |i: int| if 0 <= i < self.frames@.len() {
                self.frames@[i].model()
            } else {
                Map::empty()
            },
        )
    }
}

/// Lexical lookup over the model: the innermost frame that holds the name
/// decides; `None` when no frame in the chain holds it.
pub open spec fn lookup_model(
    env: Seq<Map<Seq<char>, ExpModel>>,
    name: Seq<char>,
) -> Option<ExpModel>
    decreases env.len(),
{
    if env.len() == 0 {
        None
    } else if env.last().contains_key(name) {
        Some(env.last()[name])
    } else {
        lookup_model(env.drop_last(), name)
    }
}

/// Binding over the model: inserts or overwrites in the innermost frame
/// only, never reaching into outer frames.
pub open spec fn define_model(
    env: Seq<Map<Seq<char>, ExpModel>>,
    name: Seq<char>,
    value: ExpModel,
) -> Seq<Map<Seq<char>, ExpModel>> {
    if env.len() == 0 {
        env
    } else {
        env.update(env.len() - 1, env.last().insert(name, value))
    }
}

/// Positional parameter binding over the model: pairs names with values,
/// a later duplicate name winning.
pub open spec fn bind_model(names: Seq<Seq<char>>, values: Seq<ExpModel>) -> Map<
    Seq<char>,
    ExpModel,
>
    decreases names.len(),
{
    if names.len() == 0 || values.len() == 0 {
        Map::empty()
    } else {
        bind_model(names.drop_last(), values.drop_last()).insert(names.last(), values.last())
    }
}

/// The character sequences of a vector of names.
pub open spec fn names_of(keys: Seq<String>) -> Seq<Seq<char>> {
    Seq::new(keys.len(), |i: int| if 0 <= i < keys.len() { keys[i]@ } else { Seq::empty() })
}

proof fn lemma_frame_model_found(s: Seq<(String, Expression)>, j: int, name: Seq<char>)
    requires
        0 <= j < s.len(),
        s[j].0@ == name,
        forall|k: int| j < k < s.len() ==> s[k].0@ != name,
    ensures
        frame_model(s).contains_key(name),
        frame_model(s)[name] == s[j].1.model(),
    decreases s.len(),
{
    if j == s.len() - 1 {
    } else {
        lemma_frame_model_found(s.drop_last(), j, name);
    }
}

proof fn lemma_frame_model_absent(s: Seq<(String, Expression)>, name: Seq<char>)
    requires
        forall|k: int| 0 <= k < s.len() ==> s[k].0@ != name,
    ensures
        !frame_model(s).contains_key(name),
    decreases s.len(),
{
    if s.len() > 0 {
        lemma_frame_model_absent(s.drop_last(), name);
    }
}

/// Looks a name up in one frame alone; the latest entry for it wins.
fn frame_get(f: &Frame, key: &str) -> (r: Option<Expression>)
    ensures
        match r {
            Some(v) => f.model().contains_key(key@) && v.model() == f.model()[key@],
            None => !f.model().contains_key(key@),
        },
{
    let mut i: usize = f.entries.len();
    while i > 0
        invariant
            i <= f.entries@.len(),
            forall|k: int| i as int <= k < f.entries@.len() ==> f.entries@[k].0@ != key@,
        decreases i,
    {
        i = i - 1;
        if str_eq(f.entries[i].0.as_str(), key) {
            proof {
                lemma_frame_model_found(f.entries@, i as int, key@);
            }
            return Some(clone_exp(&f.entries[i].1));
        }
    }
    proof {
        lemma_frame_model_absent(f.entries@, key@);
    }
    None
}

/// Looks a name up through the whole chain: the current frame first, then
/// each enclosing frame in turn; `None` when no frame holds it.
pub fn environment_get(key: &str, env: &Environment) -> (r: Option<Expression>)
    ensures
        match r {
            Some(v) => lookup_model(env.model(), key@) == Some(v.model()),
            None => lookup_model(env.model(), key@) is None,
        },
{
    let ghost whole = env.model();
    let mut i: usize = env.frames.len();
    proof {
        assert(whole.take(i as int) =~= whole);
    }
    while i > 0
        invariant
            i <= env.frames@.len(),
            whole == env.model(),
            lookup_model(whole, key@) == lookup_model(whole.take(i as int), key@),
        decreases i,
    {
        proof {
            assert(whole.take(i as int).drop_last() =~= whole.take(i as int - 1));
        }
        i = i - 1;
        match frame_get(&env.frames[i], key) {
            Some(v) => {
                return Some(v);
            },
            None => {},
        }
    }
    None
}

/// Inserts or overwrites a binding in the innermost frame only; this is
/// how both `def` and closure-parameter binding write the environment.
/// On a frameless environment it binds nothing.
pub fn define(env: &mut Environment, name: String, value: Expression)
    ensures
        final(env).model() == define_model(old(env).model(), name@, value.model()),
{
    let ghost before = env.model();
    match env.frames.pop() {
        Some(mut f) => {
            let ghost fe = f.entries@;
            f.entries.push((name, value));
            proof {
                assert(f.entries@.drop_last() =~= fe);
            }
            env.frames.push(f);
            proof {
                assert(final(env).model() =~= define_model(before, name@, value.model()));
            }
        },
        None => {
            proof {
                assert(final(env).model() =~= before);
            }
        },
    }
}

/// Builds the frame for one closure invocation, binding parameters to the
/// already-evaluated arguments positionally, and chains it to the current
/// environment as the new innermost scope.
pub(crate) fn push_call_frame(env: &mut Environment, keys: &Vec<String>, vals: &Vec<Expression>)
    requires
        keys@.len() == vals@.len(),
    ensures
        final(env).model() == old(env).model().push(
            bind_model(names_of(keys@), models_of(vals@)),
        ),
{
    let mut entries: Vec<(String, Expression)> = Vec::new();
    let mut i: usize = 0;
    while i < keys.len()
        invariant
            keys@.len() == vals@.len(),
            i <= keys@.len(),
            frame_model(entries@) == bind_model(
                names_of(keys@).take(i as int),
                models_of(vals@).take(i as int),
            ),
        decreases keys@.len() - i,
    {
        let ghost before = entries@;
        entries.push((keys[i].clone(), clone_exp(&vals[i])));
        proof {
            assert(entries@.drop_last() =~= before);
            assert(names_of(keys@).take(i + 1).drop_last() =~= names_of(keys@).take(i as int));
            assert(models_of(vals@).take(i + 1).drop_last() =~= models_of(vals@).take(i as int));
        }
        i = i + 1;
    }
    proof {
        assert(names_of(keys@).take(keys@.len() as int) =~= names_of(keys@));
        assert(models_of(vals@).take(vals@.len() as int) =~= models_of(vals@));
    }
    let ghost before_env = env.model();
    env.frames.push(Frame { entries });
    proof {
        assert(final(env).model() =~= before_env.push(
            bind_model(names_of(keys@), models_of(vals@)),
        ));
    }
}

/// Discards the innermost frame when its invocation returns.
pub(crate) fn pop_frame(env: &mut Environment)
    requires
        old(env).model().len() > 0,
    ensures
        final(env).model() == old(env).model().drop_last(),
{
    let ghost before = env.model();
    let _ = env.frames.pop();
    proof {
        assert(final(env).model() =~= before.drop_last());
    }
}

/// The model of the root environment populated with the built-ins.
pub open spec fn default_env_model() -> Seq<Map<Seq<char>, ExpModel>> {
    seq![
        Map::empty()
            .insert("+"@, ExpModel::Builtin(BuiltinOp::Add))
            .insert("-"@, ExpModel::Builtin(BuiltinOp::Sub))
            .insert("="@, ExpModel::Builtin(BuiltinOp::CmpEq))
            .insert(">"@, ExpModel::Builtin(BuiltinOp::CmpGt))
            .insert(">="@, ExpModel::Builtin(BuiltinOp::CmpGe))
            .insert("<"@, ExpModel::Builtin(BuiltinOp::CmpLt))
            .insert("<="@, ExpModel::Builtin(BuiltinOp::CmpLe)),
    ]
}

/// The root environment: a single frame holding the arithmetic and
/// comparison built-ins, alive for the whole session.
pub fn default_environment() -> (r: Environment)
    ensures
        r.model() == default_env_model(),
{
    let mut entries: Vec<(String, Expression)> = Vec::new();
    entries.push((String::from_str("+"), Expression::Builtin(BuiltinOp::Add)));
    entries.push((String::from_str("-"), Expression::Builtin(BuiltinOp::Sub)));
    entries.push((String::from_str("="), Expression::Builtin(BuiltinOp::CmpEq)));
    entries.push((String::from_str(">"), Expression::Builtin(BuiltinOp::CmpGt)));
    entries.push((String::from_str(">="), Expression::Builtin(BuiltinOp::CmpGe)));
    entries.push((String::from_str("<"), Expression::Builtin(BuiltinOp::CmpLt)));
    entries.push((String::from_str("<="), Expression::Builtin(BuiltinOp::CmpLe)));
    let frame = Frame { entries };
    let mut frames: Vec<Frame> = Vec::new();
    frames.push(frame);
    let env = Environment { frames };
    proof {
        reveal_with_fuel(frame_model, 9);
        assert(env.model()[0] =~= default_env_model()[0]);
        assert(env.model() =~= default_env_model());
    }
    env
}

} // verus!
