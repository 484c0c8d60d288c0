//! The expression data model: the tagged union that flows from the parser
//! through the evaluator, and its mathematical model.

use vstd::prelude::*;

verus! {

/// The arithmetic and comparison primitives that the root environment
/// offers; `Expression::Builtin` carries one of these.
#[derive(Clone, Copy, PartialEq, Eq, Structural, Debug)]
pub enum BuiltinOp {
    /// `+`: variadic sum; the empty sum is 0.
    Add,
    /// `-`: the first argument minus the sum of the rest; needs an argument.
    Sub,
    /// `=`: true when every adjacent pair of arguments is equal.
    CmpEq,
    /// `>`: true when the arguments strictly decrease pairwise.
    CmpGt,
    /// `>=`: true when the arguments decrease or stay equal pairwise.
    CmpGe,
    /// `<`: true when the arguments strictly increase pairwise.
    CmpLt,
    /// `<=`: true when the arguments increase or stay equal pairwise.
    CmpLe,
}

/// An expression of the language: what the parser produces and the
/// evaluator consumes and returns.  Expressions are immutable once built;
/// evaluation only creates new ones.
pub enum Expression {
    /// An ordered, possibly empty list; both code (a call, a special form)
    /// and data (a closure's parameter list).
    List(Vec<Expression>),
    /// A user-defined function: an unevaluated parameter list and body.
    /// No environment is captured; a call chains one fresh frame to the
    /// caller's live environment.
    Closure { params: Box<Expression>, body: Box<Expression> },
    /// A native primitive, callable like a closure.
    Builtin(BuiltinOp),
    /// A boolean literal.
    Bool(bool),
    /// The sole numeric type: a 64-bit signed integer.
    Num(i64),
    /// An identifier, also the head of a special form.
    Sym(String),
}

/// The mathematical model of an [`Expression`]: lists as sequences,
/// symbols as character sequences, numbers as unbounded integers.
/// All contracts of this crate speak of expressions through this model.
pub enum ExpModel {
    List(Seq<ExpModel>),
    Closure { params: Box<ExpModel>, body: Box<ExpModel> },
    Builtin(BuiltinOp),
    Bool(bool),
    Num(int),
    Sym(Seq<char>),
}

impl Expression {
    /// The model that this expression denotes.
    pub open spec fn model(self) -> ExpModel
        decreases self,
    {
        match self {
            Expression::List(l) => ExpModel::List(
                Seq::new(
                    l@.len(),
                    |i: int| if 0 <= i < l@.len() {
                        l@[i].model()
                    } else {
                        ExpModel::Bool(false)
                    },
                ),
            ),
            Expression::Closure { params, body } => ExpModel::Closure {
                params: Box::new((*params).model()),
                body: Box::new((*body).model()),
            },
            Expression::Builtin(op) => ExpModel::Builtin(op),
            Expression::Bool(b) => ExpModel::Bool(b),
            Expression::Num(n) => ExpModel::Num(n as int),
            Expression::Sym(s) => ExpModel::Sym(s@),
        }
    }
}

/// The model of a vector of expressions, elementwise.
pub open spec fn models_of(l: Seq<Expression>) -> Seq<ExpModel> {
    Seq::new(l.len(), |i: int| if 0 <= i < l.len() { l[i].model() } else { ExpModel::Bool(false) })
}

/// A `List` models to exactly the models of its elements.
pub proof fn lemma_list_model(l: Vec<Expression>)
    ensures
        Expression::List(l).model() == ExpModel::List(models_of(l@)),
{
    assert(Expression::List(l).model() matches ExpModel::List(s) && s =~= models_of(l@));
}

/// An exact copy: the clone denotes the same model as the value it copies.
pub fn clone_exp(e: &Expression) -> (r: Expression)
    ensures
        r.model() == e.model(),
    decreases *e,
{
    match e {
        Expression::List(l) => {
            let mut out: Vec<Expression> = Vec::new();
            let mut i: usize = 0;
            while i < l.len()
                invariant
                    *e is List && (*e)->List_0 == *l,
                    i <= l.len(),
                    out@.len() == i as int,
                    forall|j: int| 0 <= j < i as int ==> out@[j].model() == l@[j].model(),
                decreases l.len() - i,
            {
                proof {
                    broadcast use vstd::std_specs::vec::axiom_vec_index_decreases;
                    assert(*e is List && (*e)->List_0 == *l);
                    assert(decreases_to!(*e => (*e)->List_0));
                    assert(decreases_to!(*l => l[i as int]));
                    assert(decreases_to!(*e => l@[i as int]));
                }
                out.push(clone_exp(&l[i]));
                i += 1;
            }
            let r = Expression::List(out);
            proof {
                lemma_list_model(r->List_0);
                lemma_list_model(e->List_0);
                assert(models_of(r->List_0@) =~= models_of(e->List_0@));
            }
            r
        },
        Expression::Closure { params, body } => Expression::Closure {
            params: Box::new(clone_exp(&**params)),
            body: Box::new(clone_exp(&**body)),
        },
        Expression::Builtin(op) => Expression::Builtin(*op),
        Expression::Bool(b) => Expression::Bool(*b),
        Expression::Num(n) => Expression::Num(*n),
        Expression::Sym(s) => Expression::Sym(s.clone()),
    }
}

} // verus!
