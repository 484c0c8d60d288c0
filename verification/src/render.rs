//! Rendering expressions back to text: lists parenthesized with their
//! elements joined by a separator, closures and built-ins as opaque
//! labels, literals and symbols in their natural form.

use vstd::prelude::*;
use vstd::string::StringExecFns;
use crate::exp::{lemma_list_model, models_of, ExpModel, Expression};
use crate::num::{int_str, push_int};
use crate::text::push_char;

verus! {

/// The textual form of an expression, with the given separator between
/// list elements.
pub open spec fn render_model(e: ExpModel, sep: char) -> Seq<char>
    decreases e,
{
    match e {
        ExpModel::List(es) => seq!['('] + render_items(es, sep) + seq![')'],
        ExpModel::Closure { .. } => "Lambda {}"@,
        ExpModel::Builtin(_) => "Function {}"@,
        ExpModel::Bool(b) => if b {
            "true"@
        } else {
            "false"@
        },
        ExpModel::Num(n) => int_str(n),
        ExpModel::Sym(s) => s,
    }
}

/// The separator-joined textual forms of list elements.
pub open spec fn render_items(es: Seq<ExpModel>, sep: char) -> Seq<char>
    decreases es,
{
    if es.len() == 0 {
        Seq::empty()
    } else if es.len() == 1 {
        render_model(es[0], sep)
    } else {
        render_items(es.drop_last(), sep) + seq![sep] + render_model(es.last(), sep)
    }
}

/// Appends the textual form of an expression.
fn push_exp(out: &mut String, e: &Expression, sep: char)
    ensures
        final(out)@ == old(out)@ + render_model(e.model(), sep),
    decreases *e,
{
    match e {
        Expression::List(l) => {
            let ghost base = out@;
            push_char(out, '(');
            let mut i: usize = 0;
            proof {
                assert(models_of(l@).take(0) =~= Seq::<ExpModel>::empty());
                assert(out@ =~= base + seq!['('] + render_items(models_of(l@).take(0), sep));
            }
            while i < l.len()
                invariant
                    *e is List && (*e)->List_0 == *l,
                    i <= l@.len(),
                    out@ == base + seq!['('] + render_items(models_of(l@).take(i as int), sep),
                decreases l@.len() - i,
            {
                let ghost partial = models_of(l@).take(i as int);
                if i > 0 {
                    push_char(out, sep);
                }
                proof {
                    broadcast use vstd::std_specs::vec::axiom_vec_index_decreases;
                    assert(decreases_to!(*e => (*e)->List_0));
                    assert(decreases_to!(*l => l[i as int]));
                    assert(decreases_to!(*e => l@[i as int]));
                }
                push_exp(out, &l[i], sep);
                proof {
                    let next = models_of(l@).take(i as int + 1);
                    assert(next.drop_last() =~= partial);
                    assert(next.last() == l@[i as int].model());
                    if i == 0 {
                        assert(render_items(next, sep) == render_model(l@[0].model(), sep));
                        assert(out@ =~= base + seq!['('] + render_items(next, sep));
                    } else {
                        assert(render_items(next, sep) == render_items(partial, sep) + seq![sep]
                            + render_model(l@[i as int].model(), sep));
                        assert(out@ =~= base + seq!['('] + render_items(next, sep));
                    }
                }
                i = i + 1;
            }
            push_char(out, ')');
            proof {
                assert(models_of(l@).take(l@.len() as int) =~= models_of(l@));
                lemma_list_model(*l);
                assert(*e == Expression::List(*l));
                assert(e.model() == ExpModel::List(models_of(l@)));
                assert(out@ =~= base + render_model(e.model(), sep));
            }
        },
        Expression::Closure { .. } => {
            out.append("Lambda {}");
        },
        Expression::Builtin(_) => {
            out.append("Function {}");
        },
        Expression::Bool(b) => {
            if *b {
                out.append("true");
            } else {
                out.append("false");
            }
        },
        Expression::Num(n) => {
            push_int(out, *n);
        },
        Expression::Sym(s) => {
            out.append(s.as_str());
        },
    }
}

/// The display form of an expression: list elements joined by commas.
pub fn render(e: &Expression) -> (r: String)
    ensures
        r@ == render_model(e.model(), ','),
{
    let mut out = String::new();
    push_exp(&mut out, e, ',');
    proof {
        assert(Seq::<char>::empty() + render_model(e.model(), ',') =~= render_model(
            e.model(),
            ',',
        ));
    }
    out
}

/// A re-readable form: list elements joined by spaces, so that the text
/// tokenizes and parses back to a structurally equal expression.
pub fn to_source(e: &Expression) -> (r: String)
    ensures
        r@ == render_model(e.model(), ' '),
{
    let mut out = String::new();
    push_exp(&mut out, e, ' ');
    proof {
        assert(Seq::<char>::empty() + render_model(e.model(), ' ') =~= render_model(
            e.model(),
            ' ',
        ));
    }
    out
}

} // verus!
