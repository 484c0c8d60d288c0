//! The library's general laws, stated and proved over the same models
//! that the executable functions' contracts use.

use vstd::prelude::*;
use crate::eval::{eval_model, EnvModel};
use crate::exp::ExpModel;
use crate::fault::{FaultModel, ParseFault};
use crate::num::{
    all_digits, dec_digits, digit_char, digit_val, digits_val, int_str, is_digit, is_num_token,
    num_body, num_val,
};
use crate::parse::{atom_model, parse_list_model, parse_model};
use crate::render::{render_items, render_model};
use crate::token::{flush, is_space, scan, tokens_model};

verus! {

/// Evaluating a self-evaluating literal (a number or a boolean) yields
/// the literal itself and leaves the environment untouched, so a second
/// evaluation yields the same value again: evaluation of literals is
/// idempotent and free of side effects.
pub proof fn lemma_literal_idempotent(fuel: nat, e: ExpModel, env: EnvModel)
    requires
        fuel > 0,
        e is Num || e is Bool,
    ensures
        eval_model(fuel, e, env) == (env, Ok::<ExpModel, FaultModel>(e)),
        eval_model(fuel, e, eval_model(fuel, e, env).0) == eval_model(fuel, e, env),
{
}

/// A character that neither splits tokens nor stands alone as one.
pub open spec fn plain_char(c: char) -> bool {
    c != '(' && c != ')' && !is_space(c)
}

/// A symbol the tokenizer keeps whole and the atom classifier hands back
/// unchanged: nonempty, made of plain characters, not a boolean literal
/// and not numeric.
pub open spec fn sym_token(s: Seq<char>) -> bool {
    &&& s.len() > 0
    &&& forall|i: int| 0 <= i < s.len() ==> plain_char(#[trigger] s[i])
    &&& s != "true"@
    &&& s != "false"@
    &&& !is_num_token(s)
}

/// An expression built purely from numbers, booleans, symbols and lists,
/// whose numbers fit the numeric type and whose symbols read back as
/// themselves.
pub open spec fn renderable(e: ExpModel) -> bool
    decreases e,
{
    match e {
        ExpModel::Num(n) => i64::MIN <= n <= i64::MAX,
        ExpModel::Bool(_) => true,
        ExpModel::Sym(s) => sym_token(s),
        ExpModel::List(es) => forall|i: int| 0 <= i < es.len() ==> renderable(#[trigger] es[i]),
        _ => false,
    }
}

/// The token sequence an expression renders to: its atoms and
/// parentheses in order.
pub open spec fn flat_tokens(e: ExpModel) -> Seq<Seq<char>>
    decreases e,
{
    match e {
        ExpModel::List(es) => seq![seq!['(']] + flat_tokens_of(es) + seq![seq![')']],
        _ => seq![render_model(e, ' ')],
    }
}

/// The concatenated token sequences of list elements.
pub open spec fn flat_tokens_of(es: Seq<ExpModel>) -> Seq<Seq<char>>
    decreases es,
{
    if es.len() == 0 {
        Seq::empty()
    } else {
        flat_tokens(es[0]) + flat_tokens_of(es.drop_first())
    }
}

proof fn lemma_paren_literals()
    ensures
        "("@ == seq!['('],
        ")"@ == seq![')'],
{
    reveal_strlit("(");
    reveal_strlit(")");
    assert("("@ =~= seq!['(']);
    assert(")"@ =~= seq![')']);
}

proof fn lemma_dec_digits(n: int)
    requires
        n >= 0,
    ensures
        dec_digits(n).len() >= 1,
        all_digits(dec_digits(n)),
        digits_val(dec_digits(n)) == n,
    decreases n,
{
    if n < 10 {
        let d = seq![digit_char(n)];
        assert(d.drop_last() =~= Seq::<char>::empty());
        assert(digits_val(Seq::<char>::empty()) == 0);
        assert(d.last() == digit_char(n));
        assert(digits_val(d) == 10 * digits_val(d.drop_last()) + digit_val(d.last()));
        assert(all_digits(d)) by {
            assert(is_digit(digit_char(n)));
        }
    } else {
        lemma_dec_digits(n / 10);
        let d = dec_digits(n);
        assert(d.drop_last() =~= dec_digits(n / 10));
        assert(d.last() == digit_char(n % 10));
        assert forall|i: int| 0 <= i < d.len() implies is_digit(#[trigger] d[i]) by {
            if i < d.len() - 1 {
                assert(d[i] == dec_digits(n / 10)[i]);
            }
        }
        assert(digits_val(d) == 10 * (n / 10) + (n % 10));
    }
}

proof fn lemma_digits_plain(s: Seq<char>)
    requires
        all_digits(s),
    ensures
        forall|i: int| 0 <= i < s.len() ==> plain_char(#[trigger] s[i]),
        forall|i: int| 0 <= i < s.len() ==> (#[trigger] s[i]) != '-' && s[i] != '+',
{
    assert forall|i: int| 0 <= i < s.len() implies plain_char(#[trigger] s[i]) && s[i] != '-'
        && s[i] != '+' by {
        assert(is_digit(s[i]));
    }
}

proof fn lemma_int_str_numeric(n: int)
    requires
        i64::MIN <= n <= i64::MAX,
    ensures
        is_num_token(int_str(n)),
        num_val(int_str(n)) == n,
        int_str(n).len() >= 1,
        forall|i: int| 0 <= i < int_str(n).len() ==> plain_char(#[trigger] int_str(n)[i]),
{
    let t = int_str(n);
    if n >= 0 {
        lemma_dec_digits(n);
        lemma_digits_plain(t);
        assert(num_body(t) == t);
    } else {
        lemma_dec_digits(-n);
        lemma_digits_plain(dec_digits(-n));
        assert(t == seq!['-'] + dec_digits(-n));
        assert(t[0] == '-');
        assert(num_body(t) =~= dec_digits(-n));
        assert forall|i: int| 0 <= i < t.len() implies plain_char(#[trigger] t[i]) by {
            if i > 0 {
                assert(t[i] == dec_digits(-n)[i - 1]);
            }
        }
        assert(num_val(t) == -digits_val(dec_digits(-n)));
    }
}

proof fn lemma_atom_text(e: ExpModel)
    requires
        renderable(e),
        !(e is List),
    ensures
        ({
            let t = render_model(e, ' ');
            &&& t.len() > 0
            &&& forall|i: int| 0 <= i < t.len() ==> plain_char(#[trigger] t[i])
            &&& atom_model(t) == e
        }),
{
    reveal_strlit("true");
    reveal_strlit("false");
    let t = render_model(e, ' ');
    match e {
        ExpModel::Num(n) => {
            lemma_int_str_numeric(n);
            assert(t[0] == '-' || is_digit(t[0])) by {
                if n >= 0 {
                    lemma_dec_digits(n);
                } else {
                    assert(t == seq!['-'] + dec_digits(-n));
                }
            }
            assert(t != "true"@) by {
                if t == "true"@ {
                    assert(t[0] == 't');
                }
            }
            assert(t != "false"@) by {
                if t == "false"@ {
                    assert(t[0] == 'f');
                }
            }
        },
        ExpModel::Bool(b) => {
            if b {
                assert(t == "true"@);
                assert forall|i: int| 0 <= i < t.len() implies plain_char(#[trigger] t[i]) by {
                    assert(t[i] == 't' || t[i] == 'r' || t[i] == 'u' || t[i] == 'e');
                }
            } else {
                assert(t == "false"@);
                assert forall|i: int| 0 <= i < t.len() implies plain_char(#[trigger] t[i]) by {
                    assert(t[i] == 'f' || t[i] == 'a' || t[i] == 'l' || t[i] == 's' || t[i] == 'e');
                }
                assert(t != "true"@) by {
                    assert("true"@.len() == 4 && "false"@.len() == 5);
                }
            }
        },
        ExpModel::Sym(_) => {
        },
        _ => {},
    }
}

proof fn lemma_scan_append(st: (Seq<Seq<char>>, Seq<char>), a: Seq<char>, b: Seq<char>)
    ensures
        scan(st, a + b) == scan(scan(st, a), b),
    decreases b.len(),
{
    if b.len() == 0 {
        assert(a + b =~= a);
    } else {
        lemma_scan_append(st, a, b.drop_last());
        assert((a + b).drop_last() =~= a + b.drop_last());
        assert((a + b).last() == b.last());
    }
}

proof fn lemma_scan_plain(st: (Seq<Seq<char>>, Seq<char>), t: Seq<char>)
    requires
        forall|i: int| 0 <= i < t.len() ==> plain_char(#[trigger] t[i]),
    ensures
        scan(st, t) == (st.0, st.1 + t),
    decreases t.len(),
{
    if t.len() == 0 {
        assert(st.1 + t =~= st.1);
    } else {
        lemma_scan_plain(st, t.drop_last());
        assert(st.1 + t =~= (st.1 + t.drop_last()).push(t.last()));
    }
}

proof fn lemma_flat_of_last(es: Seq<ExpModel>)
    requires
        es.len() > 0,
    ensures
        flat_tokens_of(es) == flat_tokens_of(es.drop_last()) + flat_tokens(es.last()),
    decreases es.len(),
{
    if es.len() == 1 {
        assert(es.drop_first() =~= Seq::<ExpModel>::empty());
        assert(es.drop_last() =~= Seq::<ExpModel>::empty());
        assert(flat_tokens(es[0]) + Seq::<Seq<char>>::empty() =~= flat_tokens(es[0]));
        assert(Seq::<Seq<char>>::empty() + flat_tokens(es[0]) =~= flat_tokens(es[0]));
    } else {
        lemma_flat_of_last(es.drop_first());
        assert(es.drop_first().drop_last() =~= es.drop_last().drop_first());
        assert(es.drop_first().last() == es.last());
        assert(es.drop_last()[0] == es[0]);
        assert(flat_tokens(es[0]) + (flat_tokens_of(es.drop_last().drop_first()) + flat_tokens(
            es.last(),
        )) =~= (flat_tokens(es[0]) + flat_tokens_of(es.drop_last().drop_first())) + flat_tokens(
            es.last(),
        ));
    }
}

proof fn lemma_scan_render(toks: Seq<Seq<char>>, e: ExpModel)
    requires
        renderable(e),
    ensures
        ({
            let st = scan((toks, Seq::empty()), render_model(e, ' '));
            &&& flush(st.0, st.1) == toks + flat_tokens(e)
            &&& (e is List ==> st.1 == Seq::<char>::empty())
        }),
    decreases e,
{
    match e {
        ExpModel::List(es) => {
            let txt = render_model(e, ' ');
            let inner = render_items(es, ' ');
            let st0: (Seq<Seq<char>>, Seq<char>) = (toks, Seq::empty());
            let open_txt: Seq<char> = seq!['('];
            assert(open_txt.drop_last() =~= Seq::<char>::empty());
            assert(scan(st0, Seq::<char>::empty()) == st0);
            assert(open_txt.last() == '(');
            assert(scan(st0, open_txt) == (flush(toks, Seq::empty()).push(seq!['(']), Seq::<
                char,
            >::empty()));
            lemma_scan_append(st0, open_txt, inner);
            assert(open_txt + inner =~= seq!['('] + inner);
            let mid = toks.push(seq!['(']);
            lemma_scan_render_items(mid, es);
            let st1 = scan((mid, Seq::empty()), inner);
            let close_txt: Seq<char> = seq![')'];
            assert(close_txt.drop_last() =~= Seq::<char>::empty());
            assert(scan(st1, Seq::<char>::empty()) == st1);
            assert(close_txt.last() == ')');
            assert(scan(st1, close_txt) == (flush(st1.0, st1.1).push(seq![')']), Seq::<
                char,
            >::empty()));
            lemma_scan_append(st0, seq!['('] + inner, close_txt);
            assert((seq!['('] + inner) + close_txt =~= txt);
            let st2 = scan(st0, txt);
            assert(st2 == (flush(st1.0, st1.1).push(seq![')']), Seq::<char>::empty()));
            assert(flush(st2.0, st2.1) == (mid + flat_tokens_of(es)).push(seq![')']));
            assert((mid + flat_tokens_of(es)).push(seq![')']) =~= toks + flat_tokens(e));
        },
        _ => {
            lemma_atom_text(e);
            let t = render_model(e, ' ');
            lemma_scan_plain((toks, Seq::empty()), t);
            assert(Seq::<char>::empty() + t =~= t);
            assert(toks.push(t) =~= toks + seq![t]);
        },
    }
}

proof fn lemma_scan_render_items(toks: Seq<Seq<char>>, es: Seq<ExpModel>)
    requires
        forall|i: int| 0 <= i < es.len() ==> renderable(#[trigger] es[i]),
    ensures
        ({
            let st = scan((toks, Seq::empty()), render_items(es, ' '));
            flush(st.0, st.1) == toks + flat_tokens_of(es)
        }),
    decreases es,
{
    if es.len() == 0 {
        assert(render_items(es, ' ') =~= Seq::<char>::empty());
        assert(toks + flat_tokens_of(es) =~= toks);
    } else if es.len() == 1 {
        lemma_scan_render(toks, es[0]);
        assert(es.drop_first() =~= Seq::<ExpModel>::empty());
        assert(flat_tokens_of(es) == flat_tokens(es[0]) + flat_tokens_of(es.drop_first()));
        assert(flat_tokens(es[0]) + Seq::<Seq<char>>::empty() =~= flat_tokens(es[0]));
        assert(render_items(es, ' ') == render_model(es[0], ' '));
    } else {
        let a = render_items(es.drop_last(), ' ');
        let mid: Seq<char> = seq![' '];
        let b = render_model(es.last(), ' ');
        assert forall|i: int| 0 <= i < es.drop_last().len() implies renderable(
            #[trigger] es.drop_last()[i],
        ) by {
            assert(es.drop_last()[i] == es[i]);
        }
        lemma_scan_render_items(toks, es.drop_last());
        let st0: (Seq<Seq<char>>, Seq<char>) = (toks, Seq::empty());
        let st_a = scan(st0, a);
        lemma_scan_append(st0, a, mid);
        assert(mid.drop_last() =~= Seq::<char>::empty());
        assert(scan(st_a, Seq::<char>::empty()) == st_a);
        assert(mid.last() == ' ' && is_space(' '));
        assert(scan(st_a, mid) == (flush(st_a.0, st_a.1), Seq::<char>::empty()));
        lemma_scan_append(st0, a + mid, b);
        assert((a + mid) + b =~= render_items(es, ' '));
        assert(renderable(es.last()));
        lemma_scan_render(flush(st_a.0, st_a.1), es.last());
        lemma_flat_of_last(es);
        assert((toks + flat_tokens_of(es.drop_last())) + flat_tokens(es.last()) =~= toks
            + flat_tokens_of(es));
    }
}

proof fn lemma_first_token_not_close(e: ExpModel)
    requires
        renderable(e),
    ensures
        flat_tokens(e)[0] != ")"@,
    decreases e,
{
    lemma_paren_literals();
    match e {
        ExpModel::List(_) => {
            assert(flat_tokens(e)[0] == seq!['(']);
            if flat_tokens(e)[0] == ")"@ {
                assert(seq!['('][0] == ')');
            }
        },
        _ => {
            lemma_atom_text(e);
            let t = render_model(e, ' ');
            assert(flat_tokens(e)[0] == t);
            if t == ")"@ {
                assert(t[0] == ')');
            }
        },
    }
}

proof fn lemma_parse_flat(e: ExpModel, rest: Seq<Seq<char>>)
    requires
        renderable(e),
    ensures
        parse_model(flat_tokens(e) + rest) == Ok::<(ExpModel, Seq<Seq<char>>), ParseFault>(
            (e, rest),
        ),
    decreases e,
{
    lemma_paren_literals();
    let toks = flat_tokens(e) + rest;
    match e {
        ExpModel::List(es) => {
            assert(toks[0] == seq!['(']);
            assert(toks.drop_first() =~= flat_tokens_of(es) + seq![seq![')']] + rest);
            lemma_parse_list_flat(es, rest);
        },
        _ => {
            lemma_atom_text(e);
            let t = render_model(e, ' ');
            assert(toks[0] == t);
            assert(t != "("@) by {
                if t == "("@ {
                    assert(t[0] == '(');
                }
            }
            assert(t != ")"@) by {
                if t == ")"@ {
                    assert(t[0] == ')');
                }
            }
            assert(toks.drop_first() =~= rest);
        },
    }
}

proof fn lemma_parse_list_flat(es: Seq<ExpModel>, rest: Seq<Seq<char>>)
    requires
        forall|i: int| 0 <= i < es.len() ==> renderable(#[trigger] es[i]),
    ensures
        parse_list_model(flat_tokens_of(es) + seq![seq![')']] + rest) == Ok::<
            (Seq<ExpModel>, Seq<Seq<char>>),
            ParseFault,
        >((es, rest)),
    decreases es,
{
    lemma_paren_literals();
    let toks = flat_tokens_of(es) + seq![seq![')']] + rest;
    if es.len() == 0 {
        assert(toks[0] == seq![')']);
        assert(toks.drop_first() =~= rest);
        assert(Seq::<ExpModel>::empty() =~= es);
    } else {
        let tail = flat_tokens_of(es.drop_first()) + seq![seq![')']] + rest;
        assert(flat_tokens_of(es) == flat_tokens(es[0]) + flat_tokens_of(es.drop_first()));
        assert(toks =~= flat_tokens(es[0]) + tail);
        lemma_first_token_not_close(es[0]);
        assert(toks[0] == flat_tokens(es[0])[0]);
        lemma_parse_flat(es[0], tail);
        assert(flat_tokens(es[0]).len() >= 1) by {
            match es[0] {
                ExpModel::List(_) => {},
                _ => {},
            }
        }
        assert(tail.len() < toks.len());
        assert forall|i: int| 0 <= i < es.drop_first().len() implies renderable(
            #[trigger] es.drop_first()[i],
        ) by {
            assert(es.drop_first()[i] == es[i + 1]);
        }
        lemma_parse_list_flat(es.drop_first(), rest);
        assert(seq![es[0]] + es.drop_first() =~= es);
    }
}

/// Round trip: rendering an expression built purely from numbers,
/// booleans, symbols and lists to its source text, then tokenizing and
/// parsing that text, yields the structurally equal expression back with
/// no tokens left over.
pub proof fn lemma_render_parse_round_trip(e: ExpModel)
    requires
        renderable(e),
    ensures
        parse_model(tokens_model(render_model(e, ' '))) == Ok::<
            (ExpModel, Seq<Seq<char>>),
            ParseFault,
        >((e, Seq::empty())),
{
    lemma_scan_render(Seq::empty(), e);
    assert(tokens_model(render_model(e, ' ')) == Seq::<Seq<char>>::empty() + flat_tokens(e));
    assert(Seq::<Seq<char>>::empty() + flat_tokens(e) =~= flat_tokens(e));
    lemma_parse_flat(e, Seq::empty());
    assert(flat_tokens(e) + Seq::<Seq<char>>::empty() =~= flat_tokens(e));
}

} // verus!
