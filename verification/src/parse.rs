//! The parser: recursive descent over the token sequence, building an
//! expression tree and classifying atoms into booleans, numbers and
//! symbols.

use vstd::prelude::*;
use crate::exp::{lemma_list_model, models_of, ExpModel, Expression};
use crate::fault::ParseFault;
use crate::num::{is_num_token, num_val, parse_number_token};
use crate::text::str_eq;
use crate::token::token_views;

verus! {

/// Atom classification, total and in priority order: the boolean
/// literals first, then a numeric token, then a symbol.
pub open spec fn atom_model(t: Seq<char>) -> ExpModel {
    if t == "true"@ {
        ExpModel::Bool(true)
    } else if t == "false"@ {
        ExpModel::Bool(false)
    } else if is_num_token(t) {
        ExpModel::Num(num_val(t))
    } else {
        ExpModel::Sym(t)
    }
}

/// The parse of the first expression of a token sequence: `Ok` carries
/// the expression and the remaining tokens; parsing fails on an empty
/// sequence, on a lone closing parenthesis, and on a list whose tokens
/// run out before the matching closing parenthesis.
pub open spec fn parse_model(toks: Seq<Seq<char>>) -> Result<
    (ExpModel, Seq<Seq<char>>),
    ParseFault,
>
    decreases toks.len(), 0nat,
{
    if toks.len() == 0 {
        Err(ParseFault::MissingExpression)
    } else if toks[0] == "("@ {
        match parse_list_model(toks.drop_first()) {
            Ok((es, rest)) => Ok((ExpModel::List(es), rest)),
            Err(f) => Err(f),
        }
    } else if toks[0] == ")"@ {
        Err(ParseFault::UnexpectedClose)
    } else {
        Ok((atom_model(toks[0]), toks.drop_first()))
    }
}

/// The parse of list elements up to the closing parenthesis, which is
/// consumed.
pub open spec fn parse_list_model(toks: Seq<Seq<char>>) -> Result<
    (Seq<ExpModel>, Seq<Seq<char>>),
    ParseFault,
>
    decreases toks.len(), 1nat,
{
    if toks.len() == 0 {
        Err(ParseFault::UnterminatedList)
    } else if toks[0] == ")"@ {
        Ok((Seq::empty(), toks.drop_first()))
    } else {
        match parse_model(toks) {
            Ok((e, rest)) => if rest.len() < toks.len() {
                match parse_list_model(rest) {
                    Ok((es, rest2)) => Ok((seq![e] + es, rest2)),
                    Err(f) => Err(f),
                }
            } else {
                // never reached: a successful parse consumes at least one
                // token, so the guard above always holds
                Err(ParseFault::UnterminatedList)
            },
            Err(f) => Err(f),
        }
    }
}

/// Classifies one token: the literals `true` and `false`, else a number
/// when the token reads as one, else a symbol.
pub fn parse_atom(token: &String) -> (r: Expression)
    ensures
        r.model() == atom_model(token@),
{
    if str_eq(token.as_str(), "true") {
        Expression::Bool(true)
    } else if str_eq(token.as_str(), "false") {
        Expression::Bool(false)
    } else {
        match parse_number_token(token.as_str()) {
            Some(v) => Expression::Num(v),
            None => Expression::Sym(token.clone()),
        }
    }
}

/// Parses the first expression found at `pos`, returning it with the
/// index of the first token after it.
pub fn parse(tokens: &Vec<String>, pos: usize) -> (r: Result<(Expression, usize), ParseFault>)
    requires
        pos <= tokens@.len(),
    ensures
        match r {
            Ok((e, npos)) => {
                &&& pos < npos <= tokens@.len()
                &&& parse_model(token_views(tokens@).skip(pos as int)) == Ok::<_, ParseFault>(
                    (e.model(), token_views(tokens@).skip(npos as int)),
                )
            },
            Err(f) => parse_model(token_views(tokens@).skip(pos as int)) == Err::<
                (ExpModel, Seq<Seq<char>>),
                _,
            >(f),
        },
    decreases tokens@.len() - pos, 0nat,
{
    let ghost sfx = token_views(tokens@).skip(pos as int);
    if pos >= tokens.len() {
        return Err(ParseFault::MissingExpression);
    }
    proof {
        assert(sfx[0] == tokens@[pos as int]@);
        assert(sfx.drop_first() =~= token_views(tokens@).skip(pos as int + 1));
    }
    let t = &tokens[pos];
    if str_eq(t.as_str(), "(") {
        match parse_list(tokens, pos + 1) {
            Ok((es, npos)) => {
                let r = Expression::List(es);
                proof {
                    lemma_list_model(r->List_0);
                }
                Ok((r, npos))
            },
            Err(f) => Err(f),
        }
    } else if str_eq(t.as_str(), ")") {
        Err(ParseFault::UnexpectedClose)
    } else {
        let e = parse_atom(t);
        Ok((e, pos + 1))
    }
}

/// Parses list elements until the closing parenthesis, consuming it.
pub fn parse_list(tokens: &Vec<String>, pos: usize) -> (r: Result<
    (Vec<Expression>, usize),
    ParseFault,
>)
    requires
        pos <= tokens@.len(),
    ensures
        match r {
            Ok((es, npos)) => {
                &&& pos < npos <= tokens@.len()
                &&& parse_list_model(token_views(tokens@).skip(pos as int)) == Ok::<_, ParseFault>(
                    (models_of(es@), token_views(tokens@).skip(npos as int)),
                )
            },
            Err(f) => parse_list_model(token_views(tokens@).skip(pos as int)) == Err::<
                (Seq<ExpModel>, Seq<Seq<char>>),
                _,
            >(f),
        },
    decreases tokens@.len() - pos, 1nat,
{
    let ghost whole = token_views(tokens@).skip(pos as int);
    let mut list: Vec<Expression> = Vec::new();
    let mut p: usize = pos;
    proof {
        assert(models_of(list@) =~= Seq::<ExpModel>::empty());
        match parse_list_model(whole) {
            Ok((es, rest)) => {
                assert(models_of(list@) + es =~= es);
            },
            Err(_) => {},
        }
    }
    loop
        invariant
            pos <= p <= tokens@.len(),
            whole == token_views(tokens@).skip(pos as int),
            parse_list_model(whole) == (match parse_list_model(
                token_views(tokens@).skip(p as int),
            ) {
                Ok((es, rest)) => Ok::<_, ParseFault>((models_of(list@) + es, rest)),
                Err(f) => Err(f),
            }),
        decreases tokens@.len() - p,
    {
        let ghost cur = token_views(tokens@).skip(p as int);
        if p >= tokens.len() {
            return Err(ParseFault::UnterminatedList);
        }
        proof {
            assert(cur[0] == tokens@[p as int]@);
            assert(cur.drop_first() =~= token_views(tokens@).skip(p as int + 1));
        }
        if str_eq(tokens[p].as_str(), ")") {
            proof {
                assert(models_of(list@) + Seq::<ExpModel>::empty() =~= models_of(list@));
            }
            return Ok((list, p + 1));
        }
        match parse(tokens, p) {
            Ok((e, np)) => {
                proof {
                    let ghost nxt = parse_list_model(token_views(tokens@).skip(np as int));
                    let ghost em = e.model();
                    match nxt {
                        Ok((es, rest)) => {
                            assert(models_of(list@.push(e)) =~= models_of(list@).push(em));
                            assert(models_of(list@) + (seq![em] + es) =~= (models_of(
                                list@,
                            ).push(em) + es));
                        },
                        Err(_) => {},
                    }
                }
                list.push(e);
                p = np;
            },
            Err(f) => {
                return Err(f);
            },
        }
    }
}

} // verus!
