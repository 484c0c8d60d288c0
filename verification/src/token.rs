//! The tokenizer: splits raw input text into a flat sequence of string
//! tokens, treating each parenthesis as a standalone token and splitting
//! everything else on whitespace runs.

use vstd::prelude::*;
use crate::text::push_char;

verus! {

/// Whitespace for token splitting.
pub open spec fn is_space(c: char) -> bool {
    c == ' ' || c == '\t' || c == '\n' || c == '\r'
}

/// Emits the current partial atom as a token if it is nonempty.
pub open spec fn flush(toks: Seq<Seq<char>>, cur: Seq<char>) -> Seq<Seq<char>> {
    if cur.len() == 0 {
        toks
    } else {
        toks.push(cur)
    }
}

/// Scans characters left to right from a state of already-emitted tokens
/// and a partial atom: a parenthesis stands alone as a token, whitespace
/// ends the current atom, any other character extends it.
pub open spec fn scan(st: (Seq<Seq<char>>, Seq<char>), s: Seq<char>) -> (Seq<Seq<char>>, Seq<char>)
    decreases s.len(),
{
    if s.len() == 0 {
        st
    } else {
        let prev = scan(st, s.drop_last());
        let c = s.last();
        if c == '(' || c == ')' {
            (flush(prev.0, prev.1).push(seq![c]), Seq::empty())
        } else if is_space(c) {
            (flush(prev.0, prev.1), Seq::empty())
        } else {
            (prev.0, prev.1.push(c))
        }
    }
}

/// The token sequence of a text: the result of scanning it whole, with a
/// final flush of the last atom.
pub open spec fn tokens_model(s: Seq<char>) -> Seq<Seq<char>> {
    let st = scan((Seq::empty(), Seq::empty()), s);
    flush(st.0, st.1)
}

/// The character sequences of a vector of tokens.
pub open spec fn token_views(toks: Seq<String>) -> Seq<Seq<char>> {
    Seq::new(toks.len(), |i: int| if 0 <= i < toks.len() {
        toks[i]@
    } else {
        Seq::empty()
    })
}

/// Splits input text into tokens.  The output preserves the left-to-right
/// order of parentheses and atoms and is purely a function of the text.
pub fn tokenise(exp: String) -> (r: Vec<String>)
    ensures
        token_views(r@) == tokens_model(exp@),
{
    let text = exp.as_str();
    let n = text.unicode_len();
    let mut toks: Vec<String> = Vec::new();
    let mut cur = String::new();
    let mut i: usize = 0;
    proof {
        assert(token_views(toks@) =~= Seq::<Seq<char>>::empty());
        assert(text@.take(0) =~= Seq::<char>::empty());
    }
    while i < n
        invariant
            i <= n,
            n == text@.len(),
            text@ == exp@,
            token_views(toks@) == scan((Seq::empty(), Seq::empty()), text@.take(i as int)).0,
            cur@ == scan((Seq::empty(), Seq::empty()), text@.take(i as int)).1,
        decreases n - i,
    {
        let ghost prefix = text@.take(i as int);
        let c = text.get_char(i);
        proof {
            assert(text@.take(i + 1).drop_last() =~= prefix);
            assert(text@.take(i + 1).last() == c);
        }
        if c == '(' || c == ')' {
            let done = cur;
            let ghost donev = done@;
            cur = String::new();
            let ghost before = token_views(toks@);
            if !done.as_str().is_empty() {
                toks.push(done);
                proof {
                    assert(token_views(toks@) =~= flush(before, donev));
                }
            }
            let ghost flushed = token_views(toks@);
            let mut paren = String::new();
            push_char(&mut paren, c);
            proof {
                assert(paren@ =~= seq![c]);
            }
            toks.push(paren);
            proof {
                assert(token_views(toks@) =~= flushed.push(seq![c]));
            }
        } else if c == ' ' || c == '\t' || c == '\n' || c == '\r' {
            let done = cur;
            let ghost donev = done@;
            cur = String::new();
            let ghost before = token_views(toks@);
            if !done.as_str().is_empty() {
                toks.push(done);
                proof {
                    assert(token_views(toks@) =~= flush(before, donev));
                }
            }
        } else {
            push_char(&mut cur, c);
        }
        i = i + 1;
    }
    proof {
        assert(text@.take(n as int) =~= text@);
    }
    let ghost before = token_views(toks@);
    let ghost curv = cur@;
    if !cur.as_str().is_empty() {
        toks.push(cur);
        proof {
            assert(token_views(toks@) =~= flush(before, curv));
        }
    }
    toks
}

} // verus!
