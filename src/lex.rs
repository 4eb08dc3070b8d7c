//! Splitting argument text at its top-level separators, with brackets and
//! quoted strings kept whole.
use vstd::prelude::*;
use vstd::string::{StrSliceExecFns, StringExecFns};
use crate::text::{trim, trim_str};

verus! {

/// The lexical state after one more character: bracket depth, the quote
/// that is open if any, and whether a backslash inside that string escapes
/// the next character. Brackets of the three kinds count alike; inside a
/// string nothing counts but its closing quote.
pub open spec fn lex_step(st: (int, Option<char>, bool), c: char) -> (int, Option<char>, bool) {
    match st.1 {
        Some(q) => if st.2 {
            (st.0, Some(q), false)
        } else if c == '\\' {
            (st.0, Some(q), true)
        } else if c == q {
            (st.0, None, false)
        } else {
            st
        },
        None => if c == '"' || c == '\'' {
            (st.0, Some(c), false)
        } else if c == '(' || c == '[' || c == '{' {
            (st.0 + 1, None, false)
        } else if c == ')' || c == ']' || c == '}' {
            (st.0 - 1, None, false)
        } else {
            st
        },
    }
}

/// The lexical state before index `i` of `s`.
pub open spec fn lex(s: Seq<char>, i: int) -> (int, Option<char>, bool)
    decreases i,
{
    if i <= 0 {
        (0, None, false)
    } else {
        lex_step(lex(s, i - 1), s[i - 1])
    }
}

/// Brackets never close more than they opened, and all brackets and strings
/// are closed at the end.
pub open spec fn balanced(s: Seq<char>) -> bool {
    &&& forall|i: int| 0 <= i <= s.len() ==> #[trigger] lex(s, i).0 >= 0
    &&& lex(s, s.len() as int) == (0int, None::<char>, false)
}

/// Whether index `i` of `s` is the separator `sep` outside any bracket or string.
pub open spec fn top_sep(s: Seq<char>, i: int, sep: char) -> bool {
    s[i] == sep && lex(s, i) == (0int, None::<char>, false)
}

/// The pieces of `s[..i]` that end at a top-level `sep`, and where the
/// current piece starts.
pub open spec fn pieces_upto(s: Seq<char>, i: int, sep: char) -> (Seq<Seq<char>>, int)
    decreases i,
{
    if i <= 0 {
        (Seq::empty(), 0)
    } else {
        let (ps, st) = pieces_upto(s, i - 1, sep);
        if top_sep(s, i - 1, sep) {
            (ps.push(s.subrange(st, i - 1)), i)
        } else {
            (ps, st)
        }
    }
}

/// `s` cut at each top-level `sep`; there is always at least one piece.
pub open spec fn pieces(s: Seq<char>, sep: char) -> Seq<Seq<char>> {
    let (ps, st) = pieces_upto(s, s.len() as int, sep);
    ps.push(s.subrange(st, s.len() as int))
}

/// The trimmed pieces of `s`, without the empty one a trailing comma leaves.
pub open spec fn trimmed_items(s: Seq<char>) -> Seq<Seq<char>> {
    let ps = pieces(s, ',').map_values(|p: Seq<char>| trim(p));
    if ps.last().len() == 0 {
        ps.drop_last()
    } else {
        ps
    }
}

/// The comma-separated items of `s`: `None` when `s` is unbalanced or an
/// item is empty. An empty `s` has no items, and one trailing comma is allowed.
pub open spec fn items_of(s: Seq<char>) -> Option<Seq<Seq<char>>> {
    let xs = trimmed_items(s);
    if !balanced(s) {
        None
    } else if exists|k: int| 0 <= k < xs.len() && (#[trigger] xs[k]).len() == 0 {
        None
    } else {
        Some(xs)
    }
}

proof fn lemma_pieces_start(s: Seq<char>, i: int, sep: char)
    requires
        0 <= i <= s.len(),
    ensures
        0 <= pieces_upto(s, i, sep).1 <= i,
    decreases i,
{
    if i > 0 {
        lemma_pieces_start(s, i - 1, sep);
    }
}

/// Cuts `s` at its top-level `sep`; `None` when `s` is unbalanced.
pub fn split_pieces(s: &str, sep: char) -> (r: Option<Vec<String>>)
    ensures
        r is Some <==> balanced(s@),
        r matches Some(v) ==> v.deep_view() == pieces(s@, sep),
{
    let n = s.unicode_len();
    let mut depth: usize = 0;
    let mut quote: Option<char> = None;
    let mut escaped = false;
    let mut start: usize = 0;
    let mut out: Vec<String> = Vec::new();
    let mut i: usize = 0;
    while i < n
        invariant
            n == s@.len(),
            i <= n,
            depth <= i,
            lex(s@, i as int) == (depth as int, quote, escaped),
            quote is None ==> !escaped,
            forall|t: int| 0 <= t <= i ==> #[trigger] lex(s@, t).0 >= 0,
            pieces_upto(s@, i as int, sep) == (out.deep_view(), start as int),
        decreases n - i,
    {
        proof {
            lemma_pieces_start(s@, i as int, sep);
        }
        let c = s.get_char(i);
        let ghost old_out = out.deep_view();
        if quote.is_none() && !escaped && c == sep && depth == 0 {
            let p = String::from_str(s.substring_char(start, i));
            out.push(p);
            start = i + 1;
            proof {
                assert(out.deep_view() =~= old_out.push(s@.subrange(pieces_upto(s@, i as int, sep).1, i as int)));
            }
        }
        match quote {
            Some(q) => {
                if escaped {
                    escaped = false;
                } else if c == '\\' {
                    escaped = true;
                } else if c == q {
                    quote = None;
                }
            },
            None => {
                if c == '"' || c == '\'' {
                    quote = Some(c);
                } else if c == '(' || c == '[' || c == '{' {
                    depth = depth + 1;
                } else if c == ')' || c == ']' || c == '}' {
                    if depth == 0 {
                        assert(lex(s@, i + 1).0 < 0);
                        return None;
                    }
                    depth = depth - 1;
                }
            },
        }
        i = i + 1;
        assert forall|t: int| 0 <= t <= i implies #[trigger] lex(s@, t).0 >= 0 by {
            if t == i {
                assert(lex(s@, t) == (depth as int, quote, escaped));
            }
        }
    }
    if depth != 0 || quote.is_some() || escaped {
        return None;
    }
    proof {
        lemma_pieces_start(s@, n as int, sep);
    }
    let last = String::from_str(s.substring_char(start, n));
    let ghost before = out.deep_view();
    out.push(last);
    assert(out.deep_view() =~= before.push(s@.subrange(start as int, n as int)));
    Some(out)
}

/// The comma-separated items of `s`, each trimmed, and the number of pieces
/// the top-level commas cut `s` into.
pub fn split_items(s: &str) -> (r: Option<(Vec<String>, usize)>)
    ensures
        r is Some <==> items_of(s@) is Some,
        r matches Some((v, n)) ==> items_of(s@) == Some(v.deep_view()) && n == pieces(s@, ',').len(),
{
    let ps = match split_pieces(s, ',') {
        Some(ps) => ps,
        None => return None,
    };
    let ghost tp = pieces(s@, ',').map_values(|p: Seq<char>| trim(p));
    let mut out: Vec<String> = Vec::new();
    let mut k: usize = 0;
    while k < ps.len()
        invariant
            ps.deep_view() == pieces(s@, ','),
            tp == pieces(s@, ',').map_values(|p: Seq<char>| trim(p)),
            k <= ps.len(),
            out.deep_view() =~= tp.subrange(0, k as int),
        decreases ps.len() - k,
    {
        let t = String::from_str(trim_str(ps[k].as_str()));
        let ghost before = out.deep_view();
        out.push(t);
        assert(out.deep_view() =~= before.push(tp[k as int]));
        k = k + 1;
    }
    assert(out.deep_view() =~= tp);
    let count = out.len();
    if out[count - 1].as_str().unicode_len() == 0 {
        out.pop();
        assert(out.deep_view() =~= tp.drop_last());
    }
    let ghost xs = out.deep_view();
    assert(xs == trimmed_items(s@));
    let mut j: usize = 0;
    while j < out.len()
        invariant
            xs == out.deep_view(),
            xs == trimmed_items(s@),
            balanced(s@),
            j <= out.len(),
            forall|t: int| 0 <= t < j ==> (#[trigger] xs[t]).len() != 0,
        decreases out.len() - j,
    {
        if out[j].as_str().unicode_len() == 0 {
            assert(xs[j as int].len() == 0);
            return None;
        }
        j = j + 1;
    }
    Some((out, count))
}

} // verus!
