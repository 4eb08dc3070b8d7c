//! Which texts are literals: strings, numbers, `True`, `False`, `None`, and
//! tuples, lists and dicts of literals. Names, calls, attributes and
//! operators are not.
use vstd::prelude::*;
use vstd::string::StrSliceExecFns;
use crate::text::{same_text, trim, trim_str};
use crate::lex::{balanced, items_of, pieces, split_items, split_pieces};
use crate::params::{first_from, first_index, string_content, str_content};

verus! {

/// A digit of the base that `kind` names: `x` hexadecimal, `o` octal, `b`
/// binary (either case), anything else decimal.
pub open spec fn base_digit(c: char, kind: char) -> bool {
    if kind == 'x' || kind == 'X' {
        ('0' <= c && c <= '9') || ('a' <= c && c <= 'f') || ('A' <= c && c <= 'F')
    } else if kind == 'o' || kind == 'O' {
        '0' <= c && c <= '7'
    } else if kind == 'b' || kind == 'B' {
        c == '0' || c == '1'
    } else {
        '0' <= c && c <= '9'
    }
}

/// Whether index `t` of `s` is a digit, or a single `_` between two digits
/// (or, when `lead` holds, a `_` at `from` before a digit).
pub open spec fn group_ok(s: Seq<char>, kind: char, from: int, lead: bool, t: int) -> bool {
    base_digit(s[t], kind) || (s[t] == '_' && t + 1 < s.len() && base_digit(s[t + 1], kind) && (if t
        == from {
        lead
    } else {
        base_digit(s[t - 1], kind)
    }))
}

/// Whether `s[from..]` is a non-empty run of digits of the base `kind`,
/// grouped by single underscores.
pub open spec fn grouped(s: Seq<char>, kind: char, from: int, lead: bool) -> bool {
    0 <= from < s.len() && forall|t: int| from <= t < s.len() ==> #[trigger] group_ok(s, kind, from, lead, t)
}

/// The index of the first `e` or `E` in `s` at or after `i`, or -1.
pub open spec fn exp_from(s: Seq<char>, i: int) -> int
    decreases s.len() - i,
{
    if i < 0 || i >= s.len() {
        -1
    } else if s[i] == 'e' || s[i] == 'E' {
        i
    } else {
        exp_from(s, i + 1)
    }
}

/// The part of a number before its exponent: digits with at most one `.`,
/// and a digit on at least one side of it. A plain integer other than zero
/// has no leading zero.
pub open spec fn mantissa_ok(m: Seq<char>, integer: bool) -> bool {
    let d = first_from(m, '.', 0);
    if d < 0 {
        grouped(m, 'd', 0, false) && (integer ==> (m[0] != '0' || forall|t: int|
            0 <= t < m.len() ==> #[trigger] m[t] == '0' || m[t] == '_'))
    } else {
        let l = m.subrange(0, d);
        let r = m.subrange(d + 1, m.len() as int);
        &&& l.len() > 0 || r.len() > 0
        &&& l.len() == 0 || grouped(l, 'd', 0, false)
        &&& r.len() == 0 || grouped(r, 'd', 0, false)
    }
}

/// The exponent digits after `e`: an optional sign, then grouped digits.
pub open spec fn exponent_ok(x: Seq<char>) -> bool {
    let y = if x.len() > 0 && (x[0] == '+' || x[0] == '-') { x.drop_first() } else { x };
    grouped(y, 'd', 0, false)
}

/// `b` without a trailing `j` or `J`.
pub open spec fn real_part(b: Seq<char>) -> Seq<char> {
    if b.len() > 0 && (b.last() == 'j' || b.last() == 'J') { b.drop_last() } else { b }
}

/// A decimal, float or imaginary number without sign.
pub open spec fn decimal_number(b: Seq<char>) -> bool {
    let c = real_part(b);
    let ei = exp_from(c, 0);
    if ei < 0 {
        mantissa_ok(c, c.len() == b.len())
    } else {
        mantissa_ok(c.subrange(0, ei), false) && exponent_ok(c.subrange(ei + 1, c.len() as int))
    }
}

/// `e` without a leading `-` or `+`.
pub open spec fn unsigned_part(e: Seq<char>) -> Seq<char> {
    if e.len() > 0 && (e[0] == '-' || e[0] == '+') { e.subrange(1, e.len() as int) } else { e }
}

/// A number as Python writes it, with an optional sign: `0x`, `0o` or `0b`
/// and digits of that base, or decimal digits with an optional fraction,
/// exponent and imaginary `j`; underscores only between digits.
pub open spec fn number_text(e: Seq<char>) -> bool {
    let b = unsigned_part(e);
    if b.len() >= 2 && b[0] == '0' && (b[1] == 'x' || b[1] == 'X' || b[1] == 'o' || b[1] == 'O' || b[1]
        == 'b' || b[1] == 'B') {
        grouped(b, b[1], 2, true)
    } else {
        decimal_number(b)
    }
}

/// The key and value of a dict entry `key: value`, each trimmed.
pub open spec fn entry_parts(x: Seq<char>) -> Option<(Seq<char>, Seq<char>)> {
    if balanced(x) && pieces(x, ':').len() == 2 {
        Some((trim(pieces(x, ':')[0]), trim(pieces(x, ':')[1])))
    } else {
        None
    }
}

/// Whether `e` is a literal.
pub open spec fn literal(e: Seq<char>) -> bool
    decreases e.len(), 2nat, 0nat,
{
    let inner = e.subrange(1, e.len() - 1);
    if str_content(e) is Some || number_text(e) || e == "True"@ || e == "False"@ || e == "None"@ {
        true
    } else if e.len() >= 2 && ((e[0] == '[' && e.last() == ']') || (e[0] == '(' && e.last() == ')')) {
        match items_of(inner) {
            Some(xs) => all_literal(xs, e.len()),
            None => false,
        }
    } else if e.len() >= 2 && e[0] == '{' && e.last() == '}' {
        match items_of(inner) {
            Some(xs) => all_entries(xs, e.len()),
            None => false,
        }
    } else {
        false
    }
}

/// Whether every text of `xs` is a literal shorter than `b`.
pub open spec fn all_literal(xs: Seq<Seq<char>>, b: nat) -> bool
    decreases b, 1nat, xs.len(),
{
    xs.len() == 0 || (xs[0].len() < b && literal(xs[0]) && all_literal(xs.drop_first(), b))
}

/// Whether `x` is a dict entry whose key and value are literals shorter than `b`.
pub open spec fn entry_ok(x: Seq<char>, b: nat) -> bool
    decreases b, 0nat, 0nat,
{
    match entry_parts(x) {
        Some(kv) => kv.0.len() < b && kv.1.len() < b && literal(kv.0) && literal(kv.1),
        None => false,
    }
}

/// Whether every text of `xs` is a dict entry whose key and value are
/// literals shorter than `b`.
pub open spec fn all_entries(xs: Seq<Seq<char>>, b: nat) -> bool
    decreases b, 1nat, xs.len(),
{
    xs.len() == 0 || (entry_ok(xs[0], b) && all_entries(xs.drop_first(), b))
}

proof fn lemma_all_literal(xs: Seq<Seq<char>>, b: nat)
    ensures
        all_literal(xs, b) <==> forall|k: int| 0 <= k < xs.len() ==> (#[trigger] xs[k]).len() < b && literal(xs[k]),
    decreases xs.len(),
{
    if xs.len() > 0 {
        lemma_all_literal(xs.drop_first(), b);
        if all_literal(xs, b) {
            assert forall|k: int| 0 <= k < xs.len() implies (#[trigger] xs[k]).len() < b && literal(xs[k]) by {
                if k > 0 {
                    assert(xs[k] == xs.drop_first()[k - 1]);
                }
            }
        }
        if forall|k: int| 0 <= k < xs.len() ==> (#[trigger] xs[k]).len() < b && literal(xs[k]) {
            assert forall|k: int| 0 <= k < xs.drop_first().len() implies (#[trigger] xs.drop_first()[k]).len() < b
                && literal(xs.drop_first()[k]) by {
                assert(xs.drop_first()[k] == xs[k + 1]);
            }
        }
    }
}

proof fn lemma_all_entries(xs: Seq<Seq<char>>, b: nat)
    ensures
        all_entries(xs, b) <==> forall|k: int| 0 <= k < xs.len() ==> entry_ok(#[trigger] xs[k], b),
    decreases xs.len(),
{
    if xs.len() > 0 {
        lemma_all_entries(xs.drop_first(), b);
        if all_entries(xs, b) {
            assert forall|k: int| 0 <= k < xs.len() implies entry_ok(#[trigger] xs[k], b) by {
                if k > 0 {
                    assert(xs[k] == xs.drop_first()[k - 1]);
                }
            }
        }
        if forall|k: int| 0 <= k < xs.len() ==> entry_ok(#[trigger] xs[k], b) {
            assert forall|k: int| 0 <= k < xs.drop_first().len() implies entry_ok(
                #[trigger] xs.drop_first()[k],
                b,
            ) by {
                assert(xs.drop_first()[k] == xs[k + 1]);
            }
        }
    }
}

fn is_base_digit(c: char, kind: char) -> (r: bool)
    ensures
        r == base_digit(c, kind),
{
    if kind == 'x' || kind == 'X' {
        ('0' <= c && c <= '9') || ('a' <= c && c <= 'f') || ('A' <= c && c <= 'F')
    } else if kind == 'o' || kind == 'O' {
        '0' <= c && c <= '7'
    } else if kind == 'b' || kind == 'B' {
        c == '0' || c == '1'
    } else {
        '0' <= c && c <= '9'
    }
}

/// Whether `s[from..]` is a non-empty run of digits of the base `kind`,
/// grouped by single underscores.
pub fn is_grouped(s: &str, kind: char, from: usize, lead: bool) -> (r: bool)
    ensures
        r == grouped(s@, kind, from as int, lead),
{
    let n = s.unicode_len();
    if from >= n {
        return false;
    }
    let mut t: usize = from;
    while t < n
        invariant
            n == s@.len(),
            from < n,
            from <= t <= n,
            forall|u: int| from <= u < t ==> #[trigger] group_ok(s@, kind, from as int, lead, u),
        decreases n - t,
    {
        let c = s.get_char(t);
        let ok = if is_base_digit(c, kind) {
            true
        } else if c == '_' && t + 1 < n && is_base_digit(s.get_char(t + 1), kind) {
            if t == from {
                lead
            } else {
                is_base_digit(s.get_char(t - 1), kind)
            }
        } else {
            false
        };
        if !ok {
            assert(!group_ok(s@, kind, from as int, lead, t as int));
            return false;
        }
        t = t + 1;
    }
    true
}

proof fn lemma_exp_from_range(s: Seq<char>, i: int)
    ensures
        exp_from(s, i) == -1 || (i <= exp_from(s, i) < s.len()),
    decreases s.len() - i,
{
    if 0 <= i < s.len() && s[i] != 'e' && s[i] != 'E' {
        lemma_exp_from_range(s, i + 1);
    }
}

/// The index of the first `e` or `E` in `s`.
fn exp_index(s: &str) -> (r: Option<usize>)
    ensures
        match r {
            Some(k) => exp_from(s@, 0) == k as int && k < s@.len(),
            None => exp_from(s@, 0) == -1,
        },
{
    let n = s.unicode_len();
    let mut i: usize = 0;
    while i < n
        invariant
            n == s@.len(),
            i <= n,
            exp_from(s@, i as int) == exp_from(s@, 0),
        decreases n - i,
    {
        let c = s.get_char(i);
        if c == 'e' || c == 'E' {
            proof {
                lemma_exp_from_range(s@, 0);
            }
            return Some(i);
        }
        i = i + 1;
    }
    None
}

/// Whether `m` is the part of a number before its exponent.
fn is_mantissa(m: &str, integer: bool) -> (r: bool)
    ensures
        r == mantissa_ok(m@, integer),
{
    let n = m.unicode_len();
    match first_index(m, '.') {
        None => {
            if !is_grouped(m, 'd', 0, false) {
                return false;
            }
            if !integer || m.get_char(0) != '0' {
                return true;
            }
            let mut t: usize = 0;
            while t < n
                invariant
                    n == m@.len(),
                    t <= n,
                    integer,
                    m@[0] == '0',
                    grouped(m@, 'd', 0, false),
                    first_from(m@, '.', 0) < 0,
                    forall|u: int| 0 <= u < t ==> #[trigger] m@[u] == '0' || m@[u] == '_',
                decreases n - t,
            {
                let c = m.get_char(t);
                if c != '0' && c != '_' {
                    assert(!(m@[t as int] == '0' || m@[t as int] == '_'));
                    return false;
                }
                t = t + 1;
            }
            true
        },
        Some(d) => {
            let l = m.substring_char(0, d);
            let r = m.substring_char(d + 1, n);
            let ll = l.unicode_len();
            let rl = r.unicode_len();
            (ll > 0 || rl > 0) && (ll == 0 || is_grouped(l, 'd', 0, false)) && (rl == 0 || is_grouped(
                r,
                'd',
                0,
                false,
            ))
        },
    }
}

/// Whether `x` is the digits of an exponent.
fn is_exponent(x: &str) -> (r: bool)
    ensures
        r == exponent_ok(x@),
{
    let n = x.unicode_len();
    let start: usize = if n > 0 && (x.get_char(0) == '+' || x.get_char(0) == '-') { 1 } else { 0 };
    let y = x.substring_char(start, n);
    assert(y@ =~= (if x@.len() > 0 && (x@[0] == '+' || x@[0] == '-') { x@.drop_first() } else { x@ }));
    is_grouped(y, 'd', 0, false)
}

/// Whether `b` is a decimal, float or imaginary number without sign.
fn is_decimal_number(b: &str) -> (r: bool)
    ensures
        r == decimal_number(b@),
{
    let n = b.unicode_len();
    let c = if n > 0 && (b.get_char(n - 1) == 'j' || b.get_char(n - 1) == 'J') {
        b.substring_char(0, n - 1)
    } else {
        b.substring_char(0, n)
    };
    assert(c@ =~= real_part(b@));
    let cl = c.unicode_len();
    match exp_index(c) {
        None => is_mantissa(c, cl == n),
        Some(ei) => is_mantissa(c.substring_char(0, ei), false) && is_exponent(c.substring_char(ei + 1, cl)),
    }
}

/// Whether `e` is a number.
pub fn is_number(e: &str) -> (r: bool)
    ensures
        r == number_text(e@),
{
    let n = e.unicode_len();
    let start: usize = if n > 0 && (e.get_char(0) == '-' || e.get_char(0) == '+') { 1 } else { 0 };
    let b = e.substring_char(start, n);
    assert(b@ =~= unsigned_part(e@));
    let m = b.unicode_len();
    if m >= 2 && b.get_char(0) == '0' {
        let k = b.get_char(1);
        if k == 'x' || k == 'X' || k == 'o' || k == 'O' || k == 'b' || k == 'B' {
            return is_grouped(b, k, 2, true);
        }
    }
    is_decimal_number(b)
}

/// The key and value of the dict entry `x`.
pub fn entry_split(x: &str) -> (r: Option<(String, String)>)
    ensures
        match r {
            Some((k, v)) => entry_parts(x@) == Some((k@, v@)),
            None => entry_parts(x@) is None,
        },
{
    match split_pieces(x, ':') {
        Some(ps) => {
            if ps.len() != 2 {
                return None;
            }
            let k = trim_str(ps[0].as_str());
            let v = trim_str(ps[1].as_str());
            Some((String::from_str(k), String::from_str(v)))
        },
        None => None,
    }
}

/// Whether `e` is a literal.
pub fn is_literal(e: &str) -> (r: bool)
    ensures
        r == literal(e@),
    decreases e@.len(),
{
    proof {
        reveal_strlit("True");
        reveal_strlit("False");
        reveal_strlit("None");
    }
    if string_content(e).is_some() || is_number(e) || same_text(e, "True") || same_text(e, "False")
        || same_text(e, "None") {
        return true;
    }
    let n = e.unicode_len();
    if n < 2 {
        return false;
    }
    let first = e.get_char(0);
    let last = e.get_char(n - 1);
    let inner = e.substring_char(1, n - 1);
    let sequence = (first == '[' && last == ']') || (first == '(' && last == ')');
    let mapping = first == '{' && last == '}';
    if !sequence && !mapping {
        return false;
    }
    let xs = match split_items(inner) {
        Some((xs, _)) => xs,
        None => return false,
    };
    let ghost dv = xs.deep_view();
    let mut k: usize = 0;
    while k < xs.len()
        invariant
            dv == xs.deep_view(),
            n == e@.len(),
            n >= 2,
            items_of(e@.subrange(1, n - 1)) == Some(dv),
            !(str_content(e@) is Some || number_text(e@) || e@ == "True"@ || e@ == "False"@ || e@ == "None"@),
            sequence == ((e@[0] == '[' && e@.last() == ']') || (e@[0] == '(' && e@.last() == ')')),
            !sequence ==> e@[0] == '{' && e@.last() == '}',
            k <= xs.len(),
            sequence ==> forall|t: int| 0 <= t < k ==> (#[trigger] dv[t]).len() < n && literal(dv[t]),
            !sequence ==> forall|t: int| 0 <= t < k ==> entry_ok(#[trigger] dv[t], n as nat),
        decreases xs.len() - k,
    {
        let x = xs[k].as_str();
        assert(x@ == dv[k as int]);
        if sequence {
            if x.unicode_len() >= n || !is_literal(x) {
                proof {
                    lemma_all_literal(dv, n as nat);
                }
                return false;
            }
        } else {
            let ok = match entry_split(x) {
                Some((key, value)) => key.as_str().unicode_len() < n && value.as_str().unicode_len() < n
                    && is_literal(key.as_str()) && is_literal(value.as_str()),
                None => false,
            };
            if !ok {
                assert(!entry_ok(dv[k as int], n as nat));
                proof {
                    lemma_all_entries(dv, n as nat);
                }
                return false;
            }
        }
        k = k + 1;
    }
    proof {
        lemma_all_literal(dv, n as nat);
        lemma_all_entries(dv, n as nat);
    }
    true
}

} // verus!
