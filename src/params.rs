//! Parsing the argument text of a parametrize decorator into argument names,
//! value rows and optional labels. Values are kept as their source text:
//! nothing in the decorator is ever evaluated.
use vstd::prelude::*;
use vstd::string::{StrSliceExecFns, StringExecFns};
use crate::text::{contains_str, contains_seq, trim, trim_str};
use crate::lex::{items_of, pieces, split_items};
use crate::literal::{entry_parts, entry_split, is_literal, literal};

verus! {

/// Why a parametrize decorator was refused.
#[derive(Debug, Clone, Copy, PartialEq, Eq, Structural)]
pub enum ParamError {
    /// The line has no `(`, no `)`, or its last `)` does not follow its first `(`.
    MalformedDecorator,
    /// The argument text has unbalanced brackets or strings, an empty
    /// argument, or an argument that is not a literal.
    InvalidLiteral,
    /// Fewer than two positional arguments.
    MissingArguments,
    /// The names are neither a string nor a non-empty tuple or list of strings.
    InvalidArgNames,
    /// The values are not a list of rows, each as long as the names.
    InvalidArgValues,
    /// The third argument is no dict and the arguments after the first two
    /// are not all `key=value`, or `ids` is not a list of strings.
    InvalidOptions,
    /// The labels are not as many as the rows.
    IdsMismatch,
}

/// The model of a parameter set.
pub struct ParamsView {
    pub names: Seq<Seq<char>>,
    pub rows: Seq<Seq<Seq<char>>>,
    pub ids: Option<Seq<Seq<char>>>,
}

/// A parameter set: argument names, one row of value texts per test, and
/// optional labels for the rows.
#[derive(Debug, Clone)]
pub struct Parameters {
    pub argnames: Vec<String>,
    pub argvalues: Vec<Vec<String>>,
    pub ids: Option<Vec<String>>,
}

pub open spec fn opt_strings_view(v: Option<Vec<String>>) -> Option<Seq<Seq<char>>> {
    match v {
        Some(x) => Some(x.deep_view()),
        None => None,
    }
}

impl View for Parameters {
    type V = ParamsView;

    open spec fn view(&self) -> ParamsView {
        ParamsView {
            names: self.argnames.deep_view(),
            rows: self.argvalues.deep_view(),
            ids: opt_strings_view(self.ids),
        }
    }
}

/// A string prefix letter (`r`, `b` or `u`, in either case).
pub open spec fn prefix_char(c: char) -> bool {
    c == 'r' || c == 'R' || c == 'b' || c == 'B' || c == 'u' || c == 'U'
}

/// Whether the two letters `a`, `b` are the prefix `br` or `rb`, in any case.
pub open spec fn raw_bytes_prefix(a: char, b: char) -> bool {
    ((a == 'b' || a == 'B') && (b == 'r' || b == 'R')) || ((a == 'r' || a == 'R') && (b == 'b' || b == 'B'))
}

/// The length of the string prefix that `e` opens with: `br` or `rb`, or one
/// of `r`, `b`, `u`, in any case.
pub open spec fn prefix_len(e: Seq<char>) -> int {
    if e.len() > 1 && raw_bytes_prefix(e[0], e[1]) {
        2
    } else if e.len() > 0 && prefix_char(e[0]) {
        1
    } else {
        0
    }
}

/// Whether `s[i..]` holds no unescaped `q` and ends with no unfinished escape;
/// a backslash escapes the character after it.
pub open spec fn quote_free(s: Seq<char>, q: char, i: int) -> bool
    decreases s.len() - i,
{
    if i < 0 || i >= s.len() {
        true
    } else if s[i] == '\\' {
        i + 1 < s.len() && quote_free(s, q, i + 2)
    } else if s[i] == q {
        false
    } else {
        quote_free(s, q, i + 1)
    }
}

/// The body of the string literal `e` (an optional prefix, then a quoted
/// text), with its escapes as written.
pub open spec fn str_content(e: Seq<char>) -> Option<Seq<char>> {
    let p = prefix_len(e);
    if e.len() >= p + 2 && (e[p] == '"' || e[p] == '\'') && e.last() == e[p]
        && quote_free(e.subrange(p + 1, e.len() - 1), e[p], 0) {
        Some(e.subrange(p + 1, e.len() - 1))
    } else {
        None
    }
}

/// The text between the outer brackets of `e`, when `e` opens with `open`
/// and closes with `close`.
pub open spec fn bracket_inner(e: Seq<char>, open: char, close: char) -> Option<Seq<char>> {
    if e.len() >= 2 && e[0] == open && e.last() == close {
        Some(e.subrange(1, e.len() - 1))
    } else {
        None
    }
}

/// The items of a list literal `e`.
pub open spec fn list_items(e: Seq<char>) -> Option<Seq<Seq<char>>> {
    match bracket_inner(e, '[', ']') {
        Some(inner) => items_of(inner),
        None => None,
    }
}

/// The members of a tuple literal `e`: parenthesised items with a top-level
/// comma, or none at all (`(1)` is no tuple).
pub open spec fn tuple_members(e: Seq<char>) -> Option<Seq<Seq<char>>> {
    match bracket_inner(e, '(', ')') {
        Some(inner) => match items_of(inner) {
            Some(xs) => if pieces(inner, ',').len() > 1 || xs.len() == 0 {
                Some(xs)
            } else {
                None
            },
            None => None,
        },
        None => None,
    }
}

/// The bodies of the string literals `xs`, when each is one.
pub open spec fn strings_of(xs: Seq<Seq<char>>) -> Option<Seq<Seq<char>>> {
    if forall|k: int| 0 <= k < xs.len() ==> (#[trigger] str_content(xs[k])) is Some {
        Some(Seq::new(xs.len(), |k: int| str_content(xs[k])->0))
    } else {
        None
    }
}

/// The argument names that `e` gives: a tuple or list of strings, or one string.
pub open spec fn names_of(e: Seq<char>) -> Option<Seq<Seq<char>>> {
    let members = if list_items(e) is Some {
        list_items(e)
    } else if tuple_members(e) is Some {
        tuple_members(e)
    } else {
        Some(seq![e])
    };
    match members {
        Some(xs) => if xs.len() > 0 { strings_of(xs) } else { None },
        None => None,
    }
}

/// The row that one value `v` gives: the members of a tuple, else `v` alone.
pub open spec fn row_of(v: Seq<char>) -> Seq<Seq<char>> {
    match tuple_members(v) {
        Some(ms) => ms,
        None => seq![v],
    }
}

/// Whether every value of the row `r` is a literal.
pub open spec fn row_literal(r: Seq<Seq<char>>) -> bool {
    forall|j: int| 0 <= j < r.len() ==> literal(#[trigger] r[j])
}

/// The rows that a list literal `e` gives, when each has `n` values, all
/// literals.
pub open spec fn rows_of(e: Seq<char>, n: nat) -> Option<Seq<Seq<Seq<char>>>> {
    match list_items(e) {
        Some(xs) => {
            let rs = Seq::new(xs.len(), |k: int| row_of(xs[k]));
            if forall|k: int| 0 <= k < rs.len() ==> (#[trigger] rs[k]).len() == n && row_literal(rs[k]) {
                Some(rs)
            } else {
                None
            }
        },
        None => None,
    }
}

/// A character of a keyword name.
pub open spec fn ident_char(c: char) -> bool {
    ('a' <= c && c <= 'z') || ('A' <= c && c <= 'Z') || ('0' <= c && c <= '9') || c == '_'
}

/// The index of the first `c` in `s` at or after `i`, or -1.
pub open spec fn first_from(s: Seq<char>, c: char, i: int) -> int
    decreases s.len() - i,
{
    if i < 0 || i >= s.len() {
        -1
    } else if s[i] == c {
        i
    } else {
        first_from(s, c, i + 1)
    }
}

/// The index of the last `c` in `s[..j]`, or -1.
pub open spec fn last_before(s: Seq<char>, c: char, j: int) -> int
    decreases j,
{
    if j <= 0 || j > s.len() {
        -1
    } else if s[j - 1] == c {
        j - 1
    } else {
        last_before(s, c, j - 1)
    }
}

proof fn lemma_first_from_range(s: Seq<char>, c: char, i: int)
    ensures
        first_from(s, c, i) == -1 || (i <= first_from(s, c, i) < s.len() && s[first_from(s, c, i)] == c),
    decreases s.len() - i,
{
    if 0 <= i < s.len() && s[i] != c {
        lemma_first_from_range(s, c, i + 1);
    }
}

proof fn lemma_last_before_range(s: Seq<char>, c: char, j: int)
    ensures
        last_before(s, c, j) == -1 || (0 <= last_before(s, c, j) < j && s[last_before(s, c, j)] == c),
    decreases j,
{
    if 0 < j <= s.len() && s[j - 1] != c {
        lemma_last_before_range(s, c, j - 1);
    }
}

/// A keyword argument `key=value`, split into its trimmed key and value.
pub open spec fn keyword_of(e: Seq<char>) -> Option<(Seq<char>, Seq<char>)> {
    let k = first_from(e, '=', 0);
    let key = trim(e.subrange(0, k));
    if k >= 0 && key.len() > 0 && forall|t: int| 0 <= t < key.len() ==> ident_char(#[trigger] key[t]) {
        Some((key, trim(e.subrange(k + 1, e.len() as int))))
    } else {
        None
    }
}

/// The value of the first `ids` keyword among `es[i..]`.
pub open spec fn ids_text(es: Seq<Seq<char>>, i: int) -> Option<Seq<char>>
    decreases es.len() - i,
{
    if i < 0 || i >= es.len() {
        None
    } else {
        match keyword_of(es[i]) {
            Some(kv) => if kv.0 == "ids"@ { Some(kv.1) } else { ids_text(es, i + 1) },
            None => ids_text(es, i + 1),
        }
    }
}

/// The value of the first entry with the string key `ids` among the dict
/// entries `xs[i..]`.
pub open spec fn dict_ids_text(xs: Seq<Seq<char>>, i: int) -> Option<Seq<char>>
    decreases xs.len() - i,
{
    if i < 0 || i >= xs.len() {
        None
    } else {
        match entry_parts(xs[i]) {
            Some(kv) => if str_content(kv.0) == Some("ids"@) { Some(kv.1) } else { dict_ids_text(xs, i + 1) },
            None => dict_ids_text(xs, i + 1),
        }
    }
}

/// The text of the `ids` option among the arguments `es[2..]`: the entry of
/// a dict in third place, whatever follows it, or else of the keyword
/// arguments. `None` when they are neither.
pub open spec fn ids_option(es: Seq<Seq<char>>) -> Option<Option<Seq<char>>> {
    if es.len() >= 3 && bracket_inner(es[2], '{', '}') is Some && items_of(bracket_inner(es[2], '{', '}')->0) is Some {
        Some(dict_ids_text(items_of(bracket_inner(es[2], '{', '}')->0)->0, 0))
    } else if forall|k: int| 2 <= k < es.len() ==> (#[trigger] keyword_of(es[k])) is Some {
        Some(ids_text(es, 2))
    } else {
        None
    }
}

/// The labels that the arguments `es[2..]` give; `None` when they are
/// neither a dict in third place nor keyword arguments, or the `ids` value is no list of
/// strings.
pub open spec fn ids_of(es: Seq<Seq<char>>) -> Option<Option<Seq<Seq<char>>>> {
    match ids_option(es) {
        None => None,
        Some(None) => Some(None),
        Some(Some(v)) => match list_items(v) {
            Some(xs) => match strings_of(xs) {
                Some(ys) => Some(Some(ys)),
                None => None,
            },
            None => None,
        },
    }
}

/// Whether each argument is a literal, or a keyword argument whose value is one.
pub open spec fn arguments_literal(es: Seq<Seq<char>>) -> bool {
    forall|k: int| 0 <= k < es.len() ==> literal(#[trigger] es[k]) || (match keyword_of(es[k]) {
        Some(kv) => literal(kv.1),
        None => false,
    })
}

/// Whether `line` names the parametrize marker.
pub open spec fn has_marker(line: Seq<char>) -> bool {
    contains_seq(line, "pytest.mark.parametrize"@) || contains_seq(line, "@parametrize"@)
}

/// What the arguments `es` of a decorator describe.
pub open spec fn params_of_items(es: Seq<Seq<char>>) -> Result<ParamsView, ParamError> {
    if es.len() < 2 {
        Err(ParamError::MissingArguments)
    } else {
        match names_of(es[0]) {
            None => Err(ParamError::InvalidArgNames),
            Some(ns) => match rows_of(es[1], ns.len()) {
                None => Err(ParamError::InvalidArgValues),
                Some(rs) => match ids_of(es) {
                    None => Err(ParamError::InvalidOptions),
                    Some(ids) => Ok(ParamsView { names: ns, rows: rs, ids }),
                },
            },
        }
    }
}

/// What a decorator line describes: nothing when it is no parametrize
/// decorator, else the parameter set that its argument text gives.
pub open spec fn parse_decorator(line: Seq<char>) -> Result<Option<ParamsView>, ParamError> {
    let o = first_from(line, '(', 0);
    let c = last_before(line, ')', line.len() as int);
    if !has_marker(line) {
        Ok(None)
    } else if o < 0 || c <= o {
        Err(ParamError::MalformedDecorator)
    } else {
        match items_of(line.subrange(o + 1, c)) {
            None => Err(ParamError::InvalidLiteral),
            Some(es) => if !arguments_literal(es) {
                Err(ParamError::InvalidLiteral)
            } else {
                match params_of_items(es) {
                    Ok(p) => Ok(Some(p)),
                    Err(e) => Err(e),
                }
            },
        }
    }
}

/// A parsed parameter set keeps the shape of its decorator: at least one
/// argument name, and every row exactly as long as the names and made of
/// literals only.
pub proof fn lemma_parsed_rows_fit_names(line: Seq<char>)
    requires
        parse_decorator(line) matches Ok(Some(_)),
    ensures
        ({
            let p = parse_decorator(line)->Ok_0->0;
            &&& p.names.len() > 0
            &&& forall|k: int| 0 <= k < p.rows.len() ==> (#[trigger] p.rows[k]).len() == p.names.len()
                && row_literal(p.rows[k])
        }),
{
    let o = first_from(line, '(', 0);
    let c = last_before(line, ')', line.len() as int);
    let es = items_of(line.subrange(o + 1, c))->0;
    let ns = names_of(es[0])->0;
    let rs = rows_of(es[1], ns.len())->0;
    assert(parse_decorator(line)->Ok_0->0 == ParamsView { names: ns, rows: rs, ids: ids_of(es)->0 });
}

fn is_prefix_char(c: char) -> (r: bool)
    ensures
        r == prefix_char(c),
{
    c == 'r' || c == 'R' || c == 'b' || c == 'B' || c == 'u' || c == 'U'
}

fn is_raw_bytes_prefix(a: char, b: char) -> (r: bool)
    ensures
        r == raw_bytes_prefix(a, b),
{
    ((a == 'b' || a == 'B') && (b == 'r' || b == 'R')) || ((a == 'r' || a == 'R') && (b == 'b' || b == 'B'))
}

/// The body of the string literal `e`.
pub fn string_content(e: &str) -> (r: Option<String>)
    ensures
        match r {
            Some(x) => str_content(e@) == Some(x@),
            None => str_content(e@) is None,
        },
{
    let n = e.unicode_len();
    let p: usize = if n > 1 && is_raw_bytes_prefix(e.get_char(0), e.get_char(1)) {
        2
    } else if n > 0 && is_prefix_char(e.get_char(0)) {
        1
    } else {
        0
    };
    assert(p as int == prefix_len(e@));
    if n < p + 2 {
        return None;
    }
    let q = e.get_char(p);
    if (q != '"' && q != '\'') || e.get_char(n - 1) != q {
        return None;
    }
    let body = e.substring_char(p + 1, n - 1);
    let m = body.unicode_len();
    let mut k: usize = 0;
    while k < m
        invariant
            m == body@.len(),
            k <= m,
            n == e@.len(),
            p as int == prefix_len(e@),
            n >= p + 2,
            q == e@[p as int],
            q == '"' || q == '\'',
            e@.last() == q,
            body@ == e@.subrange(p + 1, n - 1),
            quote_free(body@, q, k as int) == quote_free(body@, q, 0),
        decreases m - k,
    {
        let c = body.get_char(k);
        if c == '\\' {
            if k + 1 >= m {
                return None;
            }
            k = k + 2;
        } else if c == q {
            return None;
        } else {
            k = k + 1;
        }
    }
    Some(String::from_str(body))
}

/// The text between the outer brackets of `e`.
pub fn inner_text(e: &str, open: char, close: char) -> (r: Option<&str>)
    ensures
        match r {
            Some(x) => bracket_inner(e@, open, close) == Some(x@),
            None => bracket_inner(e@, open, close) is None,
        },
{
    let n = e.unicode_len();
    if n >= 2 && e.get_char(0) == open && e.get_char(n - 1) == close {
        Some(e.substring_char(1, n - 1))
    } else {
        None
    }
}

/// The items of the list literal `e`.
pub fn list_items_exec(e: &str) -> (r: Option<Vec<String>>)
    ensures
        match r {
            Some(v) => list_items(e@) == Some(v.deep_view()),
            None => list_items(e@) is None,
        },
{
    match inner_text(e, '[', ']') {
        Some(inner) => match split_items(inner) {
            Some((xs, _)) => Some(xs),
            None => None,
        },
        None => None,
    }
}

/// The members of the tuple literal `e`.
pub fn tuple_members_exec(e: &str) -> (r: Option<Vec<String>>)
    ensures
        match r {
            Some(v) => tuple_members(e@) == Some(v.deep_view()),
            None => tuple_members(e@) is None,
        },
{
    match inner_text(e, '(', ')') {
        Some(inner) => match split_items(inner) {
            Some((xs, count)) => if count > 1 || xs.len() == 0 {
                Some(xs)
            } else {
                None
            },
            None => None,
        },
        None => None,
    }
}

/// The bodies of the string literals `xs`.
pub fn strings_exec(xs: &Vec<String>) -> (r: Option<Vec<String>>)
    ensures
        match r {
            Some(v) => strings_of(xs.deep_view()) == Some(v.deep_view()),
            None => strings_of(xs.deep_view()) is None,
        },
{
    let ghost dv = xs.deep_view();
    let mut out: Vec<String> = Vec::new();
    let mut k: usize = 0;
    while k < xs.len()
        invariant
            dv == xs.deep_view(),
            k <= xs.len(),
            out.len() == k,
            forall|t: int| 0 <= t < k ==> (#[trigger] str_content(dv[t])) == Some(out.deep_view()[t]),
        decreases xs.len() - k,
    {
        match string_content(xs[k].as_str()) {
            Some(c) => {
                let ghost before = out.deep_view();
                out.push(c);
                assert(out.deep_view() =~= before.push(str_content(dv[k as int])->0));
            },
            None => {
                assert(str_content(dv[k as int]) is None);
                return None;
            },
        }
        k = k + 1;
    }
    assert(out.deep_view() =~= Seq::new(dv.len(), |t: int| str_content(dv[t])->0));
    Some(out)
}

/// The argument names that `e` gives.
pub fn parse_names(e: &str) -> (r: Option<Vec<String>>)
    ensures
        match r {
            Some(v) => names_of(e@) == Some(v.deep_view()),
            None => names_of(e@) is None,
        },
{
    let members = match list_items_exec(e) {
        Some(xs) => xs,
        None => match tuple_members_exec(e) {
            Some(xs) => xs,
            None => {
                let v = vec![String::from_str(e)];
                assert(v.deep_view() =~= seq![e@]);
                v
            },
        },
    };
    if members.len() == 0 {
        return None;
    }
    strings_exec(&members)
}

/// The row that one value `v` gives.
pub fn parse_row(v: &str) -> (r: Vec<String>)
    ensures
        r.deep_view() == row_of(v@),
{
    match tuple_members_exec(v) {
        Some(ms) => ms,
        None => {
            let r = vec![String::from_str(v)];
            assert(r.deep_view() =~= seq![v@]);
            r
        },
    }
}

/// Whether every value of `row` is a literal.
pub fn row_is_literal(row: &Vec<String>) -> (r: bool)
    ensures
        r == row_literal(row.deep_view()),
{
    let ghost dv = row.deep_view();
    let mut j: usize = 0;
    while j < row.len()
        invariant
            dv == row.deep_view(),
            j <= row.len(),
            forall|t: int| 0 <= t < j ==> literal(#[trigger] dv[t]),
        decreases row.len() - j,
    {
        let x = row[j].as_str();
        assert(x@ == dv[j as int]);
        if !is_literal(x) {
            return false;
        }
        j = j + 1;
    }
    true
}

/// The rows that the list literal `e` gives, each of `n` literal values.
pub fn parse_rows(e: &str, n: usize) -> (r: Option<Vec<Vec<String>>>)
    ensures
        match r {
            Some(v) => rows_of(e@, n as nat) == Some(v.deep_view()),
            None => rows_of(e@, n as nat) is None,
        },
{
    let xs = match list_items_exec(e) {
        Some(xs) => xs,
        None => return None,
    };
    let ghost dv = xs.deep_view();
    let ghost rs = Seq::new(dv.len(), |k: int| row_of(dv[k]));
    let mut out: Vec<Vec<String>> = Vec::new();
    let mut k: usize = 0;
    while k < xs.len()
        invariant
            dv == xs.deep_view(),
            list_items(e@) == Some(dv),
            rs == Seq::new(dv.len(), |k: int| row_of(dv[k])),
            k <= xs.len(),
            out.deep_view() =~= rs.subrange(0, k as int),
            forall|t: int| 0 <= t < k ==> (#[trigger] rs[t]).len() == n && row_literal(rs[t]),
        decreases xs.len() - k,
    {
        let row = parse_row(xs[k].as_str());
        if row.len() != n || !row_is_literal(&row) {
            assert(!(rs[k as int].len() == n && row_literal(rs[k as int])));
            return None;
        }
        let ghost before = out.deep_view();
        out.push(row);
        assert(out.deep_view() =~= before.push(rs[k as int]));
        k = k + 1;
    }
    assert(out.deep_view() =~= rs);
    Some(out)
}

/// The index of the first `c` in `s`.
pub fn first_index(s: &str, c: char) -> (r: Option<usize>)
    ensures
        match r {
            Some(k) => first_from(s@, c, 0) == k as int && k < s@.len(),
            None => first_from(s@, c, 0) == -1,
        },
{
    let n = s.unicode_len();
    let mut i: usize = 0;
    while i < n
        invariant
            n == s@.len(),
            i <= n,
            first_from(s@, c, i as int) == first_from(s@, c, 0),
        decreases n - i,
    {
        if s.get_char(i) == c {
            proof {
                lemma_first_from_range(s@, c, 0);
            }
            return Some(i);
        }
        i = i + 1;
    }
    None
}

/// The index of the last `c` in `s`.
pub fn last_index(s: &str, c: char) -> (r: Option<usize>)
    ensures
        match r {
            Some(k) => last_before(s@, c, s@.len() as int) == k as int && k < s@.len(),
            None => last_before(s@, c, s@.len() as int) == -1,
        },
{
    let n = s.unicode_len();
    let mut j: usize = n;
    while j > 0
        invariant
            n == s@.len(),
            j <= n,
            last_before(s@, c, j as int) == last_before(s@, c, n as int),
        decreases j,
    {
        if s.get_char(j - 1) == c {
            proof {
                lemma_last_before_range(s@, c, n as int);
            }
            return Some(j - 1);
        }
        j = j - 1;
    }
    None
}

/// The trimmed key and value of the keyword argument `e`.
pub fn keyword(e: &str) -> (r: Option<(String, String)>)
    ensures
        match r {
            Some((k, v)) => keyword_of(e@) == Some((k@, v@)),
            None => keyword_of(e@) is None,
        },
{
    let k = match first_index(e, '=') {
        Some(k) => k,
        None => return None,
    };
    let key = trim_str(e.substring_char(0, k));
    let m = key.unicode_len();
    if m == 0 {
        return None;
    }
    assert(first_from(e@, '=', 0) == k as int);
    let mut t: usize = 0;
    while t < m
        invariant
            m == key@.len(),
            key@ == trim(e@.subrange(0, k as int)),
            first_from(e@, '=', 0) == k as int,
            t <= m,
            forall|u: int| 0 <= u < t ==> ident_char(#[trigger] key@[u]),
        decreases m - t,
    {
        let ch = key.get_char(t);
        if !(('a' <= ch && ch <= 'z') || ('A' <= ch && ch <= 'Z') || ('0' <= ch && ch <= '9') || ch == '_') {
            assert(!ident_char(key@[t as int]));
            return None;
        }
        t = t + 1;
    }
    let n = e.unicode_len();
    let value = trim_str(e.substring_char(k + 1, n));
    Some((String::from_str(key), String::from_str(value)))
}

/// Whether `s` is the key `ids`.
fn is_ids_key(s: &str) -> (r: bool)
    ensures
        r == (s@ == "ids"@),
{
    proof {
        reveal_strlit("ids");
    }
    if s.unicode_len() != 3 {
        return false;
    }
    let r = s.get_char(0) == 'i' && s.get_char(1) == 'd' && s.get_char(2) == 's';
    if r {
        assert(s@ =~= "ids"@);
    }
    r
}

/// The text of the `ids` option among the keyword arguments `es[2..]`;
/// `None` when one of them is no keyword argument.
fn keyword_ids(es: &Vec<String>) -> (r: Option<Option<String>>)
    ensures
        match r {
            Some(Some(v)) => (forall|k: int| 2 <= k < es.deep_view().len() ==> (#[trigger] keyword_of(es.deep_view()[k])) is Some)
                && ids_text(es.deep_view(), 2) == Some(v@),
            Some(None) => (forall|k: int| 2 <= k < es.deep_view().len() ==> (#[trigger] keyword_of(es.deep_view()[k])) is Some)
                && ids_text(es.deep_view(), 2) is None,
            None => !(forall|k: int| 2 <= k < es.deep_view().len() ==> (#[trigger] keyword_of(es.deep_view()[k])) is Some),
        },
{
    let ghost dv = es.deep_view();
    let mut found: Option<String> = None;
    let mut k: usize = 2;
    while k < es.len()
        invariant
            dv == es.deep_view(),
            2 <= k,
            forall|t: int| 2 <= t < k && t < dv.len() ==> (#[trigger] keyword_of(dv[t])) is Some,
            match found {
                Some(v) => ids_text(dv, 2) == Some(v@),
                None => ids_text(dv, 2) == ids_text(dv, k as int),
            },
        decreases es.len() - k,
    {
        match keyword(es[k].as_str()) {
            Some((key, value)) => {
                if found.is_none() && is_ids_key(key.as_str()) {
                    found = Some(value);
                }
            },
            None => {
                assert(keyword_of(dv[k as int]) is None);
                return None;
            },
        }
        k = k + 1;
    }
    Some(found)
}

/// The text of the `ids` entry of the dict literal `e`; `None` when `e` is
/// no dict.
fn dict_ids(e: &str) -> (r: Option<Option<String>>)
    ensures
        match r {
            Some(Some(v)) => bracket_inner(e@, '{', '}') is Some && items_of(bracket_inner(e@, '{', '}')->0) is Some
                && dict_ids_text(items_of(bracket_inner(e@, '{', '}')->0)->0, 0) == Some(v@),
            Some(None) => bracket_inner(e@, '{', '}') is Some && items_of(bracket_inner(e@, '{', '}')->0) is Some
                && dict_ids_text(items_of(bracket_inner(e@, '{', '}')->0)->0, 0) is None,
            None => !(bracket_inner(e@, '{', '}') is Some && items_of(bracket_inner(e@, '{', '}')->0) is Some),
        },
{
    let inner = match inner_text(e, '{', '}') {
        Some(inner) => inner,
        None => return None,
    };
    let xs = match split_items(inner) {
        Some((xs, _)) => xs,
        None => return None,
    };
    let ghost dv = xs.deep_view();
    let mut k: usize = 0;
    while k < xs.len()
        invariant
            dv == xs.deep_view(),
            items_of(inner@) == Some(dv),
            bracket_inner(e@, '{', '}') == Some(inner@),
            k <= xs.len(),
            dict_ids_text(dv, k as int) == dict_ids_text(dv, 0),
        decreases xs.len() - k,
    {
        match entry_split(xs[k].as_str()) {
            Some((key, value)) => {
                match string_content(key.as_str()) {
                    Some(c) => {
                        if is_ids_key(c.as_str()) {
                            return Some(Some(value));
                        }
                    },
                    None => {},
                }
            },
            None => {},
        }
        k = k + 1;
    }
    Some(None)
}

/// The labels that the arguments `es[2..]` give.
pub fn parse_ids(es: &Vec<String>) -> (r: Option<Option<Vec<String>>>)
    ensures
        match r {
            Some(Some(v)) => ids_of(es.deep_view()) == Some(Some(v.deep_view())),
            Some(None) => ids_of(es.deep_view()) == Some(None::<Seq<Seq<char>>>),
            None => ids_of(es.deep_view()) is None,
        },
{
    let dict = if es.len() >= 3 {
        dict_ids(es[2].as_str())
    } else {
        None
    };
    let found = match dict {
        Some(found) => found,
        None => match keyword_ids(es) {
            Some(found) => found,
            None => return None,
        },
    };
    match found {
        None => Some(None),
        Some(v) => match list_items_exec(v.as_str()) {
            Some(xs) => match strings_exec(&xs) {
                Some(ys) => Some(Some(ys)),
                None => None,
            },
            None => None,
        },
    }
}

/// Whether each argument is a literal, or a keyword argument whose value is one.
pub fn arguments_are_literal(es: &Vec<String>) -> (r: bool)
    ensures
        r == arguments_literal(es.deep_view()),
{
    let ghost dv = es.deep_view();
    let mut k: usize = 0;
    while k < es.len()
        invariant
            dv == es.deep_view(),
            k <= es.len(),
            forall|t: int| 0 <= t < k ==> literal(#[trigger] dv[t]) || (match keyword_of(dv[t]) {
                Some(kv) => literal(kv.1),
                None => false,
            }),
        decreases es.len() - k,
    {
        let x = es[k].as_str();
        assert(x@ == dv[k as int]);
        let ok = is_literal(x) || match keyword(x) {
            Some((_, value)) => is_literal(value.as_str()),
            None => false,
        };
        if !ok {
            return false;
        }
        k = k + 1;
    }
    true
}

/// The parameter set that the arguments `es` of a decorator describe.
pub fn params_from_items(es: &Vec<String>) -> (r: Result<Parameters, ParamError>)
    ensures
        match r {
            Ok(p) => params_of_items(es.deep_view()) == Ok::<ParamsView, ParamError>(p@),
            Err(e) => params_of_items(es.deep_view()) == Err::<ParamsView, ParamError>(e),
        },
{
    if es.len() < 2 {
        return Err(ParamError::MissingArguments);
    }
    let argnames = match parse_names(es[0].as_str()) {
        Some(ns) => ns,
        None => return Err(ParamError::InvalidArgNames),
    };
    let argvalues = match parse_rows(es[1].as_str(), argnames.len()) {
        Some(rs) => rs,
        None => return Err(ParamError::InvalidArgValues),
    };
    let ids = match parse_ids(es) {
        Some(ids) => ids,
        None => return Err(ParamError::InvalidOptions),
    };
    Ok(Parameters { argnames, argvalues, ids })
}

/// Reads a parametrize decorator line: `Ok(None)` when the line does not name
/// the parametrize marker, else the parameter set that the text between its
/// first `(` and its last `)` describes, or why there is none.
pub fn extract_parameters(line: &str) -> (r: Result<Option<Parameters>, ParamError>)
    ensures
        match r {
            Ok(Some(p)) => parse_decorator(line@) == Ok::<Option<ParamsView>, ParamError>(Some(p@)),
            Ok(None) => parse_decorator(line@) == Ok::<Option<ParamsView>, ParamError>(None),
            Err(e) => parse_decorator(line@) == Err::<Option<ParamsView>, ParamError>(e),
        },
{
    if !contains_str(line, "pytest.mark.parametrize") && !contains_str(line, "@parametrize") {
        return Ok(None);
    }
    let o = match first_index(line, '(') {
        Some(o) => o,
        None => return Err(ParamError::MalformedDecorator),
    };
    let c = match last_index(line, ')') {
        Some(c) => c,
        None => return Err(ParamError::MalformedDecorator),
    };
    if c <= o {
        return Err(ParamError::MalformedDecorator);
    }
    let es = match split_items(line.substring_char(o + 1, c)) {
        Some((es, _)) => es,
        None => return Err(ParamError::InvalidLiteral),
    };
    if !arguments_are_literal(&es) {
        return Err(ParamError::InvalidLiteral);
    }
    match params_from_items(&es) {
        Ok(p) => Ok(Some(p)),
        Err(e) => Err(e),
    }
}

} // verus!
