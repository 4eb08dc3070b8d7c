//! Line-oriented discovery of test functions, methods and classes.
use vstd::prelude::*;
use vstd::string::{StrSliceExecFns, StringExecFns};
use crate::text::{has_prefix, starts_with, trim, trim_str};
use crate::pattern::{any_pattern_accepts, matches_pattern};
use crate::params::{
    extract_parameters, first_from, first_index, parse_decorator, ParamError, Parameters, ParamsView,
};

verus! {

/// What a discovered entity is.
#[derive(Debug, Clone, Copy, PartialEq, Eq, Structural)]
pub enum TestKind {
    Function,
    Class,
    Method,
}

/// The model of a discovered entity.
pub struct ItemView {
    pub name: Seq<char>,
    pub path: Seq<char>,
    pub line_number: nat,
    pub kind: TestKind,
    pub params: Option<ParamsView>,
}

/// A discovered test entity: its name, file, 1-based line, kind and, for a
/// parametrized function, its parameter set.
#[derive(Debug)]
pub struct TestItem {
    pub name: String,
    pub path: String,
    pub line_number: usize,
    pub kind: TestKind,
    pub parameters: Option<Parameters>,
}

impl View for TestItem {
    type V = ItemView;

    open spec fn view(&self) -> ItemView {
        ItemView {
            name: self.name@,
            path: self.path@,
            line_number: self.line_number as nat,
            kind: self.kind,
            params: match self.parameters {
                Some(p) => Some(p@),
                None => None,
            },
        }
    }
}

/// The models of a sequence of entities.
pub open spec fn items_view(v: Seq<TestItem>) -> Seq<ItemView> {
    v.map_values(|it: TestItem| it@)
}

/// The text of `s` before the first `c`, or all of it.
pub open spec fn before_char(s: Seq<char>, c: char) -> Seq<char> {
    let k = first_from(s, c, 0);
    if k < 0 { s } else { s.subrange(0, k) }
}

/// The function name on a trimmed line `t` that opens with `def `.
pub open spec fn def_name(t: Seq<char>) -> Seq<char> {
    trim(before_char(t.subrange(4, t.len() as int), '('))
}

/// The class name on a trimmed line `t` that opens with `class `: the text up
/// to the first `(` or `:`.
pub open spec fn class_name(t: Seq<char>) -> Seq<char> {
    trim(before_char(before_char(t.subrange(6, t.len() as int), '('), ':'))
}

/// The parameter set of the first parametrize decorator met when reading the
/// lines above line `j` upwards, across decorators, blank lines and comments.
pub open spec fn lookback(lines: Seq<Seq<char>>, j: int) -> Result<Option<ParamsView>, ParamError>
    decreases j,
{
    if j <= 0 || j > lines.len() {
        Ok(None)
    } else {
        let p = trim(lines[j - 1]);
        if has_prefix(p, "@"@) {
            match parse_decorator(p) {
                Err(e) => Err(e),
                Ok(Some(x)) => Ok(Some(x)),
                Ok(None) => lookback(lines, j - 1),
            }
        } else if p.len() != 0 && !has_prefix(p, "#"@) {
            Ok(None)
        } else {
            lookback(lines, j - 1)
        }
    }
}

/// The function that line `i` defines, when its name passes `fp`; its path is
/// left empty and its kind is `Function`.
pub open spec fn function_at(lines: Seq<Seq<char>>, i: int, fp: Seq<Seq<char>>) -> Result<
    Option<ItemView>,
    ParamError,
> {
    let t = trim(lines[i]);
    if has_prefix(t, "def "@) && any_pattern_accepts(def_name(t), fp) {
        match lookback(lines, i) {
            Err(e) => Err(e),
            Ok(ps) => Ok(
                Some(
                    ItemView {
                        name: def_name(t),
                        path: Seq::empty(),
                        line_number: (i + 1) as nat,
                        kind: TestKind::Function,
                        params: ps,
                    },
                ),
            ),
        }
    } else {
        Ok(None)
    }
}

/// The class that `line` defines, when its name passes `cp`.
pub open spec fn class_at(line: Seq<char>, line_number: nat, cp: Seq<Seq<char>>) -> Option<ItemView> {
    let t = trim(line);
    if has_prefix(t, "class "@) && any_pattern_accepts(class_name(t), cp) {
        Some(
            ItemView {
                name: class_name(t),
                path: Seq::empty(),
                line_number,
                kind: TestKind::Class,
                params: None,
            },
        )
    } else {
        None
    }
}

/// The entities of the first `n` lines, and whether a test class was among
/// them. A function found after a test class anywhere above is a `Method`.
pub open spec fn scan(
    lines: Seq<Seq<char>>,
    n: int,
    path: Seq<char>,
    fp: Seq<Seq<char>>,
    cp: Seq<Seq<char>>,
) -> Result<(Seq<ItemView>, bool), ParamError>
    decreases n,
{
    if n <= 0 || n > lines.len() {
        Ok((Seq::empty(), false))
    } else {
        match scan(lines, n - 1, path, fp, cp) {
            Err(e) => Err(e),
            Ok((items, seen)) => match function_at(lines, n - 1, fp) {
                Err(e) => Err(e),
                Ok(Some(f)) => Ok(
                    (
                        items.push(
                            ItemView {
                                name: f.name,
                                path,
                                line_number: f.line_number,
                                kind: if seen { TestKind::Method } else { TestKind::Function },
                                params: f.params,
                            },
                        ),
                        seen,
                    ),
                ),
                Ok(None) => match class_at(lines[n - 1], n as nat, cp) {
                    Some(c) => Ok(
                        (
                            items.push(
                                ItemView {
                                    name: c.name,
                                    path,
                                    line_number: c.line_number,
                                    kind: TestKind::Class,
                                    params: None,
                                },
                            ),
                            true,
                        ),
                    ),
                    None => Ok((items, seen)),
                },
            },
        }
    }
}

/// The entities of a whole file, in line order, or the first decorator error.
pub open spec fn scan_file(
    lines: Seq<Seq<char>>,
    path: Seq<char>,
    fp: Seq<Seq<char>>,
    cp: Seq<Seq<char>>,
) -> Result<Seq<ItemView>, ParamError> {
    match scan(lines, lines.len() as int, path, fp, cp) {
        Ok((items, _)) => Ok(items),
        Err(e) => Err(e),
    }
}

/// The text of `s` before the first `c`, or all of it.
pub fn before_char_exec(s: &str, c: char) -> (r: &str)
    ensures
        r@ == before_char(s@, c),
{
    match first_index(s, c) {
        Some(k) => s.substring_char(0, k),
        None => s,
    }
}

/// Finds the parameter set for the definition on line `current_line`, reading
/// the lines above it upwards.
pub fn find_parameters(lines: &Vec<String>, current_line: usize) -> (r: Result<
    Option<Parameters>,
    ParamError,
>)
    requires
        current_line <= lines.len(),
    ensures
        match r {
            Ok(Some(p)) => lookback(lines.deep_view(), current_line as int) == Ok::<
                Option<ParamsView>,
                ParamError,
            >(Some(p@)),
            Ok(None) => lookback(lines.deep_view(), current_line as int) == Ok::<
                Option<ParamsView>,
                ParamError,
            >(None),
            Err(e) => lookback(lines.deep_view(), current_line as int) == Err::<
                Option<ParamsView>,
                ParamError,
            >(e),
        },
{
    let ghost dv = lines.deep_view();
    let mut j: usize = current_line;
    while j > 0
        invariant
            dv == lines.deep_view(),
            j <= current_line <= lines.len(),
            lookback(dv, j as int) == lookback(dv, current_line as int),
        decreases j,
    {
        let p = trim_str(lines[j - 1].as_str());
        assert(p@ == trim(dv[j - 1]));
        if starts_with(p, "@") {
            match extract_parameters(p) {
                Err(e) => return Err(e),
                Ok(Some(x)) => return Ok(Some(x)),
                Ok(None) => {},
            }
        } else if p.unicode_len() != 0 && !starts_with(p, "#") {
            return Ok(None);
        }
        j = j - 1;
    }
    Ok(None)
}

/// The test function that line `current_line` defines, if its name passes
/// `python_functions`, with the parameter set of the decorator above it. The
/// path is left empty and the kind is `Function`.
pub fn parse_test_function(
    lines: &Vec<String>,
    current_line: usize,
    python_functions: &Vec<String>,
) -> (r: Result<Option<TestItem>, ParamError>)
    requires
        current_line < lines.len(),
    ensures
        match r {
            Ok(Some(it)) => function_at(lines.deep_view(), current_line as int, python_functions.deep_view())
                == Ok::<Option<ItemView>, ParamError>(Some(it@)),
            Ok(None) => function_at(lines.deep_view(), current_line as int, python_functions.deep_view())
                == Ok::<Option<ItemView>, ParamError>(None),
            Err(e) => function_at(lines.deep_view(), current_line as int, python_functions.deep_view())
                == Err::<Option<ItemView>, ParamError>(e),
        },
{
    let ghost dv = lines.deep_view();
    let line = trim_str(lines[current_line].as_str());
    assert(line@ == trim(dv[current_line as int]));
    if !starts_with(line, "def ") {
        return Ok(None);
    }
    proof {
        reveal_strlit("def ");
    }
    let rest = line.substring_char(4, line.unicode_len());
    let name = trim_str(before_char_exec(rest, '('));
    if !matches_pattern(name, python_functions) {
        return Ok(None);
    }
    let parameters = match find_parameters(lines, current_line) {
        Ok(ps) => ps,
        Err(e) => return Err(e),
    };
    let item = TestItem {
        name: String::from_str(name),
        path: String::new(),
        line_number: current_line + 1,
        kind: TestKind::Function,
        parameters,
    };
    assert(item@.path =~= Seq::<char>::empty());
    Ok(Some(item))
}

/// The test class that `line` defines, if its name passes `python_classes`,
/// numbered `line_number`. The path is left empty.
pub fn parse_test_class(line: &str, line_number: usize, python_classes: &Vec<String>) -> (r: Option<
    TestItem,
>)
    ensures
        match r {
            Some(it) => class_at(line@, line_number as nat, python_classes.deep_view()) == Some(it@),
            None => class_at(line@, line_number as nat, python_classes.deep_view()) is None,
        },
{
    let t = trim_str(line);
    if !starts_with(t, "class ") {
        return None;
    }
    proof {
        reveal_strlit("class ");
    }
    let rest = t.substring_char(6, t.unicode_len());
    let name = trim_str(before_char_exec(before_char_exec(rest, '('), ':'));
    if !matches_pattern(name, python_classes) {
        return None;
    }
    let item = TestItem {
        name: String::from_str(name),
        path: String::new(),
        line_number,
        kind: TestKind::Class,
        parameters: None,
    };
    assert(item@.path =~= Seq::<char>::empty());
    Some(item)
}

} // verus!
