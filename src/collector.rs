//! The collector: its two name-pattern lists, and scanning a whole file.
use vstd::prelude::*;
use vstd::string::StringExecFns;
use crate::scanner::{
    items_view, parse_test_class, parse_test_function, scan, scan_file, ItemView, TestItem, TestKind,
};
use crate::params::ParamError;

verus! {

/// Name patterns for test functions and methods, and for test classes; fixed
/// at construction.
pub struct Collector {
    pub python_classes: Vec<String>,
    pub python_functions: Vec<String>,
}

proof fn lemma_scan_error_stays(
    lines: Seq<Seq<char>>,
    m: int,
    n: int,
    path: Seq<char>,
    fp: Seq<Seq<char>>,
    cp: Seq<Seq<char>>,
)
    requires
        0 < m <= n <= lines.len(),
        scan(lines, m, path, fp, cp) is Err,
    ensures
        scan(lines, n, path, fp, cp) == scan(lines, m, path, fp, cp),
    decreases n - m,
{
    if n > m {
        lemma_scan_error_stays(lines, m, n - 1, path, fp, cp);
    }
}

impl Collector {
    /// A collector with the given class and function name patterns.
    pub fn new(python_classes: Vec<String>, python_functions: Vec<String>) -> (r: Collector)
        ensures
            r.python_classes.deep_view() == python_classes.deep_view(),
            r.python_functions.deep_view() == python_functions.deep_view(),
    {
        Collector { python_classes, python_functions }
    }

    /// The test entities of a file at `path` whose lines are `lines`, in line
    /// order, or the first error of a parametrize decorator.
    pub fn parse_lines(&self, path: &str, lines: &Vec<String>) -> (r: Result<Vec<TestItem>, ParamError>)
        ensures
            match r {
                Ok(v) => scan_file(
                    lines.deep_view(),
                    path@,
                    self.python_functions.deep_view(),
                    self.python_classes.deep_view(),
                ) == Ok::<Seq<ItemView>, ParamError>(items_view(v@)),
                Err(e) => scan_file(
                    lines.deep_view(),
                    path@,
                    self.python_functions.deep_view(),
                    self.python_classes.deep_view(),
                ) == Err::<Seq<ItemView>, ParamError>(e),
            },
    {
        let ghost dv = lines.deep_view();
        let ghost fp = self.python_functions.deep_view();
        let ghost cp = self.python_classes.deep_view();
        let mut items: Vec<TestItem> = Vec::new();
        let mut seen_class = false;
        let mut i: usize = 0;
        assert(items_view(items@) =~= Seq::<ItemView>::empty());
        while i < lines.len()
            invariant
                dv == lines.deep_view(),
                fp == self.python_functions.deep_view(),
                cp == self.python_classes.deep_view(),
                i <= lines.len(),
                scan(dv, i as int, path@, fp, cp) == Ok::<(Seq<ItemView>, bool), ParamError>(
                    (items_view(items@), seen_class),
                ),
            decreases lines.len() - i,
        {
            let ghost before = items_view(items@);
            match parse_test_function(lines, i, &self.python_functions) {
                Err(e) => {
                    proof {
                        lemma_scan_error_stays(dv, i + 1, dv.len() as int, path@, fp, cp);
                    }
                    return Err(e);
                },
                Ok(Some(f)) => {
                    let item = TestItem {
                        name: f.name,
                        path: String::from_str(path),
                        line_number: f.line_number,
                        kind: if seen_class { TestKind::Method } else { TestKind::Function },
                        parameters: f.parameters,
                    };
                    items.push(item);
                    assert(items_view(items@) =~= before.push(item@));
                },
                Ok(None) => {
                    match parse_test_class(lines[i].as_str(), i + 1, &self.python_classes) {
                        Some(c) => {
                            let item = TestItem {
                                name: c.name,
                                path: String::from_str(path),
                                line_number: c.line_number,
                                kind: TestKind::Class,
                                parameters: None,
                            };
                            items.push(item);
                            assert(items_view(items@) =~= before.push(item@));
                            seen_class = true;
                        },
                        None => {},
                    }
                },
            }
            i = i + 1;
        }
        Ok(items)
    }
}

} // verus!
