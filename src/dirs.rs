//! Decisions of the directory walk: which files are source files, when a
//! directory is skipped as a cycle, and in what order a directory's entries
//! are collected.
use vstd::prelude::*;
use vstd::string::StrSliceExecFns;
use crate::params::{last_before, last_index};
use crate::text::same_text;

verus! {

/// The last component of a `/`-separated path.
pub open spec fn file_name(p: Seq<char>) -> Seq<char> {
    p.subrange(last_before(p, '/', p.len() as int) + 1, p.len() as int)
}

/// The extension of a path: the text after the last `.` of its file name,
/// when that dot is not the name's first character.
pub open spec fn extension(p: Seq<char>) -> Option<Seq<char>> {
    let name = file_name(p);
    let d = last_before(name, '.', name.len() as int);
    if d > 0 {
        Some(name.subrange(d + 1, name.len() as int))
    } else {
        None
    }
}

/// Whether the path names a Python source file.
pub open spec fn is_source_path(p: Seq<char>) -> bool {
    extension(p) == Some("py"@)
}

/// The name of the file that makes a directory a package.
pub open spec fn marker_name() -> Seq<char> {
    "__init__.py"@
}

/// Whether `p` is the path of a Python source file, by its extension.
pub fn is_source_file(p: &str) -> (r: bool)
    ensures
        r == is_source_path(p@),
{
    let n = p.unicode_len();
    let start = match last_index(p, '/') {
        Some(k) => k + 1,
        None => 0,
    };
    let name = p.substring_char(start, n);
    let m = name.unicode_len();
    let d = match last_index(name, '.') {
        Some(d) => d,
        None => return false,
    };
    if d == 0 {
        return false;
    }
    let ext = name.substring_char(d + 1, m);
    proof {
        reveal_strlit("py");
    }
    let r = ext.unicode_len() == 2 && ext.get_char(0) == 'p' && ext.get_char(1) == 'y';
    if r {
        assert(ext@ =~= "py"@);
    }
    r
}

/// Whether `dir` is the path of one of the ancestors whose paths are
/// `ancestor_paths`.
pub open spec fn in_ancestry(ancestor_paths: Seq<Seq<char>>, dir: Seq<char>) -> bool {
    exists|k: int| 0 <= k < ancestor_paths.len() && ancestor_paths[k] == dir
}

/// Whether the walk may enter `dir` below ancestors whose paths are
/// `ancestor_paths`: not when one of them is `dir` itself, which would be a
/// cycle.
pub fn should_enter(ancestor_paths: &Vec<String>, dir: &str) -> (r: bool)
    ensures
        r == !in_ancestry(ancestor_paths.deep_view(), dir@),
{
    let ghost dv = ancestor_paths.deep_view();
    let mut k: usize = 0;
    while k < ancestor_paths.len()
        invariant
            dv == ancestor_paths.deep_view(),
            k <= ancestor_paths.len(),
            forall|t: int| 0 <= t < k ==> dv[t] != dir@,
        decreases ancestor_paths.len() - k,
    {
        if same_text(ancestor_paths[k].as_str(), dir) {
            assert(dv[k as int] == dir@);
            return false;
        }
        k = k + 1;
    }
    true
}

/// The model of a directory entry.
pub struct EntryView {
    pub name: Seq<char>,
    pub is_file: bool,
    pub is_dir: bool,
}

/// An entry of a directory: its file name, and whether it is a file or a
/// directory.
#[derive(Debug)]
pub struct DirEntry {
    pub name: String,
    pub is_file: bool,
    pub is_dir: bool,
}

impl View for DirEntry {
    type V = EntryView;

    open spec fn view(&self) -> EntryView {
        EntryView { name: self.name@, is_file: self.is_file, is_dir: self.is_dir }
    }
}

pub open spec fn entries_view(v: Seq<DirEntry>) -> Seq<EntryView> {
    v.map_values(|e: DirEntry| e@)
}

/// One step of collecting a directory.
#[derive(Debug, Clone, Copy, PartialEq, Eq, Structural)]
pub enum Step {
    /// Collect the package's marker file.
    CollectMarker,
    /// Collect the file of the entry at this index.
    CollectFile(usize),
    /// Walk the subdirectory of the entry at this index.
    Enter(usize),
}

/// The steps for entry `k`: in a package every file but the marker and every
/// subdirectory; in a plain directory its files alone.
pub open spec fn entry_steps(e: EntryView, k: int, package: bool) -> Seq<Step> {
    if e.is_file {
        if package && e.name == marker_name() {
            Seq::empty()
        } else {
            seq![Step::CollectFile(k as usize)]
        }
    } else if package && e.is_dir {
        seq![Step::Enter(k as usize)]
    } else {
        Seq::empty()
    }
}

/// The steps for the first `n` entries, after the marker for a package.
pub open spec fn plan_upto(es: Seq<EntryView>, n: int, package: bool) -> Seq<Step>
    decreases n,
{
    if n <= 0 || n > es.len() {
        if package { seq![Step::CollectMarker] } else { Seq::empty() }
    } else {
        plan_upto(es, n - 1, package) + entry_steps(es[n - 1], n - 1, package)
    }
}

/// The steps that collect a directory with entries `es`.
pub open spec fn plan(es: Seq<EntryView>, package: bool) -> Seq<Step> {
    plan_upto(es, es.len() as int, package)
}

/// Whether `name` is the package marker's name.
fn is_marker(name: &str) -> (r: bool)
    ensures
        r == (name@ == marker_name()),
{
    same_text(name, "__init__.py")
}

/// The steps that collect a directory whose entries are `entries`, as a
/// package when `package` holds.
pub fn plan_directory(package: bool, entries: &Vec<DirEntry>) -> (r: Vec<Step>)
    ensures
        r@ == plan(entries_view(entries@), package),
{
    let ghost es = entries_view(entries@);
    let mut out: Vec<Step> = Vec::new();
    if package {
        out.push(Step::CollectMarker);
    }
    assert(out@ =~= plan_upto(es, 0, package));
    let mut k: usize = 0;
    while k < entries.len()
        invariant
            es == entries_view(entries@),
            k <= entries.len(),
            out@ == plan_upto(es, k as int, package),
        decreases entries.len() - k,
    {
        let e = &entries[k];
        let ghost before = out@;
        if e.is_file {
            if !(package && is_marker(e.name.as_str())) {
                out.push(Step::CollectFile(k));
            }
        } else if package && e.is_dir {
            out.push(Step::Enter(k));
        }
        assert(out@ =~= before + entry_steps(es[k as int], k as int, package));
        k = k + 1;
    }
    out
}

proof fn lemma_plan_shape(es: Seq<EntryView>, n: int)
    requires
        0 <= n <= es.len(),
        es.len() <= usize::MAX,
    ensures
        plan_upto(es, n, true).len() >= 1,
        plan_upto(es, n, true)[0] == Step::CollectMarker,
        forall|j: int| 1 <= j < plan_upto(es, n, true).len() ==> #[trigger] plan_upto(es, n, true)[j] != Step::CollectMarker,
        forall|j: int| 0 <= j < plan_upto(es, n, true).len() ==> match #[trigger] plan_upto(es, n, true)[j] {
            Step::CollectFile(k) => k < n && es[k as int].name != marker_name(),
            Step::Enter(k) => k < n,
            Step::CollectMarker => true,
        },
    decreases n,
{
    if n > 0 {
        lemma_plan_shape(es, n - 1);
        let a = plan_upto(es, n - 1, true);
        let b = entry_steps(es[n - 1], n - 1, true);
        assert(plan_upto(es, n, true) == a + b);
        assert forall|j: int| a.len() <= j < a.len() + b.len() implies (a + b)[j] == b[j - a.len()] by {}
        assert(((n - 1) as usize) as int == n - 1);
    }
}

/// In a package the marker file is collected first, exactly once, and never
/// again as an ordinary file; every other file and every subdirectory follows.
pub proof fn lemma_package_marker_first(es: Seq<EntryView>)
    requires
        es.len() <= usize::MAX,
    ensures
        plan(es, true).len() >= 1,
        plan(es, true)[0] == Step::CollectMarker,
        forall|j: int| 1 <= j < plan(es, true).len() ==> #[trigger] plan(es, true)[j] != Step::CollectMarker,
        forall|j: int| 0 <= j < plan(es, true).len() ==> match #[trigger] plan(es, true)[j] {
            Step::CollectFile(k) => k < es.len() && es[k as int].name != marker_name(),
            _ => true,
        },
{
    lemma_plan_shape(es, es.len() as int);
}

/// What collecting a directory yields.
#[derive(Debug, Clone, Copy, PartialEq, Eq, Structural)]
pub enum DirOutcome {
    /// The package node made for the directory.
    Package,
    /// The parent node handed in.
    Parent,
    /// Nothing was collected.
    Nothing,
}

/// What a directory yields: its package node when it is a package, else the
/// parent when at least one of its files gave a node, else nothing.
pub fn directory_outcome(package: bool, any_file_collected: bool) -> (r: DirOutcome)
    ensures
        r == (if package {
            DirOutcome::Package
        } else if any_file_collected {
            DirOutcome::Parent
        } else {
            DirOutcome::Nothing
        }),
{
    if package {
        DirOutcome::Package
    } else if any_file_collected {
        DirOutcome::Parent
    } else {
        DirOutcome::Nothing
    }
}

} // verus!
