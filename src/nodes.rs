//! What the node factory is handed for each discovered entity: one node per
//! entity, or one per parameter row, each with its display name and identity.
use vstd::prelude::*;
use vstd::string::{StrSliceExecFns, StringExecFns};
use crate::params::ParamError;
use crate::scanner::{ItemView, TestItem, TestKind};

verus! {

/// The model of a node description.
pub struct NodeView {
    pub name: Seq<char>,
    pub node_id: Seq<char>,
    pub line_number: nat,
    pub is_class: bool,
    pub arg_names: Seq<Seq<char>>,
    pub arg_values: Seq<Seq<char>>,
}

/// A node to create: its display name, its identity, the line of its
/// definition, whether it is a class node, and the call specification that
/// binds each argument name to the value text at the same index.
#[derive(Debug)]
pub struct NodeSpec {
    pub name: String,
    pub node_id: String,
    pub line_number: usize,
    pub is_class: bool,
    pub arg_names: Vec<String>,
    pub arg_values: Vec<String>,
}

impl View for NodeSpec {
    type V = NodeView;

    open spec fn view(&self) -> NodeView {
        NodeView {
            name: self.name@,
            node_id: self.node_id@,
            line_number: self.line_number as nat,
            is_class: self.is_class,
            arg_names: self.arg_names.deep_view(),
            arg_values: self.arg_values.deep_view(),
        }
    }
}

/// The models of a sequence of node descriptions.
pub open spec fn nodes_view(v: Seq<NodeSpec>) -> Seq<NodeView> {
    v.map_values(|n: NodeSpec| n@)
}

pub open spec fn digit_chars() -> Seq<char> {
    "0123456789"@
}

/// The decimal numeral of `n`.
pub open spec fn decimal(n: nat) -> Seq<char>
    decreases n,
{
    if n < 10 {
        seq![digit_chars()[n as int]]
    } else {
        decimal(n / 10) + seq![digit_chars()[(n % 10) as int]]
    }
}

/// The identity of an entity `name` of the file `path`.
pub open spec fn node_ident(path: Seq<char>, name: Seq<char>) -> Seq<char> {
    path + "::"@ + name
}

/// The display name of the row labelled `label` of `name`.
pub open spec fn labelled(name: Seq<char>, label: Seq<char>) -> Seq<char> {
    name + "["@ + label + "]"@
}

/// The label of row `k`: its id when ids are given, else its index.
pub open spec fn row_label(ids: Option<Seq<Seq<char>>>, k: int) -> Seq<char> {
    match ids {
        Some(l) => l[k],
        None => decimal(k as nat),
    }
}

/// The single node of an entity without parameters.
pub open spec fn plain_node(it: ItemView) -> NodeView {
    NodeView {
        name: it.name,
        node_id: node_ident(it.path, it.name),
        line_number: it.line_number,
        is_class: it.kind == TestKind::Class,
        arg_names: Seq::empty(),
        arg_values: Seq::empty(),
    }
}

/// The nodes of an entity: one for a class or a plain function, one per row
/// for a parametrized function; an error when ids and rows differ in number.
pub open spec fn nodes_of(it: ItemView) -> Result<Seq<NodeView>, ParamError> {
    if it.kind == TestKind::Class || it.params is None {
        Ok(seq![plain_node(it)])
    } else {
        let p = it.params->0;
        if p.ids is Some && p.ids->0.len() != p.rows.len() {
            Err(ParamError::IdsMismatch)
        } else {
            Ok(
                Seq::new(
                    p.rows.len(),
                    |k: int|
                        NodeView {
                            name: labelled(it.name, row_label(p.ids, k)),
                            node_id: node_ident(it.path, labelled(it.name, row_label(p.ids, k))),
                            line_number: it.line_number,
                            is_class: false,
                            arg_names: p.names,
                            arg_values: p.rows[k],
                        },
                ),
            )
        }
    }
}

/// The decimal numeral of `n`.
pub fn decimal_string(n: usize) -> (r: String)
    ensures
        r@ == decimal(n as nat),
    decreases n,
{
    let digits = "0123456789";
    proof {
        reveal_strlit("0123456789");
    }
    if n < 10 {
        String::from_str(digits.substring_char(n, n + 1))
    } else {
        let mut r = decimal_string(n / 10);
        let d = n % 10;
        let tail = digits.substring_char(d, d + 1);
        assert(tail@ =~= seq![digit_chars()[d as int]]);
        r.append(tail);
        r
    }
}

/// The identity `path::name`.
pub fn node_id(path: &str, name: &str) -> (r: String)
    ensures
        r@ == node_ident(path@, name@),
{
    let mut r = String::from_str(path);
    r.append("::");
    r.append(name);
    r
}

/// The display name `name[label]`.
pub fn labelled_name(name: &str, label: &str) -> (r: String)
    ensures
        r@ == labelled(name@, label@),
{
    let mut r = String::from_str(name);
    r.append("[");
    r.append(label);
    r.append("]");
    r
}

/// A copy of a list of strings.
pub fn copy_strings(v: &Vec<String>) -> (r: Vec<String>)
    ensures
        r.deep_view() == v.deep_view(),
{
    let mut out: Vec<String> = Vec::new();
    let mut k: usize = 0;
    while k < v.len()
        invariant
            k <= v.len(),
            out.deep_view() =~= v.deep_view().subrange(0, k as int),
        decreases v.len() - k,
    {
        let ghost before = out.deep_view();
        out.push(v[k].clone());
        assert(out.deep_view() =~= before.push(v.deep_view()[k as int]));
        k = k + 1;
    }
    assert(out.deep_view() =~= v.deep_view());
    out
}

/// The nodes to create for `item`, in row order.
pub fn node_specs(item: &TestItem) -> (r: Result<Vec<NodeSpec>, ParamError>)
    ensures
        match r {
            Ok(v) => nodes_of(item@) == Ok::<Seq<NodeView>, ParamError>(nodes_view(v@)),
            Err(e) => nodes_of(item@) == Err::<Seq<NodeView>, ParamError>(e),
        },
{
    let is_class = match item.kind {
        TestKind::Class => true,
        _ => false,
    };
    if is_class || item.parameters.is_none() {
        let node = NodeSpec {
            name: item.name.clone(),
            node_id: node_id(item.path.as_str(), item.name.as_str()),
            line_number: item.line_number,
            is_class,
            arg_names: Vec::new(),
            arg_values: Vec::new(),
        };
        let v = vec![node];
        assert(node@.arg_names =~= Seq::<Seq<char>>::empty());
        assert(node@.arg_values =~= Seq::<Seq<char>>::empty());
        assert(nodes_view(v@) =~= seq![plain_node(item@)]);
        return Ok(v);
    }
    let p = match &item.parameters {
        Some(p) => p,
        None => return Err(ParamError::IdsMismatch),
    };
    let rows = p.argvalues.len();
    match &p.ids {
        Some(ids) => {
            if ids.len() != rows {
                return Err(ParamError::IdsMismatch);
            }
        },
        None => {},
    }
    let ghost pv = p@;
    let ghost want = nodes_of(item@)->Ok_0;
    let mut out: Vec<NodeSpec> = Vec::new();
    let mut k: usize = 0;
    while k < rows
        invariant
            pv == p@,
            item@.params == Some(pv),
            !is_class,
            item@.kind != TestKind::Class,
            rows == pv.rows.len(),
            pv.ids is Some ==> pv.ids->0.len() == rows,
            nodes_of(item@) == Ok::<Seq<NodeView>, ParamError>(want),
            want.len() == rows,
            k <= rows,
            nodes_view(out@) =~= want.subrange(0, k as int),
        decreases rows - k,
    {
        let label = match &p.ids {
            Some(ids) => ids[k].clone(),
            None => decimal_string(k),
        };
        assert(label@ == row_label(pv.ids, k as int));
        let name = labelled_name(item.name.as_str(), label.as_str());
        let id = node_id(item.path.as_str(), name.as_str());
        let node = NodeSpec {
            name,
            node_id: id,
            line_number: item.line_number,
            is_class: false,
            arg_names: copy_strings(&p.argnames),
            arg_values: copy_strings(&p.argvalues[k]),
        };
        let ghost before = nodes_view(out@);
        out.push(node);
        assert(nodes_view(out@) =~= before.push(want[k as int]));
        k = k + 1;
    }
    assert(nodes_view(out@) =~= want);
    Ok(out)
}

} // verus!
