//! The capabilities of a whole forest, and the two traversals over them:
//! from a node's value up to a root, and from a root's value down to a node.

use crate::diagnostic::{Diagnostic, DiagnosticView};
use crate::model::{Node, NodeView, TypeRef};
use crate::synth::{
    capability_views, synthesize, synthesize_spec, Capability, CapabilityView, ConversionView,
    Extraction,
};
use crate::validate::{lemma_refused_is_invalid, valid, validate, validation};
use crate::value::{extract_spec, wrap, Value, ValueView};
use vstd::prelude::*;

verus! {

/// The first capability from position `i` on that binds `node` under `root`.
pub open spec fn lookup_from(
    table: Seq<CapabilityView>,
    node: Seq<char>,
    root: Seq<char>,
    i: nat,
) -> Option<CapabilityView>
    decreases table.len() - i,
{
    if i >= table.len() {
        None
    } else if table[i as int].node == node && table[i as int].root == root {
        Some(table[i as int])
    } else {
        lookup_from(table, node, root, i + 1)
    }
}

/// The parent of `node` under `root`, by the first capability that binds the
/// two; `None` where no capability does, or where it names no parent.
pub open spec fn parent_of(table: Seq<CapabilityView>, node: Seq<char>, root: Seq<char>) -> Option<
    Seq<char>,
> {
    match lookup_from(table, node, root, 0) {
        Some(c) => c.parent,
        None => None,
    }
}

/// How the chain of parents from a node towards a root ends.
#[derive(Clone, Copy, Debug, PartialEq, Eq, Structural)]
pub enum ChainEnd {
    /// It arrives at the root.
    Reaches,
    /// It stops at a type that has no parent under that root.
    Dangles,
    /// It is longer than the steps allowed.
    Exhausted,
}

/// How the chain from `node` towards `root` ends within `fuel` steps.
pub open spec fn chain(table: Seq<CapabilityView>, node: Seq<char>, root: Seq<char>, fuel: nat) -> ChainEnd
    decreases fuel,
{
    if node == root {
        ChainEnd::Reaches
    } else if fuel == 0 {
        ChainEnd::Exhausted
    } else {
        match parent_of(table, node, root) {
            Some(p) => chain(table, p, root, (fuel - 1) as nat),
            None => ChainEnd::Dangles,
        }
    }
}

/// The chain from `node` arrives at `root` within `fuel` steps.
pub open spec fn reaches(table: Seq<CapabilityView>, node: Seq<char>, root: Seq<char>, fuel: nat) -> bool {
    chain(table, node, root, fuel) == ChainEnd::Reaches
}

/// The number of steps on the chain from `node` towards `root`, as far as it
/// goes within `fuel` steps.
pub open spec fn distance(
    table: Seq<CapabilityView>,
    node: Seq<char>,
    root: Seq<char>,
    fuel: nat,
) -> nat
    decreases fuel,
{
    if node == root || fuel == 0 {
        0
    } else {
        match parent_of(table, node, root) {
            Some(p) => 1 + distance(table, p, root, (fuel - 1) as nat),
            None => 0,
        }
    }
}

/// The value of `root` that holds `v` along the chain of parents, each
/// parent wrapping its child in the variant named after the child. Where the
/// chain does not arrive within `fuel` steps, the value as far as it got.
pub open spec fn to_root_spec(table: Seq<CapabilityView>, v: ValueView, root: Seq<char>, fuel: nat) -> ValueView
    decreases fuel,
{
    if v.node_name() == root || fuel == 0 {
        v
    } else {
        match parent_of(table, v.node_name(), root) {
            Some(p) => to_root_spec(table, wrap(p, v.node_name(), v), root, (fuel - 1) as nat),
            None => v,
        }
    }
}

/// `Some` for `Ok`.
pub open spec fn ok_of<A, E>(r: Result<A, E>) -> Option<A> {
    match r {
        Ok(a) => Some(a),
        Err(_) => None,
    }
}

/// The value of `target` that the value `v` of `root` holds along the chain
/// of parents from `target` to `root`: `v` itself where the target is the
/// root, else what the value of the target's parent wraps. `None` where `v`
/// is no value of `root`, where the chain does not arrive within `fuel`
/// steps, or where a value on the way holds another variant.
pub open spec fn from_root_spec(
    table: Seq<CapabilityView>,
    v: ValueView,
    target: Seq<char>,
    root: Seq<char>,
    fuel: nat,
) -> Option<ValueView>
    decreases fuel,
{
    if target == root {
        if v.node_name() == root {
            Some(v)
        } else {
            None
        }
    } else if fuel == 0 {
        None
    } else {
        match parent_of(table, target, root) {
            Some(p) => match from_root_spec(table, v, p, root, (fuel - 1) as nat) {
                Some(pv) => ok_of(extract_spec(ConversionView { node: target, parent: Some(p) }, pv)),
                None => None,
            },
            None => None,
        }
    }
}

/// The view of a value that may be absent.
pub open spec fn value_view(r: Option<Value>) -> Option<ValueView> {
    match r {
        Some(v) => Some(v@),
        None => None,
    }
}

/// The capabilities emitted for the first `n` nodes, in order.
pub open spec fn capabilities_of(nodes: Seq<NodeView>, n: nat) -> Seq<CapabilityView>
    decreases n,
{
    if n == 0 {
        Seq::empty()
    } else {
        capabilities_of(nodes, (n - 1) as nat) + synthesize_spec(nodes[n - 1]).capabilities
    }
}

/// The view of every node in a list, in order.
pub open spec fn node_views(v: Seq<Node>) -> Seq<NodeView> {
    Seq::new(v.len(), |i: int| v[i]@)
}

/// The capabilities of a forest, each binding a node and a root to the node's
/// parent under that root, and the number of nodes of the forest: no chain of
/// parents is followed for more steps than that.
#[derive(Clone, Debug, PartialEq, Eq)]
pub struct CapabilityTable {
    pub entries: Vec<Capability>,
    pub nodes: usize,
}

pub struct TableView {
    pub entries: Seq<CapabilityView>,
    pub nodes: nat,
}

impl View for CapabilityTable {
    type V = TableView;

    open spec fn view(&self) -> TableView {
        TableView { entries: capability_views(self.entries@), nodes: self.nodes as nat }
    }
}

/// Every chain that a capability of the table starts arrives at its root
/// within `bound` steps.
pub open spec fn chains_end(table: Seq<CapabilityView>, bound: nat) -> bool {
    forall|i: int|
        0 <= i < table.len() ==> reaches(table, (#[trigger] table[i]).node, table[i].root, bound)
}

/// The capability at `i` is the first whose chain does not arrive within
/// `bound` steps.
pub open spec fn first_broken_chain(table: Seq<CapabilityView>, bound: nat, i: int) -> bool {
    &&& 0 <= i < table.len()
    &&& !reaches(table, table[i].node, table[i].root, bound)
    &&& forall|j: int|
        0 <= j < i ==> reaches(table, (#[trigger] table[j]).node, table[j].root, bound)
}

/// The diagnostic for a chain from `node` towards `root` that ends as `end`.
pub open spec fn chain_diagnostic(node: Seq<char>, root: Seq<char>, end: ChainEnd) -> DiagnosticView {
    if end == ChainEnd::Dangles {
        DiagnosticView::DanglingChain { node, root }
    } else {
        DiagnosticView::NonTerminatingChain { node, root }
    }
}

/// The node at `i` is the first that is not valid.
pub open spec fn first_invalid(nodes: Seq<NodeView>, i: int) -> bool {
    &&& 0 <= i < nodes.len()
    &&& !valid(nodes[i])
    &&& forall|j: int| 0 <= j < i ==> valid(#[trigger] nodes[j])
}

/// Every node is valid.
pub open spec fn all_valid(nodes: Seq<NodeView>) -> bool {
    forall|j: int| 0 <= j < nodes.len() ==> valid(#[trigger] nodes[j])
}

/// The view of the result of making a table.
pub open spec fn table_view(r: Result<CapabilityTable, Diagnostic>) -> Result<
    TableView,
    DiagnosticView,
> {
    match r {
        Ok(t) => Ok(t@),
        Err(d) => Err(d@),
    }
}

/// What making the table of a forest answers. The nodes are validated in
/// order, and the first that is refused gives its diagnostic. Then the table
/// holds the capabilities of all nodes, and its chains are followed in order,
/// each for at most as many steps as the forest has nodes: the first that does
/// not arrive at its root gives the diagnostic.
pub open spec fn forest_outcome(nodes: Seq<NodeView>, r: Result<TableView, DiagnosticView>) -> bool {
    let table = capabilities_of(nodes, nodes.len());
    match r {
        Ok(t) => {
            &&& all_valid(nodes)
            &&& t == TableView { entries: table, nodes: nodes.len() }
            &&& chains_end(table, nodes.len())
        },
        Err(d) => {
            ||| exists|i: int| #[trigger] first_invalid(nodes, i) && validation(nodes[i], Err(d))
            ||| all_valid(nodes) && exists|i: int| #[trigger]
                first_broken_chain(table, nodes.len(), i) && d == chain_diagnostic(
                    table[i].node,
                    table[i].root,
                    chain(table, table[i].node, table[i].root, nodes.len()),
                )
        },
    }
}

impl CapabilityTable {
    /// Finds the capability that binds `node` under `root`.
    pub fn lookup(&self, node: &String, root: &String) -> (r: Option<&Capability>)
        ensures
            match r {
                Some(c) => lookup_from(self@.entries, node@, root@, 0) == Some(c@),
                None => lookup_from(self@.entries, node@, root@, 0) is None,
            },
    {
        let mut i: usize = 0;
        while i < self.entries.len()
            invariant
                i <= self.entries.len(),
                lookup_from(self@.entries, node@, root@, 0) == lookup_from(
                    self@.entries,
                    node@,
                    root@,
                    i as nat,
                ),
            decreases self.entries.len() - i,
        {
            let c = &self.entries[i];
            if c.node == *node && c.root == *root {
                return Some(c);
            }
            i += 1;
        }
        None
    }

    /// The parent of `node` under `root`.
    pub fn parent(&self, node: &String, root: &String) -> (r: Option<&TypeRef>)
        ensures
            match r {
                Some(p) => parent_of(self@.entries, node@, root@) == Some(p@),
                None => parent_of(self@.entries, node@, root@) is None,
            },
    {
        match self.lookup(node, root) {
            Some(c) => match &c.parent {
                Some(p) => Some(p),
                None => None,
            },
            None => None,
        }
    }

    /// Follows the chain of parents from `node` towards `root`, for at most
    /// as many steps as the forest has nodes.
    pub fn check_chain(&self, node: &String, root: &String) -> (end: ChainEnd)
        ensures
            end == chain(self@.entries, node@, root@, self@.nodes),
    {
        let mut fuel: usize = self.nodes;
        let mut current: &String = node;
        loop
            invariant
                chain(self@.entries, node@, root@, self@.nodes) == chain(
                    self@.entries,
                    current@,
                    root@,
                    fuel as nat,
                ),
            decreases fuel,
        {
            if *current == *root {
                return ChainEnd::Reaches;
            }
            if fuel == 0 {
                return ChainEnd::Exhausted;
            }
            match self.parent(current, root) {
                Some(p) => {
                    current = p;
                    fuel -= 1;
                },
                None => {
                    return ChainEnd::Dangles;
                },
            }
        }
    }

    /// Converts a value of a node into the value of `root` that holds it:
    /// the value itself where the node is the root, else the conversion of
    /// the value embedded in the node's parent under `root`.
    ///
    /// The chain from the value's node has to arrive at `root`: in a table
    /// made by `from_nodes` that of every node with a capability under `root`
    /// does.
    pub fn to_root(&self, value: Value, root: &String) -> (r: Value)
        requires
            reaches(self@.entries, value@.node_name(), root@, self@.nodes),
        ensures
            r@ == to_root_spec(self@.entries, value@, root@, self@.nodes),
            r@.node_name() == root@,
    {
        let ghost start = value@;
        let mut fuel: usize = self.nodes;
        let mut current = value;
        loop
            invariant
                start == value@,
                reaches(self@.entries, current@.node_name(), root@, fuel as nat),
                to_root_spec(self@.entries, start, root@, self@.nodes) == to_root_spec(
                    self@.entries,
                    current@,
                    root@,
                    fuel as nat,
                ),
            decreases fuel,
        {
            if *current.node_name() == *root {
                return current;
            }
            match self.parent(current.node_name(), root) {
                Some(p) => {
                    let ty = p.clone();
                    let variant = current.node_name().clone();
                    current = Value::Wrap { ty, variant, inner: Box::new(current) };
                    fuel -= 1;
                },
                None => {
                    return current;
                },
            }
        }
    }

    fn descend(&self, value: Value, target: &String, root: &String, fuel: usize) -> (r: Option<
        Value,
    >)
        ensures
            value_view(r) == from_root_spec(self@.entries, value@, target@, root@, fuel as nat),
        decreases fuel,
    {
        if *target == *root {
            if *value.node_name() == *root {
                Some(value)
            } else {
                None
            }
        } else if fuel == 0 {
            None
        } else {
            match self.parent(target, root) {
                Some(p) => match self.descend(value, p, root, fuel - 1) {
                    Some(pv) => {
                        let x = Extraction { node: target.clone(), parent: Some(p.clone()) };
                        match x.extract(pv) {
                            Ok(v) => Some(v),
                            Err(_) => None,
                        }
                    },
                    None => None,
                },
                None => None,
            }
        }
    }

    /// Recovers from a value of `root` the value of `target` that it holds:
    /// the value itself where the target is the root, else what the value of
    /// the target's parent under `root` wraps. The first extraction that
    /// fails ends the descent with `None`; no other parent is tried.
    pub fn from_root(&self, value: Value, target: &String, root: &String) -> (r: Option<Value>)
        ensures
            value_view(r) == from_root_spec(self@.entries, value@, target@, root@, self@.nodes),
    {
        self.descend(value, target, root, self.nodes)
    }

    /// Makes the table of a forest: validates every node, gathers the
    /// capabilities emitted for them, and follows the chain of every
    /// capability to its root before any conversion is used. A forest with a
    /// node that is refused, or with a chain that does not arrive, gives the
    /// diagnostic and no table.
    pub fn from_nodes(nodes: &Vec<Node>) -> (r: Result<CapabilityTable, Diagnostic>)
        ensures
            forest_outcome(node_views(nodes@), table_view(r)),
    {
        let ghost views = node_views(nodes@);
        let mut entries: Vec<Capability> = Vec::new();
        let mut i: usize = 0;
        while i < nodes.len()
            invariant
                i <= nodes.len(),
                views == node_views(nodes@),
                capability_views(entries@) == capabilities_of(views, i as nat),
                forall|j: int| 0 <= j < i ==> valid(#[trigger] views[j]),
            decreases nodes.len() - i,
        {
            match validate(&nodes[i]) {
                Err(d) => {
                    proof {
                        lemma_refused_is_invalid(views[i as int], d@);
                    }
                    assert(first_invalid(views, i as int));
                    return Err(d);
                },
                Ok(_) => {},
            }
            let mut s = synthesize(&nodes[i]);
            entries.append(&mut s.capabilities);
            i += 1;
        }
        let table = CapabilityTable { entries, nodes: nodes.len() };
        let mut k: usize = 0;
        while k < table.entries.len()
            invariant
                k <= table.entries.len(),
                views == node_views(nodes@),
                table@.entries == capabilities_of(views, views.len()),
                table@.nodes == views.len(),
                all_valid(views),
                forall|j: int|
                    0 <= j < k ==> reaches(
                        table@.entries,
                        (#[trigger] table@.entries[j]).node,
                        table@.entries[j].root,
                        table@.nodes,
                    ),
            decreases table.entries.len() - k,
        {
            let c = &table.entries[k];
            match table.check_chain(&c.node, &c.root) {
                ChainEnd::Reaches => {},
                ChainEnd::Dangles => {
                    assert(first_broken_chain(table@.entries, table@.nodes, k as int));
                    return Err(
                        Diagnostic::DanglingChain { node: c.node.clone(), root: c.root.clone() },
                    );
                },
                ChainEnd::Exhausted => {
                    assert(first_broken_chain(table@.entries, table@.nodes, k as int));
                    return Err(
                        Diagnostic::NonTerminatingChain {
                            node: c.node.clone(),
                            root: c.root.clone(),
                        },
                    );
                },
            }
            k += 1;
        }
        Ok(table)
    }
}

} // verus!
