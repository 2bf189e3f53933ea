//! From a declaration to the text of the code emitted for it.

use crate::diagnostic::{Diagnostic, DiagnosticView};
use crate::model::{
    association_views, marker_views, Association, AssociationView, Declaration, DeclarationView,
    Marker, MarkerView, Node, NodeKind, NodeView,
};
use crate::synth::{
    synthesize, synthesize_spec, text_view, Capability, CapabilityView, ConversionView, Embedding,
    Extraction, Synthesis, SynthesisView,
};
use crate::validate::{
    association_refusal, check_variants, valid, validate, validation, variant_refusal,
    variants_ok,
};
use vstd::prelude::*;

verus! {

/// The name of the marker that declares a node of kind `kind`.
pub open spec fn marker_name(kind: NodeKind) -> Seq<char> {
    match kind {
        NodeKind::Root => "enum_tree_root"@,
        NodeKind::Inner => "enum_tree_inner"@,
        NodeKind::Leaf => "enum_tree_leaf"@,
    }
}

/// The name of the marker trait emitted for a node of kind `kind`.
pub open spec fn kind_trait(kind: NodeKind) -> Seq<char> {
    match kind {
        NodeKind::Root => "EnumTreeRoot"@,
        NodeKind::Inner => "EnumTreeInner"@,
        NodeKind::Leaf => "EnumTreeLeaf"@,
    }
}

/// A parent as it is written in the emitted code: the unit type where there
/// is none.
pub open spec fn parent_text(parent: Option<Seq<char>>) -> Seq<char> {
    match parent {
        Some(p) => p,
        None => "()"@,
    }
}

/// `acc` followed by the two items emitted for one capability.
pub open spec fn capability_onto(acc: Seq<char>, kind: NodeKind, c: CapabilityView) -> Seq<char> {
    acc + "impl ::enum_tree::EnumTree<"@ + c.root + "> for "@ + c.node + " { type P = "@
        + parent_text(c.parent) + "; }\nimpl ::enum_tree::"@ + kind_trait(kind) + "<"@ + c.root
        + "> for "@ + c.node + " {}\n"@
}

/// `acc` followed by the item emitted for one embedding.
pub open spec fn embedding_onto(acc: Seq<char>, e: ConversionView) -> Seq<char> {
    match e.parent {
        Some(p) => acc + "impl From<"@ + e.node + "> for "@ + p + " { fn from(value: "@ + e.node
            + ") -> Self { "@ + p + "::"@ + e.node + "(value) } }\n"@,
        None => acc + "impl ::enum_tree::ToEnumTreeRoot<"@ + e.node + "> for "@ + e.node
            + " { fn to_root(self) -> "@ + e.node + " { self } }\n"@,
    }
}

/// `acc` followed by the item emitted for one extraction.
pub open spec fn extraction_onto(acc: Seq<char>, x: ConversionView) -> Seq<char> {
    match x.parent {
        Some(p) => acc + "impl TryFrom<"@ + p + "> for "@ + x.node
            + " { type Error = (); fn try_from(value: "@ + p
            + ") -> Result<Self, Self::Error> { if let "@ + p + "::"@ + x.node
            + "(v) = value { Ok(v) } else { Err(()) } } }\n"@,
        None => acc + "impl ::enum_tree::TryFromEnumTreeRoot<"@ + x.node + "> for "@ + x.node
            + " { fn from_root(root: "@ + x.node + ") -> Option<Self> { Some(root) } }\n"@,
    }
}

/// `acc` followed by what is emitted for the first `n` capabilities.
pub open spec fn capabilities_onto(
    acc: Seq<char>,
    kind: NodeKind,
    caps: Seq<CapabilityView>,
    n: nat,
) -> Seq<char>
    decreases n,
{
    if n == 0 {
        acc
    } else {
        capability_onto(capabilities_onto(acc, kind, caps, (n - 1) as nat), kind, caps[n - 1])
    }
}

/// `acc` followed by what is emitted for the first `n` pairs of an embedding
/// and its extraction.
pub open spec fn conversions_onto(
    acc: Seq<char>,
    embeddings: Seq<ConversionView>,
    extractions: Seq<ConversionView>,
    n: nat,
) -> Seq<char>
    decreases n,
{
    if n == 0 {
        acc
    } else {
        extraction_onto(
            embedding_onto(
                conversions_onto(acc, embeddings, extractions, (n - 1) as nat),
                embeddings[n - 1],
            ),
            extractions[n - 1],
        )
    }
}

/// The number of pairs of an embedding and an extraction.
pub open spec fn pairs(s: SynthesisView) -> nat {
    if s.embeddings.len() <= s.extractions.len() {
        s.embeddings.len()
    } else {
        s.extractions.len()
    }
}

/// The text of the code emitted for a synthesis: the capabilities in order,
/// then each embedding followed by its extraction.
pub open spec fn render_spec(s: SynthesisView) -> Seq<char> {
    conversions_onto(
        capabilities_onto(Seq::empty(), s.kind, s.capabilities, s.capabilities.len()),
        s.embeddings,
        s.extractions,
        pairs(s),
    )
}

fn push_parent(out: &mut String, parent: &Option<String>)
    ensures
        final(out)@ == old(out)@ + parent_text(text_view(*parent)),
{
    match parent {
        Some(p) => out.append(p.as_str()),
        None => out.append("()"),
    }
}

fn push_kind_trait(out: &mut String, kind: NodeKind)
    ensures
        final(out)@ == old(out)@ + kind_trait(kind),
{
    match kind {
        NodeKind::Root => out.append("EnumTreeRoot"),
        NodeKind::Inner => out.append("EnumTreeInner"),
        NodeKind::Leaf => out.append("EnumTreeLeaf"),
    }
}

fn push_capability(out: &mut String, kind: NodeKind, c: &Capability)
    ensures
        final(out)@ == capability_onto(old(out)@, kind, c@),
{
    out.append("impl ::enum_tree::EnumTree<");
    out.append(c.root.as_str());
    out.append("> for ");
    out.append(c.node.as_str());
    out.append(" { type P = ");
    push_parent(out, &c.parent);
    out.append("; }\nimpl ::enum_tree::");
    push_kind_trait(out, kind);
    out.append("<");
    out.append(c.root.as_str());
    out.append("> for ");
    out.append(c.node.as_str());
    out.append(" {}\n");
}

fn push_embedding(out: &mut String, e: &Embedding)
    ensures
        final(out)@ == embedding_onto(old(out)@, e@),
{
    match &e.parent {
        Some(p) => {
            out.append("impl From<");
            out.append(e.node.as_str());
            out.append("> for ");
            out.append(p.as_str());
            out.append(" { fn from(value: ");
            out.append(e.node.as_str());
            out.append(") -> Self { ");
            out.append(p.as_str());
            out.append("::");
            out.append(e.node.as_str());
            out.append("(value) } }\n");
        },
        None => {
            out.append("impl ::enum_tree::ToEnumTreeRoot<");
            out.append(e.node.as_str());
            out.append("> for ");
            out.append(e.node.as_str());
            out.append(" { fn to_root(self) -> ");
            out.append(e.node.as_str());
            out.append(" { self } }\n");
        },
    }
}

fn push_extraction(out: &mut String, x: &Extraction)
    ensures
        final(out)@ == extraction_onto(old(out)@, x@),
{
    match &x.parent {
        Some(p) => {
            out.append("impl TryFrom<");
            out.append(p.as_str());
            out.append("> for ");
            out.append(x.node.as_str());
            out.append(" { type Error = (); fn try_from(value: ");
            out.append(p.as_str());
            out.append(") -> Result<Self, Self::Error> { if let ");
            out.append(p.as_str());
            out.append("::");
            out.append(x.node.as_str());
            out.append("(v) = value { Ok(v) } else { Err(()) } } }\n");
        },
        None => {
            out.append("impl ::enum_tree::TryFromEnumTreeRoot<");
            out.append(x.node.as_str());
            out.append("> for ");
            out.append(x.node.as_str());
            out.append(" { fn from_root(root: ");
            out.append(x.node.as_str());
            out.append(") -> Option<Self> { Some(root) } }\n");
        },
    }
}

/// Writes out the code of a synthesis.
pub fn render(s: &Synthesis) -> (text: String)
    ensures
        text@ == render_spec(s@),
{
    let mut out = String::new();
    let mut i: usize = 0;
    while i < s.capabilities.len()
        invariant
            i <= s.capabilities.len(),
            out@ == capabilities_onto(Seq::empty(), s.kind, s@.capabilities, i as nat),
        decreases s.capabilities.len() - i,
    {
        push_capability(&mut out, s.kind, &s.capabilities[i]);
        i += 1;
    }
    let ghost base = out@;
    let n = if s.embeddings.len() <= s.extractions.len() {
        s.embeddings.len()
    } else {
        s.extractions.len()
    };
    let mut k: usize = 0;
    while k < n
        invariant
            k <= n,
            n <= s.embeddings.len(),
            n <= s.extractions.len(),
            out@ == conversions_onto(base, s@.embeddings, s@.extractions, k as nat),
        decreases n - k,
    {
        push_embedding(&mut out, &s.embeddings[k]);
        push_extraction(&mut out, &s.extractions[k]);
        k += 1;
    }
    out
}

/// The association that a marker declares: its first type is the parent, its
/// second the root.
pub open spec fn marker_association(m: MarkerView) -> AssociationView {
    AssociationView { parent: m.args[0], root: m.args[1] }
}

/// A marker that names fewer than two types.
pub open spec fn malformed(m: MarkerView) -> bool {
    m.args.len() < 2
}

/// The associations that the markers called `name` declare among the first
/// `n` markers, in order.
pub open spec fn associations_of(markers: Seq<MarkerView>, name: Seq<char>, n: nat) -> Seq<
    AssociationView,
>
    decreases n,
{
    if n == 0 {
        Seq::empty()
    } else {
        let front = associations_of(markers, name, (n - 1) as nat);
        if markers[n - 1].name == name {
            front.push(marker_association(markers[n - 1]))
        } else {
            front
        }
    }
}

/// Every marker called `name` names two types.
pub open spec fn well_formed(markers: Seq<MarkerView>, name: Seq<char>) -> bool {
    forall|j: int|
        0 <= j < markers.len() && (#[trigger] markers[j]).name == name ==> !malformed(markers[j])
}

/// The marker at `i` is the first called `name` that names fewer than two
/// types.
pub open spec fn first_malformed(markers: Seq<MarkerView>, name: Seq<char>, i: int) -> bool {
    &&& 0 <= i < markers.len()
    &&& markers[i].name == name
    &&& malformed(markers[i])
    &&& forall|j: int| 0 <= j < i && (#[trigger] markers[j]).name == name ==> !malformed(markers[j])
}

/// The node that a declaration declares when read as one of kind `kind`: for a
/// root no association; for the others those of the markers of that kind.
pub open spec fn node_of(decl: DeclarationView, kind: NodeKind) -> NodeView {
    NodeView {
        name: decl.name,
        kind,
        associations: if kind == NodeKind::Root {
            Seq::empty()
        } else {
            associations_of(decl.markers, marker_name(kind), decl.markers.len())
        },
        variants: decl.variants,
    }
}

/// The view of an expansion's result.
pub open spec fn expansion_view(r: Result<String, Diagnostic>) -> Result<
    Seq<char>,
    DiagnosticView,
> {
    match r {
        Ok(text) => Ok(text@),
        Err(d) => Err(d@),
    }
}

/// What the expansion of a node answers: the code of its synthesis where the
/// node is valid, and what validation reports where it is not.
pub open spec fn expansion_of(node: NodeView, r: Result<Seq<char>, DiagnosticView>) -> bool {
    match r {
        Ok(text) => validation(node, Ok(())) && text == render_spec(synthesize_spec(node)),
        Err(d) => validation(node, Err(d)),
    }
}

/// What the expansion of a declaration read as a node of kind `kind` answers.
///
/// The variants are checked first, then the markers of that kind are read,
/// then the associations are checked; the first fault found is reported and
/// no code is written. Without a fault the answer is the code of the node's
/// synthesis.
pub open spec fn expansion(
    decl: DeclarationView,
    kind: NodeKind,
    r: Result<Seq<char>, DiagnosticView>,
) -> bool {
    let node = node_of(decl, kind);
    let read = kind != NodeKind::Root ==> well_formed(decl.markers, marker_name(kind));
    match r {
        Ok(text) => read && valid(node) && text == render_spec(synthesize_spec(node)),
        Err(d) => {
            ||| variant_refusal(decl.name, kind, decl.variants, d)
            ||| {
                &&& variants_ok(kind, decl.variants)
                &&& kind != NodeKind::Root
                &&& d matches DiagnosticView::MalformedMarker { node: n, marker }
                &&& n == decl.name
                &&& first_malformed(decl.markers, marker_name(kind), marker)
            }
            ||| {
                &&& variants_ok(kind, decl.variants)
                &&& read
                &&& association_refusal(decl.name, kind, node.associations, d)
            }
        },
    }
}

/// Reads the two types of a marker as an association: the parent, then the
/// root. Types after the second are not read. The marker has to name two
/// types at least.
pub fn parse_two_type_args(marker: &Marker) -> (a: Association)
    requires
        !malformed(marker@),
    ensures
        a@ == marker_association(marker@),
{
    Association { parent: marker.args[0].clone(), root: marker.args[1].clone() }
}

fn is_named(marker: &Marker, name: &str) -> (b: bool)
    ensures
        b == (marker@.name == name@),
{
    let key = String::from_str(name);
    marker.name == key
}

fn kind_marker(kind: NodeKind) -> (name: &'static str)
    ensures
        name@ == marker_name(kind),
{
    match kind {
        NodeKind::Root => "enum_tree_root",
        NodeKind::Inner => "enum_tree_inner",
        NodeKind::Leaf => "enum_tree_leaf",
    }
}

/// The associations that the markers of kind `kind` declare, in order.
fn collect_associations(node: &String, markers: &Vec<Marker>, kind: NodeKind) -> (r: Result<
    Vec<Association>,
    Diagnostic,
>)
    ensures
        match r {
            Ok(list) => {
                &&& well_formed(marker_views(markers@), marker_name(kind))
                &&& association_views(list@) == associations_of(
                    marker_views(markers@),
                    marker_name(kind),
                    markers@.len(),
                )
            },
            Err(d) => exists|i: int| #[trigger]
                first_malformed(marker_views(markers@), marker_name(kind), i) && d@ == (
                DiagnosticView::MalformedMarker { node: node@, marker: i }),
        },
{
    let name = kind_marker(kind);
    let ghost views = marker_views(markers@);
    let mut list: Vec<Association> = Vec::new();
    let mut i: usize = 0;
    while i < markers.len()
        invariant
            i <= markers.len(),
            views == marker_views(markers@),
            name@ == marker_name(kind),
            association_views(list@) == associations_of(views, name@, i as nat),
            forall|j: int|
                0 <= j < i && (#[trigger] views[j]).name == name@ ==> !malformed(views[j]),
        decreases markers.len() - i,
    {
        if is_named(&markers[i], name) {
            if markers[i].args.len() < 2 {
                assert(first_malformed(views, name@, i as int));
                return Err(Diagnostic::MalformedMarker { node: node.clone(), marker: i });
            }
            list.push(parse_two_type_args(&markers[i]));
        }
        i += 1;
    }
    Ok(list)
}

/// Checks a node and, where it is valid, writes out the code of its
/// conversions. An invalid node gives its diagnostic and no code.
pub fn expand_node(node: &Node) -> (r: Result<String, Diagnostic>)
    ensures
        expansion_of(node@, expansion_view(r)),
{
    match validate(node) {
        Ok(_) => {
            let s = synthesize(node);
            Ok(render(&s))
        },
        Err(d) => Err(d),
    }
}

/// Expands a declaration as a root: it is its own root, without a parent, and
/// its conversions to and from the root are the identity. Markers of the
/// other kinds are not read.
pub fn expand_enum_tree_root(input: Declaration) -> (r: Result<String, Diagnostic>)
    ensures
        expansion(input@, NodeKind::Root, expansion_view(r)),
{
    let Declaration { name, markers, variants } = input;
    let node = Node { name, kind: NodeKind::Root, associations: Vec::new(), variants };
    expand_node(&node)
}

/// Expands a declaration as a node of kind `kind` that is no root.
fn expand_with_associations(input: Declaration, kind: NodeKind) -> (r: Result<String, Diagnostic>)
    requires
        kind != NodeKind::Root,
    ensures
        expansion(input@, kind, expansion_view(r)),
{
    let Declaration { name, markers, variants } = input;
    match check_variants(&name, kind, &variants) {
        Err(d) => Err(d),
        Ok(_) => match collect_associations(&name, &markers, kind) {
            Err(d) => Err(d),
            Ok(associations) => {
                let node = Node { name, kind, associations, variants };
                expand_node(&node)
            },
        },
    }
}

/// Expands a declaration as an inner node, with one association for each
/// `enum_tree_inner` marker. Every variant has to wrap one child and be named
/// after it.
pub fn expand_enum_tree_inner(input: Declaration) -> (r: Result<String, Diagnostic>)
    ensures
        expansion(input@, NodeKind::Inner, expansion_view(r)),
{
    expand_with_associations(input, NodeKind::Inner)
}

/// Expands a declaration as a leaf, with one association for each
/// `enum_tree_leaf` marker. A leaf with a variant of unnamed fields is
/// refused before its markers are read, and no code is written for it.
pub fn expand_enum_tree_leaf(input: Declaration) -> (r: Result<String, Diagnostic>)
    ensures
        expansion(input@, NodeKind::Leaf, expansion_view(r)),
{
    expand_with_associations(input, NodeKind::Leaf)
}

/// Some marker is called `name`.
pub open spec fn has_marker(markers: Seq<MarkerView>, name: Seq<char>) -> bool {
    exists|i: int| 0 <= i < markers.len() && (#[trigger] markers[i]).name == name
}

/// The kind that the markers declare: a root where there is a root marker,
/// whatever else there is; else an inner node where there is an inner marker;
/// else a leaf where there is a leaf marker.
pub open spec fn declared_kind(markers: Seq<MarkerView>) -> Option<NodeKind> {
    if has_marker(markers, marker_name(NodeKind::Root)) {
        Some(NodeKind::Root)
    } else if has_marker(markers, marker_name(NodeKind::Inner)) {
        Some(NodeKind::Inner)
    } else if has_marker(markers, marker_name(NodeKind::Leaf)) {
        Some(NodeKind::Leaf)
    } else {
        None
    }
}

/// A marker that declares an association: an inner or a leaf marker.
pub open spec fn takes_types(m: MarkerView) -> bool {
    m.name == marker_name(NodeKind::Inner) || m.name == marker_name(NodeKind::Leaf)
}

/// Whether a marker declares an association, and so names types: an inner or
/// a leaf marker does, the root marker and every other attribute do not.
pub fn declares_association(marker: &Marker) -> (b: bool)
    ensures
        b == takes_types(marker@),
{
    is_named(marker, "enum_tree_inner") || is_named(marker, "enum_tree_leaf")
}

/// The marker at `i` is the first inner or leaf marker that names fewer than
/// two types.
pub open spec fn first_malformed_any(markers: Seq<MarkerView>, i: int) -> bool {
    &&& 0 <= i < markers.len()
    &&& takes_types(markers[i])
    &&& malformed(markers[i])
    &&& forall|j: int| 0 <= j < i && takes_types(#[trigger] markers[j]) ==> !malformed(markers[j])
}

/// What the expansion of a declaration answers. An inner or leaf marker with
/// fewer than two types is reported first, whatever the kind; a declaration
/// without any of the three markers next; then the declaration is expanded as
/// a node of the kind that its markers declare.
pub open spec fn derivation(decl: DeclarationView, r: Result<Seq<char>, DiagnosticView>) -> bool {
    match r {
        Err(DiagnosticView::MalformedMarker { node, marker }) => {
            &&& node == decl.name
            &&& first_malformed_any(decl.markers, marker)
        },
        _ => {
            &&& forall|j: int|
                0 <= j < decl.markers.len() && takes_types(#[trigger] decl.markers[j])
                    ==> !malformed(decl.markers[j])
            &&& match declared_kind(decl.markers) {
                Some(kind) => expansion(decl, kind, r),
                None => r == Err::<Seq<char>, DiagnosticView>(
                    DiagnosticView::MissingMarker { node: decl.name },
                ),
            }
        },
    }
}

/// Expands a declaration by the kind that its markers declare.
pub fn expand_enum_tree(input: Declaration) -> (r: Result<String, Diagnostic>)
    ensures
        derivation(input@, expansion_view(r)),
{
    let ghost views = marker_views(input.markers@);
    let mut is_root = false;
    let mut is_inner = false;
    let mut is_leaf = false;
    let mut i: usize = 0;
    while i < input.markers.len()
        invariant
            i <= input.markers.len(),
            views == marker_views(input.markers@),
            is_root == has_marker(views.take(i as int), marker_name(NodeKind::Root)),
            is_inner == has_marker(views.take(i as int), marker_name(NodeKind::Inner)),
            is_leaf == has_marker(views.take(i as int), marker_name(NodeKind::Leaf)),
            forall|j: int| 0 <= j < i && takes_types(#[trigger] views[j]) ==> !malformed(views[j]),
        decreases input.markers.len() - i,
    {
        let marker = &input.markers[i];
        let ghost before = views.take(i as int);
        let ghost after = views.take(i as int + 1);
        let root_here = is_named(marker, "enum_tree_root");
        let inner_here = is_named(marker, "enum_tree_inner");
        let leaf_here = is_named(marker, "enum_tree_leaf");
        if declares_association(marker) && marker.args.len() < 2 {
            return Err(Diagnostic::MalformedMarker { node: input.name.clone(), marker: i });
        }
        proof {
            lemma_has_marker_step(before, after, marker_name(NodeKind::Root));
            lemma_has_marker_step(before, after, marker_name(NodeKind::Inner));
            lemma_has_marker_step(before, after, marker_name(NodeKind::Leaf));
        }
        is_root = is_root || root_here;
        is_inner = is_inner || inner_here;
        is_leaf = is_leaf || leaf_here;
        i += 1;
    }
    assert(views.take(i as int) =~= views);
    if is_root {
        expand_enum_tree_root(input)
    } else if is_inner {
        expand_enum_tree_inner(input)
    } else if is_leaf {
        expand_enum_tree_leaf(input)
    } else {
        Err(Diagnostic::MissingMarker { node: input.name.clone() })
    }
}

/// A list one longer holds a marker called `name` where the shorter one does,
/// or where its last marker is called so.
proof fn lemma_has_marker_step(before: Seq<MarkerView>, after: Seq<MarkerView>, name: Seq<char>)
    requires
        after.len() == before.len() + 1,
        forall|j: int| 0 <= j < before.len() ==> before[j] == after[j],
    ensures
        has_marker(after, name) == (has_marker(before, name) || after.last().name == name),
{
}

} // verus!
