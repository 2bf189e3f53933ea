//! What is emitted for one node: a capability for each tree it belongs to,
//! and one embedding and one extraction for each distinct parent.

use crate::model::{
    association_views, texts, Association, AssociationView, Node, NodeKind, NodeView, TypeRef,
};
use vstd::prelude::*;

verus! {

/// Under the tree rooted at `root`, the parent of `node` is `parent`; a root
/// has none.
#[derive(Clone, Debug, PartialEq, Eq)]
pub struct Capability {
    pub node: String,
    pub root: TypeRef,
    pub parent: Option<TypeRef>,
}

pub struct CapabilityView {
    pub node: Seq<char>,
    pub root: Seq<char>,
    pub parent: Option<Seq<char>>,
}

/// The view of a text that may be absent.
pub open spec fn text_view(t: Option<String>) -> Option<Seq<char>> {
    match t {
        Some(s) => Some(s@),
        None => None,
    }
}

impl View for Capability {
    type V = CapabilityView;

    open spec fn view(&self) -> CapabilityView {
        CapabilityView { node: self.node@, root: self.root@, parent: text_view(self.parent) }
    }
}

/// The view of every capability in a list, in order.
pub open spec fn capability_views(v: Seq<Capability>) -> Seq<CapabilityView> {
    Seq::new(v.len(), |i: int| v[i]@)
}

/// The total conversion of a value of `node` into a value of `parent`, in the
/// parent's variant named after the node. Without a parent it is the
/// identity, as emitted for a root.
#[derive(Clone, Debug, PartialEq, Eq)]
pub struct Embedding {
    pub node: String,
    pub parent: Option<TypeRef>,
}

/// The partial conversion of a value of `parent` into the value of `node`
/// that it wraps. Without a parent it is the identity, as emitted for a root.
#[derive(Clone, Debug, PartialEq, Eq)]
pub struct Extraction {
    pub node: String,
    pub parent: Option<TypeRef>,
}

/// The view of an embedding and of an extraction: the node and the parent.
pub struct ConversionView {
    pub node: Seq<char>,
    pub parent: Option<Seq<char>>,
}

impl View for Embedding {
    type V = ConversionView;

    open spec fn view(&self) -> ConversionView {
        ConversionView { node: self.node@, parent: text_view(self.parent) }
    }
}

impl View for Extraction {
    type V = ConversionView;

    open spec fn view(&self) -> ConversionView {
        ConversionView { node: self.node@, parent: text_view(self.parent) }
    }
}

/// The view of every embedding in a list, in order.
pub open spec fn embedding_views(v: Seq<Embedding>) -> Seq<ConversionView> {
    Seq::new(v.len(), |i: int| v[i]@)
}

/// The view of every extraction in a list, in order.
pub open spec fn extraction_views(v: Seq<Extraction>) -> Seq<ConversionView> {
    Seq::new(v.len(), |i: int| v[i]@)
}

/// All that is emitted for one node.
#[derive(Clone, Debug, PartialEq, Eq)]
pub struct Synthesis {
    pub node: String,
    pub kind: NodeKind,
    pub capabilities: Vec<Capability>,
    pub embeddings: Vec<Embedding>,
    pub extractions: Vec<Extraction>,
}

pub struct SynthesisView {
    pub node: Seq<char>,
    pub kind: NodeKind,
    pub capabilities: Seq<CapabilityView>,
    pub embeddings: Seq<ConversionView>,
    pub extractions: Seq<ConversionView>,
}

impl View for Synthesis {
    type V = SynthesisView;

    open spec fn view(&self) -> SynthesisView {
        SynthesisView {
            node: self.node@,
            kind: self.kind,
            capabilities: capability_views(self.capabilities@),
            embeddings: embedding_views(self.embeddings@),
            extractions: extraction_views(self.extractions@),
        }
    }
}

/// The items of `s` without repetition: each one where it first occurs.
pub open spec fn distinct<A>(s: Seq<A>) -> Seq<A>
    decreases s.len(),
{
    if s.len() == 0 {
        Seq::empty()
    } else {
        let front = distinct(s.drop_last());
        if front.contains(s.last()) {
            front
        } else {
            front.push(s.last())
        }
    }
}

/// The parent of every association, in order.
pub open spec fn parents_of(assocs: Seq<AssociationView>) -> Seq<Seq<char>> {
    Seq::new(assocs.len(), |i: int| assocs[i].parent)
}

/// The capability that one association of `node` gives.
pub open spec fn capability_of(node: Seq<char>, a: AssociationView) -> CapabilityView {
    CapabilityView { node, root: a.root, parent: Some(a.parent) }
}

/// What is emitted for `node`.
///
/// For a root: the capability that makes it its own root, without a parent,
/// and the identity as embedding and as extraction. For an inner node or a
/// leaf: one capability for each association, a repeated association counting
/// once; and one embedding and one extraction for each distinct parent, in the
/// order in which the parents first occur.
pub open spec fn synthesize_spec(node: NodeView) -> SynthesisView {
    if node.kind == NodeKind::Root {
        SynthesisView {
            node: node.name,
            kind: node.kind,
            capabilities: seq![CapabilityView { node: node.name, root: node.name, parent: None }],
            embeddings: seq![ConversionView { node: node.name, parent: None }],
            extractions: seq![ConversionView { node: node.name, parent: None }],
        }
    } else {
        let assocs = distinct(node.associations);
        let parents = distinct(parents_of(node.associations));
        SynthesisView {
            node: node.name,
            kind: node.kind,
            capabilities: Seq::new(assocs.len(), |i: int| capability_of(node.name, assocs[i])),
            embeddings: Seq::new(
                parents.len(),
                |i: int| ConversionView { node: node.name, parent: Some(parents[i]) },
            ),
            extractions: Seq::new(
                parents.len(),
                |i: int| ConversionView { node: node.name, parent: Some(parents[i]) },
            ),
        }
    }
}

/// `distinct` holds nothing twice, and holds exactly what the list holds.
pub proof fn lemma_distinct<A>(s: Seq<A>)
    ensures
        distinct(s).no_duplicates(),
        distinct(s).len() <= s.len(),
        forall|a: A| #[trigger] distinct(s).contains(a) <==> s.contains(a),
    decreases s.len(),
{
    if s.len() > 0 {
        let front = s.drop_last();
        let df = distinct(front);
        let ds = distinct(s);
        lemma_distinct(front);
        assert forall|a: A| #[trigger] ds.contains(a) <==> s.contains(a) by {
            if ds.contains(a) {
                let i = choose|i: int| 0 <= i < ds.len() && ds[i] == a;
                if i < df.len() {
                    assert(df.contains(a));
                    let j = choose|j: int| 0 <= j < front.len() && front[j] == a;
                    assert(s[j] == a);
                }
            }
            if s.contains(a) {
                let i = choose|i: int| 0 <= i < s.len() && s[i] == a;
                if i < s.len() - 1 {
                    assert(front[i] == a);
                    assert(df.contains(a));
                    let j = choose|j: int| 0 <= j < df.len() && df[j] == a;
                    assert(ds[j] == a);
                } else if !df.contains(s.last()) {
                    assert(ds[ds.len() - 1] == a);
                }
            }
        }
    }
}

/// Whether `list` holds an association equal to `a`.
fn holds_association(list: &Vec<Association>, a: &Association) -> (b: bool)
    ensures
        b == association_views(list@).contains(a@),
{
    let ghost views = association_views(list@);
    let mut i: usize = 0;
    while i < list.len()
        invariant
            i <= list.len(),
            views == association_views(list@),
            forall|j: int| 0 <= j < i ==> views[j] != a@,
        decreases list.len() - i,
    {
        if list[i].parent == a.parent && list[i].root == a.root {
            assert(views[i as int] == a@);
            return true;
        }
        i += 1;
    }
    false
}

/// Whether `list` holds the text `t`.
fn holds_text(list: &Vec<TypeRef>, t: &TypeRef) -> (b: bool)
    ensures
        b == texts(list@).contains(t@),
{
    let ghost views = texts(list@);
    let mut i: usize = 0;
    while i < list.len()
        invariant
            i <= list.len(),
            views == texts(list@),
            forall|j: int| 0 <= j < i ==> views[j] != t@,
        decreases list.len() - i,
    {
        if list[i] == *t {
            assert(views[i as int] == t@);
            return true;
        }
        i += 1;
    }
    false
}

/// The associations without repetition, each where it first occurs.
pub fn distinct_associations(assocs: &Vec<Association>) -> (out: Vec<Association>)
    ensures
        association_views(out@) == distinct(association_views(assocs@)),
{
    let ghost all = association_views(assocs@);
    let mut out: Vec<Association> = Vec::new();
    let mut i: usize = 0;
    while i < assocs.len()
        invariant
            i <= assocs.len(),
            all == association_views(assocs@),
            association_views(out@) == distinct(all.take(i as int)),
        decreases assocs.len() - i,
    {
        let a = &assocs[i];
        assert(all.take(i as int + 1).drop_last() =~= all.take(i as int));
        if !holds_association(&out, a) {
            out.push(Association { parent: a.parent.clone(), root: a.root.clone() });
        }
        i += 1;
    }
    assert(all.take(assocs.len() as int) =~= all);
    out
}

/// The parents of the associations without repetition, each where it first
/// occurs.
pub fn distinct_parents(assocs: &Vec<Association>) -> (out: Vec<TypeRef>)
    ensures
        texts(out@) == distinct(parents_of(association_views(assocs@))),
{
    let ghost all = parents_of(association_views(assocs@));
    let mut out: Vec<TypeRef> = Vec::new();
    let mut i: usize = 0;
    while i < assocs.len()
        invariant
            i <= assocs.len(),
            all == parents_of(association_views(assocs@)),
            texts(out@) == distinct(all.take(i as int)),
        decreases assocs.len() - i,
    {
        let p = &assocs[i].parent;
        assert(all.take(i as int + 1).drop_last() =~= all.take(i as int));
        if !holds_text(&out, p) {
            out.push(p.clone());
        }
        i += 1;
    }
    assert(all.take(assocs.len() as int) =~= all);
    out
}

/// Emits the capabilities, embeddings and extractions of one node. Only this
/// node's declaration is read; the parents' own declarations are not.
pub fn synthesize(node: &Node) -> (s: Synthesis)
    ensures
        s@ == synthesize_spec(node@),
{
    let mut capabilities: Vec<Capability> = Vec::new();
    let mut embeddings: Vec<Embedding> = Vec::new();
    let mut extractions: Vec<Extraction> = Vec::new();
    match node.kind {
        NodeKind::Root => {
            capabilities.push(
                Capability { node: node.name.clone(), root: node.name.clone(), parent: None },
            );
            embeddings.push(Embedding { node: node.name.clone(), parent: None });
            extractions.push(Extraction { node: node.name.clone(), parent: None });
            assert(capability_views(capabilities@) =~= synthesize_spec(node@).capabilities);
            assert(embedding_views(embeddings@) =~= synthesize_spec(node@).embeddings);
            assert(extraction_views(extractions@) =~= synthesize_spec(node@).extractions);
        },
        _ => {
            let assocs = distinct_associations(&node.associations);
            let parents = distinct_parents(&node.associations);
            let mut i: usize = 0;
            while i < assocs.len()
                invariant
                    i <= assocs.len(),
                    capabilities@.len() == i,
                    forall|j: int|
                        0 <= j < i ==> (#[trigger] capabilities@[j])@ == capability_of(
                            node.name@,
                            association_views(assocs@)[j],
                        ),
                decreases assocs.len() - i,
            {
                capabilities.push(
                    Capability {
                        node: node.name.clone(),
                        root: assocs[i].root.clone(),
                        parent: Some(assocs[i].parent.clone()),
                    },
                );
                i += 1;
            }
            let mut k: usize = 0;
            while k < parents.len()
                invariant
                    k <= parents.len(),
                    embeddings@.len() == k,
                    extractions@.len() == k,
                    forall|j: int|
                        0 <= j < k ==> (#[trigger] embeddings@[j])@ == (ConversionView {
                            node: node.name@,
                            parent: Some(texts(parents@)[j]),
                        }),
                    forall|j: int|
                        0 <= j < k ==> (#[trigger] extractions@[j])@ == (ConversionView {
                            node: node.name@,
                            parent: Some(texts(parents@)[j]),
                        }),
                decreases parents.len() - k,
            {
                embeddings.push(
                    Embedding { node: node.name.clone(), parent: Some(parents[k].clone()) },
                );
                extractions.push(
                    Extraction { node: node.name.clone(), parent: Some(parents[k].clone()) },
                );
                k += 1;
            }
            assert(capability_views(capabilities@) =~= synthesize_spec(node@).capabilities);
            assert(embedding_views(embeddings@) =~= synthesize_spec(node@).embeddings);
            assert(extraction_views(extractions@) =~= synthesize_spec(node@).extractions);
        },
    }
    Synthesis { node: node.name.clone(), kind: node.kind, capabilities, embeddings, extractions }
}

} // verus!
