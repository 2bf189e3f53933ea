//! The rules a node's declaration has to meet.

use crate::diagnostic::{Diagnostic, DiagnosticView};
use crate::model::{
    association_views, variant_views, Association, AssociationView, ChildRef, ChildView, Node,
    NodeKind, NodeView, VariantDescriptor, VariantShape, VariantShapeView, VariantView,
};
use vstd::prelude::*;

verus! {

/// The last identifier of a type that is written as a path; `None` for a
/// type that is no path.
pub open spec fn terminal_of(child: ChildView) -> Option<Seq<char>> {
    match child.segments {
        Some(list) => if list.len() > 0 {
            Some(list.last())
        } else {
            None
        },
        None => None,
    }
}

/// The view of an identifier that may be absent.
pub open spec fn ident_view(ident: Option<&String>) -> Option<Seq<char>> {
    match ident {
        Some(s) => Some(s@),
        None => None,
    }
}

/// The identifier that a type ends in: the last segment of its path.
/// `Parent` for `Parent`, for `super::Parent` and for `Parent<T>`; `None` for
/// a type that is no path.
pub fn type_ident_from_type(ty: &ChildRef) -> (r: Option<&String>)
    ensures
        ident_view(r) == terminal_of(ty@),
{
    match &ty.segments {
        Some(list) => {
            if list.len() > 0 {
                Some(&list[list.len() - 1])
            } else {
                None
            }
        },
        None => None,
    }
}

/// Whether a variant called `name` wraps a child whose type ends in the
/// identifier `terminal`.
pub open spec fn wraps(name: Seq<char>, terminal: Option<Seq<char>>) -> bool {
    terminal == Some(name)
}

/// Whether the variant `name` is named after the last identifier `terminal`
/// of its child's type.
pub fn variant_wraps(name: &String, terminal: Option<&String>) -> (b: bool)
    ensures
        b == wraps(name@, ident_view(terminal)),
{
    match terminal {
        Some(t) => *t == *name,
        None => false,
    }
}

/// Whether a variant has the shape that a node of kind `kind` may hold: for a
/// leaf, anything but unnamed fields; for a root or an inner node, exactly one
/// unnamed field whose type ends in the variant's own name.
pub open spec fn variant_ok(kind: NodeKind, v: VariantView) -> bool {
    match kind {
        NodeKind::Leaf => !(v.shape is Positional),
        _ => match v.shape {
            VariantShapeView::Positional(tys) => tys.len() == 1 && wraps(
                v.name,
                terminal_of(tys[0]),
            ),
            _ => false,
        },
    }
}

/// Every variant has the shape that a node of kind `kind` asks for.
pub open spec fn variants_ok(kind: NodeKind, variants: Seq<VariantView>) -> bool {
    forall|j: int| 0 <= j < variants.len() ==> variant_ok(kind, #[trigger] variants[j])
}

/// The variant at `i` is the first that has not the shape that a node of kind
/// `kind` asks for.
pub open spec fn first_bad_variant(kind: NodeKind, variants: Seq<VariantView>, i: int) -> bool {
    &&& 0 <= i < variants.len()
    &&& !variant_ok(kind, variants[i])
    &&& forall|j: int| 0 <= j < i ==> variant_ok(kind, #[trigger] variants[j])
}

/// Two associations that give one root two different parents.
pub open spec fn clash(a: AssociationView, b: AssociationView) -> bool {
    a.root == b.root && a.parent != b.parent
}

/// The association at `j` clashes with one before it.
pub open spec fn clashes_before(assocs: Seq<AssociationView>, j: int) -> bool {
    exists|i: int| 0 <= i < j && clash(#[trigger] assocs[i], assocs[j])
}

/// No two associations clash. The same pair of parent and root may occur more
/// than once.
pub open spec fn no_clash(assocs: Seq<AssociationView>) -> bool {
    forall|k: int| 0 <= k < assocs.len() ==> !#[trigger] clashes_before(assocs, k)
}

/// The association at `j` is the first that clashes with one before it.
pub open spec fn first_clash(assocs: Seq<AssociationView>, j: int) -> bool {
    &&& 0 <= j < assocs.len()
    &&& clashes_before(assocs, j)
    &&& forall|k: int| 0 <= k < j ==> !#[trigger] clashes_before(assocs, k)
}

/// The associations are those that a node of kind `kind` may hold: none for
/// a root; at least one, and no clash, for the others.
pub open spec fn associations_ok(kind: NodeKind, assocs: Seq<AssociationView>) -> bool {
    if kind == NodeKind::Root {
        assocs.len() == 0
    } else {
        assocs.len() > 0 && no_clash(assocs)
    }
}

/// A node that meets every rule.
pub open spec fn valid(node: NodeView) -> bool {
    variants_ok(node.kind, node.variants) && associations_ok(node.kind, node.associations)
}

/// `d` reports the first variant of the node `name` that has not the shape
/// its kind asks for: by its name and its position.
pub open spec fn variant_refusal(
    name: Seq<char>,
    kind: NodeKind,
    variants: Seq<VariantView>,
    d: DiagnosticView,
) -> bool {
    match d {
        DiagnosticView::VariantShapeMismatch { node, variant, index } => {
            &&& kind != NodeKind::Leaf
            &&& node == name
            &&& first_bad_variant(kind, variants, index)
            &&& variant == variants[index].name
        },
        DiagnosticView::LeafHasPositionalVariant { node, variant, index } => {
            &&& kind == NodeKind::Leaf
            &&& node == name
            &&& first_bad_variant(kind, variants, index)
            &&& variant == variants[index].name
        },
        _ => false,
    }
}

/// `d` reports what is wrong with the associations of the node `name`: a root
/// that has one, another node that has none, or the root of the first
/// association that clashes with one before it.
pub open spec fn association_refusal(
    name: Seq<char>,
    kind: NodeKind,
    assocs: Seq<AssociationView>,
    d: DiagnosticView,
) -> bool {
    match d {
        DiagnosticView::RootHasAssociation { node } => {
            &&& node == name
            &&& kind == NodeKind::Root
            &&& assocs.len() > 0
        },
        DiagnosticView::MissingAssociation { node } => {
            &&& node == name
            &&& kind != NodeKind::Root
            &&& assocs.len() == 0
        },
        DiagnosticView::ConflictingAssociation { node, root } => {
            &&& node == name
            &&& kind != NodeKind::Root
            &&& exists|j: int| #[trigger] first_clash(assocs, j) && root == assocs[j].root
        },
        _ => false,
    }
}

/// What validation answers on `node`. The variants are looked at first, in
/// order, and the first that breaks the rule is reported; then the
/// associations.
pub open spec fn validation(node: NodeView, r: Result<(), DiagnosticView>) -> bool {
    match r {
        Ok(_) => valid(node),
        Err(d) => {
            ||| variant_refusal(node.name, node.kind, node.variants, d)
            ||| variants_ok(node.kind, node.variants) && association_refusal(
                node.name,
                node.kind,
                node.associations,
                d,
            )
        },
    }
}

/// The view of a result of validation.
pub open spec fn outcome_view(r: Result<(), Diagnostic>) -> Result<(), DiagnosticView> {
    match r {
        Ok(_) => Ok(()),
        Err(d) => Err(d@),
    }
}

/// A node that validation refuses is not valid: no node is both accepted and
/// refused.
pub proof fn lemma_refused_is_invalid(node: NodeView, d: DiagnosticView)
    requires
        validation(node, Err(d)),
    ensures
        !valid(node),
{
    if let DiagnosticView::ConflictingAssociation { node: n, root } = d {
        let j = choose|j: int| #[trigger]
            first_clash(node.associations, j) && root == node.associations[j].root;
        assert(clashes_before(node.associations, j));
    }
}

fn variant_is_ok(kind: NodeKind, v: &VariantDescriptor) -> (b: bool)
    ensures
        b == variant_ok(kind, v@),
{
    match &v.shape {
        VariantShape::Positional(tys) => {
            match kind {
                NodeKind::Leaf => false,
                _ => {
                    if tys.len() == 1 {
                        variant_wraps(&v.name, type_ident_from_type(&tys[0]))
                    } else {
                        false
                    }
                },
            }
        },
        _ => {
            match kind {
                NodeKind::Leaf => true,
                _ => false,
            }
        },
    }
}

/// The index of the first association that clashes with one before it.
fn find_clash(assocs: &Vec<Association>) -> (r: Option<usize>)
    ensures
        match r {
            Some(j) => first_clash(association_views(assocs@), j as int),
            None => no_clash(association_views(assocs@)),
        },
{
    let ghost views = association_views(assocs@);
    let mut j: usize = 0;
    while j < assocs.len()
        invariant
            j <= assocs.len(),
            views == association_views(assocs@),
            forall|k: int| 0 <= k < j ==> !#[trigger] clashes_before(views, k),
        decreases assocs.len() - j,
    {
        let mut i: usize = 0;
        while i < j
            invariant
                i <= j < assocs.len(),
                views == association_views(assocs@),
                forall|k: int| 0 <= k < j ==> !#[trigger] clashes_before(views, k),
                forall|h: int| 0 <= h < i ==> !clash(#[trigger] views[h], views[j as int]),
            decreases j - i,
        {
            if assocs[i].root == assocs[j].root && assocs[i].parent != assocs[j].parent {
                assert(clash(views[i as int], views[j as int]));
                return Some(j);
            }
            i += 1;
        }
        j += 1;
    }
    None
}

/// Checks the variants of the node `name` against the rule of its kind, in
/// order, and reports the first that breaks it.
pub fn check_variants(name: &String, kind: NodeKind, variants: &Vec<VariantDescriptor>) -> (r:
    Result<(), Diagnostic>)
    ensures
        match r {
            Ok(_) => variants_ok(kind, variant_views(variants@)),
            Err(d) => variant_refusal(name@, kind, variant_views(variants@), d@),
        },
{
    let ghost views = variant_views(variants@);
    let mut i: usize = 0;
    while i < variants.len()
        invariant
            i <= variants.len(),
            views == variant_views(variants@),
            forall|j: int| 0 <= j < i ==> variant_ok(kind, #[trigger] views[j]),
        decreases variants.len() - i,
    {
        let v = &variants[i];
        if !variant_is_ok(kind, v) {
            match kind {
                NodeKind::Leaf => {
                    return Err(
                        Diagnostic::LeafHasPositionalVariant {
                            node: name.clone(),
                            variant: v.name.clone(),
                            index: i,
                        },
                    );
                },
                _ => {
                    return Err(
                        Diagnostic::VariantShapeMismatch {
                            node: name.clone(),
                            variant: v.name.clone(),
                            index: i,
                        },
                    );
                },
            }
        }
        i += 1;
    }
    Ok(())
}

/// Checks the associations of the node `name` against the rule of its kind.
pub fn check_associations(name: &String, kind: NodeKind, assocs: &Vec<Association>) -> (r: Result<
    (),
    Diagnostic,
>)
    ensures
        match r {
            Ok(_) => associations_ok(kind, association_views(assocs@)),
            Err(d) => association_refusal(name@, kind, association_views(assocs@), d@),
        },
{
    match kind {
        NodeKind::Root => {
            if assocs.len() > 0 {
                return Err(Diagnostic::RootHasAssociation { node: name.clone() });
            }
        },
        _ => {
            if assocs.len() == 0 {
                return Err(Diagnostic::MissingAssociation { node: name.clone() });
            }
            match find_clash(assocs) {
                Some(j) => {
                    let root = assocs[j].root.clone();
                    return Err(Diagnostic::ConflictingAssociation { node: name.clone(), root });
                },
                None => {},
            }
        },
    }
    Ok(())
}

/// Checks one node against the rules of its kind.
///
/// A root or an inner node wraps its children: each variant holds exactly one
/// unnamed field, and the type of that field ends in the variant's name. A
/// leaf has no variant with unnamed fields. A root has no association of its
/// own; the others have at least one, and no two that give one root two
/// parents. Only this node's declaration is read.
pub fn validate(node: &Node) -> (r: Result<(), Diagnostic>)
    ensures
        validation(node@, outcome_view(r)),
{
    match check_variants(&node.name, node.kind, &node.variants) {
        Err(d) => Err(d),
        Ok(_) => check_associations(&node.name, node.kind, &node.associations),
    }
}

} // verus!
