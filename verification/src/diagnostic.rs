//! Why a declaration or a forest is refused, and how that is worded.

use crate::model::TypeRef;
use vstd::prelude::*;

verus! {

/// Why a declaration was refused.
#[derive(Clone, Debug, PartialEq, Eq)]
pub enum Diagnostic {
    /// The declaration carries none of the three markers.
    MissingMarker { node: String },
    /// The marker at `marker` names fewer than two types.
    MalformedMarker { node: String, marker: usize },
    /// An inner node or a leaf without an association.
    MissingAssociation { node: String },
    /// A root with an association of its own.
    RootHasAssociation { node: String },
    /// Two associations give `root` two different parents.
    ConflictingAssociation { node: String, root: TypeRef },
    /// A variant of a root or an inner node that does not wrap exactly one
    /// child named as the variant is.
    VariantShapeMismatch { node: String, variant: String, index: usize },
    /// A variant of a leaf with unnamed fields.
    LeafHasPositionalVariant { node: String, variant: String, index: usize },
    /// The chain from `node` towards `root` stops at a type that declares no
    /// parent under `root`.
    DanglingChain { node: String, root: TypeRef },
    /// The chain from `node` towards `root` is longer than the forest has
    /// capabilities.
    NonTerminatingChain { node: String, root: TypeRef },
}

pub enum DiagnosticView {
    MissingMarker { node: Seq<char> },
    MalformedMarker { node: Seq<char>, marker: int },
    MissingAssociation { node: Seq<char> },
    RootHasAssociation { node: Seq<char> },
    ConflictingAssociation { node: Seq<char>, root: Seq<char> },
    VariantShapeMismatch { node: Seq<char>, variant: Seq<char>, index: int },
    LeafHasPositionalVariant { node: Seq<char>, variant: Seq<char>, index: int },
    DanglingChain { node: Seq<char>, root: Seq<char> },
    NonTerminatingChain { node: Seq<char>, root: Seq<char> },
}

impl View for Diagnostic {
    type V = DiagnosticView;

    open spec fn view(&self) -> DiagnosticView {
        match self {
            Diagnostic::MissingMarker { node } => DiagnosticView::MissingMarker { node: node@ },
            Diagnostic::MalformedMarker { node, marker } => DiagnosticView::MalformedMarker {
                node: node@,
                marker: *marker as int,
            },
            Diagnostic::MissingAssociation { node } => DiagnosticView::MissingAssociation {
                node: node@,
            },
            Diagnostic::RootHasAssociation { node } => DiagnosticView::RootHasAssociation {
                node: node@,
            },
            Diagnostic::ConflictingAssociation { node, root } => {
                DiagnosticView::ConflictingAssociation { node: node@, root: root@ }
            },
            Diagnostic::VariantShapeMismatch { node, variant, index } => {
                DiagnosticView::VariantShapeMismatch {
                    node: node@,
                    variant: variant@,
                    index: *index as int,
                }
            },
            Diagnostic::LeafHasPositionalVariant { node, variant, index } => {
                DiagnosticView::LeafHasPositionalVariant {
                    node: node@,
                    variant: variant@,
                    index: *index as int,
                }
            },
            Diagnostic::DanglingChain { node, root } => DiagnosticView::DanglingChain {
                node: node@,
                root: root@,
            },
            Diagnostic::NonTerminatingChain { node, root } => DiagnosticView::NonTerminatingChain {
                node: node@,
                root: root@,
            },
        }
    }
}

/// The words of a diagnostic.
pub open spec fn message_spec(d: DiagnosticView) -> Seq<char> {
    match d {
        DiagnosticView::MissingMarker { node } => Seq::empty()
            + "EnumTree derive requires one of #[enum_tree_root], #[enum_tree_inner(P,R)], or #[enum_tree_leaf(P,R)]"@,
        DiagnosticView::MalformedMarker { node, marker } => Seq::empty() + "EnumTree node '"@ + node
            + "' has a marker without a parent type and a root type"@,
        DiagnosticView::MissingAssociation { node } => Seq::empty() + "EnumTree node '"@ + node
            + "' declares no parent and root"@,
        DiagnosticView::RootHasAssociation { node } => Seq::empty() + "EnumTree root '"@ + node
            + "' cannot declare a parent"@,
        DiagnosticView::ConflictingAssociation { node, root } => Seq::empty() + "EnumTree node '"@
            + node + "' declares two parents under root '"@ + root + "'"@,
        DiagnosticView::VariantShapeMismatch { node, variant, index } => Seq::empty()
            + "EnumTree node '"@ + node + "' needs variant '"@ + variant
            + "' to wrap exactly one child of the same name"@,
        DiagnosticView::LeafHasPositionalVariant { node, variant, index } => Seq::empty()
            + "EnumTree leaf '"@ + node + "' cannot have tuple variants (found tuple variant '"@
            + variant + "')"@,
        DiagnosticView::DanglingChain { node, root } => Seq::empty() + "EnumTree node '"@ + node
            + "' has no chain of parents to root '"@ + root + "'"@,
        DiagnosticView::NonTerminatingChain { node, root } => Seq::empty() + "EnumTree node '"@
            + node + "' has a chain of parents that never arrives at root '"@ + root + "'"@,
    }
}

impl Diagnostic {
    /// The words of the diagnostic, naming the node and, where there is one,
    /// the variant or the root at fault.
    pub fn message(&self) -> (text: String)
        ensures
            text@ == message_spec(self@),
    {
        let mut out = String::new();
        match self {
            Diagnostic::MissingMarker { node } => {
                out.append(
                    "EnumTree derive requires one of #[enum_tree_root], #[enum_tree_inner(P,R)], or #[enum_tree_leaf(P,R)]",
                );
            },
            Diagnostic::MalformedMarker { node, marker } => {
                out.append("EnumTree node '");
                out.append(node.as_str());
                out.append("' has a marker without a parent type and a root type");
            },
            Diagnostic::MissingAssociation { node } => {
                out.append("EnumTree node '");
                out.append(node.as_str());
                out.append("' declares no parent and root");
            },
            Diagnostic::RootHasAssociation { node } => {
                out.append("EnumTree root '");
                out.append(node.as_str());
                out.append("' cannot declare a parent");
            },
            Diagnostic::ConflictingAssociation { node, root } => {
                out.append("EnumTree node '");
                out.append(node.as_str());
                out.append("' declares two parents under root '");
                out.append(root.as_str());
                out.append("'");
            },
            Diagnostic::VariantShapeMismatch { node, variant, index } => {
                out.append("EnumTree node '");
                out.append(node.as_str());
                out.append("' needs variant '");
                out.append(variant.as_str());
                out.append("' to wrap exactly one child of the same name");
            },
            Diagnostic::LeafHasPositionalVariant { node, variant, index } => {
                out.append("EnumTree leaf '");
                out.append(node.as_str());
                out.append("' cannot have tuple variants (found tuple variant '");
                out.append(variant.as_str());
                out.append("')");
            },
            Diagnostic::DanglingChain { node, root } => {
                out.append("EnumTree node '");
                out.append(node.as_str());
                out.append("' has no chain of parents to root '");
                out.append(root.as_str());
                out.append("'");
            },
            Diagnostic::NonTerminatingChain { node, root } => {
                out.append("EnumTree node '");
                out.append(node.as_str());
                out.append("' has a chain of parents that never arrives at root '");
                out.append(root.as_str());
                out.append("'");
            },
        }
        out
    }
}

} // verus!
