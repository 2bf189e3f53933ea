//! The declaration model: what one node of an enum tree declares.
//!
//! Every type here has a view made of sequences of characters, and the
//! contracts of the crate speak of those views.

use vstd::prelude::*;

verus! {

/// A declared type, identified by the text it was written with. Two spellings
/// of one type (`Parent` and `crate::Parent`) are two different references.
pub type TypeRef = String;

/// The view of every text in a list, in order.
pub open spec fn texts(v: Seq<String>) -> Seq<Seq<char>> {
    Seq::new(v.len(), |i: int| v[i]@)
}

/// The three kinds of node.
#[derive(Clone, Copy, Debug, PartialEq, Eq, Structural)]
pub enum NodeKind {
    Root,
    Inner,
    Leaf,
}

/// "Under the tree rooted at `root`, the node's immediate parent is `parent`."
#[derive(Clone, Debug, PartialEq, Eq)]
pub struct Association {
    pub parent: TypeRef,
    pub root: TypeRef,
}

pub struct AssociationView {
    pub parent: Seq<char>,
    pub root: Seq<char>,
}

impl View for Association {
    type V = AssociationView;

    open spec fn view(&self) -> AssociationView {
        AssociationView { parent: self.parent@, root: self.root@ }
    }
}

/// The view of every association in a list, in order.
pub open spec fn association_views(v: Seq<Association>) -> Seq<AssociationView> {
    Seq::new(v.len(), |i: int| v[i]@)
}

/// The type of an unnamed field: the text it was written with and, where it
/// is written as a path, the identifiers of the path's segments in order
/// (`crate`, `nested`, `Child` for `crate::nested::Child`; `Vec` for
/// `Vec<Child>`). A type that is no path (a tuple, a reference) has no
/// segments.
#[derive(Clone, Debug, PartialEq, Eq)]
pub struct ChildRef {
    pub written: TypeRef,
    pub segments: Option<Vec<String>>,
}

pub struct ChildView {
    pub written: Seq<char>,
    pub segments: Option<Seq<Seq<char>>>,
}

impl View for ChildRef {
    type V = ChildView;

    open spec fn view(&self) -> ChildView {
        ChildView {
            written: self.written@,
            segments: match self.segments {
                Some(list) => Some(texts(list@)),
                None => None,
            },
        }
    }
}

/// The view of every field type in a list, in order.
pub open spec fn child_views(v: Seq<ChildRef>) -> Seq<ChildView> {
    Seq::new(v.len(), |i: int| v[i]@)
}

/// What a variant carries.
#[derive(Clone, Debug, PartialEq, Eq)]
pub enum VariantShape {
    /// No payload.
    Empty,
    /// Named fields.
    NamedFields,
    /// Unnamed fields, by the types they were declared with.
    Positional(Vec<ChildRef>),
}

pub enum VariantShapeView {
    Empty,
    NamedFields,
    Positional(Seq<ChildView>),
}

impl View for VariantShape {
    type V = VariantShapeView;

    open spec fn view(&self) -> VariantShapeView {
        match self {
            VariantShape::Empty => VariantShapeView::Empty,
            VariantShape::NamedFields => VariantShapeView::NamedFields,
            VariantShape::Positional(tys) => VariantShapeView::Positional(child_views(tys@)),
        }
    }
}

/// One variant of a node: its name and what it carries.
#[derive(Clone, Debug, PartialEq, Eq)]
pub struct VariantDescriptor {
    pub name: String,
    pub shape: VariantShape,
}

pub struct VariantView {
    pub name: Seq<char>,
    pub shape: VariantShapeView,
}

impl View for VariantDescriptor {
    type V = VariantView;

    open spec fn view(&self) -> VariantView {
        VariantView { name: self.name@, shape: self.shape@ }
    }
}

/// The view of every variant in a list, in order.
pub open spec fn variant_views(v: Seq<VariantDescriptor>) -> Seq<VariantView> {
    Seq::new(v.len(), |i: int| v[i]@)
}

/// One node of a tree. A root holds no association of its own: it is its own
/// root, with no parent. An inner node or a leaf holds one for each tree it
/// belongs to.
#[derive(Clone, Debug, PartialEq, Eq)]
pub struct Node {
    pub name: String,
    pub kind: NodeKind,
    pub associations: Vec<Association>,
    pub variants: Vec<VariantDescriptor>,
}

pub struct NodeView {
    pub name: Seq<char>,
    pub kind: NodeKind,
    pub associations: Seq<AssociationView>,
    pub variants: Seq<VariantView>,
}

impl View for Node {
    type V = NodeView;

    open spec fn view(&self) -> NodeView {
        NodeView {
            name: self.name@,
            kind: self.kind,
            associations: association_views(self.associations@),
            variants: variant_views(self.variants@),
        }
    }
}

/// One marker on a declaration: its name and the types between its brackets.
#[derive(Clone, Debug, PartialEq, Eq)]
pub struct Marker {
    pub name: String,
    pub args: Vec<TypeRef>,
}

pub struct MarkerView {
    pub name: Seq<char>,
    pub args: Seq<Seq<char>>,
}

impl View for Marker {
    type V = MarkerView;

    open spec fn view(&self) -> MarkerView {
        MarkerView { name: self.name@, args: texts(self.args@) }
    }
}

/// The view of every marker in a list, in order.
pub open spec fn marker_views(v: Seq<Marker>) -> Seq<MarkerView> {
    Seq::new(v.len(), |i: int| v[i]@)
}

/// A declaration as it was written: a name, its markers, its variants.
#[derive(Clone, Debug, PartialEq, Eq)]
pub struct Declaration {
    pub name: String,
    pub markers: Vec<Marker>,
    pub variants: Vec<VariantDescriptor>,
}

pub struct DeclarationView {
    pub name: Seq<char>,
    pub markers: Seq<MarkerView>,
    pub variants: Seq<VariantView>,
}

impl View for Declaration {
    type V = DeclarationView;

    open spec fn view(&self) -> DeclarationView {
        DeclarationView {
            name: self.name@,
            markers: marker_views(self.markers@),
            variants: variant_views(self.variants@),
        }
    }
}

} // verus!
