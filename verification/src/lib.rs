//! Conversions for hierarchies of enums.
//!
//! A forest of enums is declared node by node: each node names its kind and,
//! for every tree it belongs to, its parent and its root. From one node's
//! declaration the library checks the shape of its variants and emits the
//! conversions between the node and each of its parents; over all of them it
//! walks a value up to a root and back down to a node.
//!
//! - `model`: what a node declares.
//! - `validate`: the rules a declaration has to meet; `diagnostic`: what is
//!   reported where it does not.
//! - `synth`: the capabilities, embeddings and extractions of one node;
//!   `expand`: the text of the code emitted for them.
//! - `value` and `table`: values of the nodes, the capabilities of a whole
//!   forest, and the traversals `to_root` and `from_root` over them.
//! - `traits`: the traits that the emitted code implements, with the same two
//!   traversals over Rust's own types.
//! - `laws`: what holds of all of it.

pub mod diagnostic;
pub mod expand;
pub mod laws;
pub mod model;
pub mod synth;
pub mod table;
pub mod traits;
pub mod validate;
pub mod value;

pub use diagnostic::Diagnostic;
pub use expand::{
    declares_association, expand_enum_tree, expand_enum_tree_inner, expand_enum_tree_leaf,
    expand_enum_tree_root, expand_node, parse_two_type_args, render,
};
pub use model::{
    Association, ChildRef, Declaration, Marker, Node, NodeKind, TypeRef, VariantDescriptor,
    VariantShape,
};
pub use synth::{synthesize, Capability, Embedding, Extraction, Synthesis};
pub use table::{CapabilityTable, ChainEnd};
pub use traits::{
    EnumTree, EnumTreeInner, EnumTreeLeaf, EnumTreeRoot, ToEnumTreeRoot, TryFromEnumTreeRoot,
};
pub use validate::{
    check_associations, check_variants, type_ident_from_type, validate, variant_wraps,
};
pub use value::{ExtractError, Value};
