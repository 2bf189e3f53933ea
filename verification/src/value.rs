//! Values of the nodes of a forest, and what an embedding and an extraction
//! do to them.

use crate::model::TypeRef;
use crate::synth::{ConversionView, Embedding, Extraction};
use vstd::prelude::*;

verus! {

/// A value of some node of a forest.
#[derive(Debug, PartialEq, Eq)]
pub enum Value {
    /// A value of the leaf `ty`: one of its variants.
    Leaf { ty: TypeRef, variant: String },
    /// A value of the root or inner node `ty`: the variant named after a
    /// child, and the child's value in it.
    Wrap { ty: TypeRef, variant: String, inner: Box<Value> },
}

pub enum ValueView {
    Leaf { ty: Seq<char>, variant: Seq<char> },
    Wrap { ty: Seq<char>, variant: Seq<char>, inner: Box<ValueView> },
}

impl View for Value {
    type V = ValueView;

    open spec fn view(&self) -> ValueView
        decreases self,
    {
        match self {
            Value::Leaf { ty, variant } => ValueView::Leaf { ty: ty@, variant: variant@ },
            Value::Wrap { ty, variant, inner } => ValueView::Wrap {
                ty: ty@,
                variant: variant@,
                inner: Box::new((**inner).view()),
            },
        }
    }
}

impl Clone for Value {
    fn clone(&self) -> (r: Value)
        ensures
            r@ == self@,
        decreases self,
    {
        match self {
            Value::Leaf { ty, variant } => Value::Leaf { ty: ty.clone(), variant: variant.clone() },
            Value::Wrap { ty, variant, inner } => Value::Wrap {
                ty: ty.clone(),
                variant: variant.clone(),
                inner: Box::new((**inner).clone()),
            },
        }
    }
}

impl ValueView {
    /// The node that this is a value of.
    pub open spec fn node_name(self) -> Seq<char> {
        match self {
            ValueView::Leaf { ty, .. } => ty,
            ValueView::Wrap { ty, .. } => ty,
        }
    }

    /// How many times the value at the bottom is wrapped.
    pub open spec fn layers(self) -> nat
        decreases self,
    {
        match self {
            ValueView::Leaf { .. } => 0,
            ValueView::Wrap { inner, .. } => 1 + inner.layers(),
        }
    }
}

/// The one way an extraction fails: the value holds another variant than the
/// one asked for.
#[derive(Clone, Copy, Debug, PartialEq, Eq, Structural)]
pub enum ExtractError {
    WrongVariant,
}

/// The value of `parent` that holds `v` in the variant named after `node`.
pub open spec fn wrap(parent: Seq<char>, node: Seq<char>, v: ValueView) -> ValueView {
    ValueView::Wrap { ty: parent, variant: node, inner: Box::new(v) }
}

/// What an embedding makes of a value of its node: the parent's value that
/// wraps it, or the value itself where the embedding is the identity.
pub open spec fn embed_spec(e: ConversionView, v: ValueView) -> ValueView {
    match e.parent {
        Some(p) => wrap(p, e.node, v),
        None => v,
    }
}

/// What an extraction makes of a value: the value of its node that a value of
/// its parent wraps in the variant named after the node, and `WrongVariant`
/// for every other value. The identity gives back a value of its node.
pub open spec fn extract_spec(x: ConversionView, v: ValueView) -> Result<ValueView, ExtractError> {
    match x.parent {
        Some(p) => match v {
            ValueView::Wrap { ty, variant, inner } => if ty == p && variant == x.node
                && inner.node_name() == x.node {
                Ok(*inner)
            } else {
                Err(ExtractError::WrongVariant)
            },
            ValueView::Leaf { .. } => Err(ExtractError::WrongVariant),
        },
        None => if v.node_name() == x.node {
            Ok(v)
        } else {
            Err(ExtractError::WrongVariant)
        },
    }
}

/// The view of an extraction's result.
pub open spec fn extracted_view(r: Result<Value, ExtractError>) -> Result<
    ValueView,
    ExtractError,
> {
    match r {
        Ok(v) => Ok(v@),
        Err(e) => Err(e),
    }
}

impl Value {
    /// The node that this is a value of.
    pub fn node_name(&self) -> (ty: &TypeRef)
        ensures
            ty@ == self@.node_name(),
    {
        match self {
            Value::Leaf { ty, .. } => ty,
            Value::Wrap { ty, .. } => ty,
        }
    }
}

impl Embedding {
    /// Embeds a value of the node in the parent: the parent's value holds it
    /// in the variant named after the node. This never fails. It is meant for
    /// values of the node; a value of another node is wrapped all the same,
    /// and no extraction takes it out again.
    pub fn embed(&self, v: Value) -> (r: Value)
        ensures
            r@ == embed_spec(self@, v@),
    {
        match &self.parent {
            Some(p) => Value::Wrap { ty: p.clone(), variant: self.node.clone(), inner: Box::new(v) },
            None => v,
        }
    }
}

impl Extraction {
    /// Takes the node's value out of a value of the parent: `Ok` of what the
    /// variant named after the node holds, where the value is one of the
    /// parent in that variant and holds a value of the node; `WrongVariant`
    /// for every other value.
    pub fn extract(&self, v: Value) -> (r: Result<Value, ExtractError>)
        ensures
            extracted_view(r) == extract_spec(self@, v@),
    {
        match &self.parent {
            Some(p) => match v {
                Value::Wrap { ty, variant, inner } => {
                    if ty == *p && variant == self.node && *inner.node_name() == self.node {
                        Ok(*inner)
                    } else {
                        Err(ExtractError::WrongVariant)
                    }
                },
                Value::Leaf { .. } => Err(ExtractError::WrongVariant),
            },
            None => if *v.node_name() == self.node {
                Ok(v)
            } else {
                Err(ExtractError::WrongVariant)
            },
        }
    }
}

} // verus!
