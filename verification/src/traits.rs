//! The traits that the emitted code implements, and the two traversals
//! written once over them.

use vstd::prelude::*;
use vstd::std_specs::convert::{FromSpec, TryFromSpec};

verus! {

/// A node of the tree rooted at `R`. One type may be a node of several trees:
/// it then implements this once for each root.
pub trait EnumTree<R>: Sized {
    /// The node's parent on the way to `R`; the unit type for the root.
    type P: Sized;
}

/// The root of the tree rooted at `R`.
pub trait EnumTreeRoot<R>: EnumTree<R, P = ()> {

}

/// An inner node of the tree rooted at `R`.
pub trait EnumTreeInner<R>: EnumTree<R> {

}

/// A leaf of the tree rooted at `R`.
pub trait EnumTreeLeaf<R>: EnumTree<R> {

}

/// The conversion of a node into the root `R` of one of its trees.
pub trait ToEnumTreeRoot<R>: EnumTree<R> {
    /// Whether `to_root` is known to return `root_of`. An implementation that
    /// says nothing is not known to.
    open spec fn obeys_to_root() -> bool {
        false
    }

    /// The value of the root that holds `self`.
    open spec fn root_of(self) -> R {
        arbitrary()
    }

    fn to_root(self) -> (r: R)
        ensures
            Self::obeys_to_root() ==> r == self.root_of(),
    ;
}

/// Every node with a parent under `Root` is converted by embedding it in the
/// parent and converting the parent.
impl<T, Root> ToEnumTreeRoot<Root> for T where
    T: EnumTree<Root>,
    <T as EnumTree<Root>>::P: From<T> + EnumTree<Root> + ToEnumTreeRoot<Root>,
 {
    open spec fn obeys_to_root() -> bool {
        <<T as EnumTree<Root>>::P as FromSpec<T>>::obeys_from_spec() && <<T as EnumTree<
            Root,
        >>::P as ToEnumTreeRoot<Root>>::obeys_to_root()
    }

    open spec fn root_of(self) -> Root {
        <<T as EnumTree<Root>>::P as ToEnumTreeRoot<Root>>::root_of(
            <<T as EnumTree<Root>>::P as FromSpec<T>>::from_spec(self),
        )
    }

    fn to_root(self) -> (r: Root) {
        let p: <T as EnumTree<Root>>::P = self.into();
        p.to_root()
    }
}

/// The recovery of a node from a value of the root `R` of one of its trees.
pub trait TryFromEnumTreeRoot<R>: EnumTree<R> {
    /// Whether `from_root` is known to return `node_of`. An implementation
    /// that says nothing is not known to.
    open spec fn obeys_from_root() -> bool {
        false
    }

    /// The node's value that `root` holds, if it holds one.
    open spec fn node_of(root: R) -> Option<Self> {
        arbitrary()
    }

    fn from_root(root: R) -> (r: Option<Self>)
        ensures
            Self::obeys_from_root() ==> r == Self::node_of(root),
    ;
}

/// Every node with a parent under `Root` is recovered by recovering the
/// parent and extracting the node from it; a parent that is not there, or
/// that holds another variant, gives `None`.
impl<T, Root> TryFromEnumTreeRoot<Root> for T where
    T: EnumTree<Root> + TryFrom<<T as EnumTree<Root>>::P, Error = ()>,
    <T as EnumTree<Root>>::P: EnumTree<Root> + TryFromEnumTreeRoot<Root>,
 {
    open spec fn obeys_from_root() -> bool {
        <T as TryFromSpec<<T as EnumTree<Root>>::P>>::obeys_try_from_spec() && <<T as EnumTree<
            Root,
        >>::P as TryFromEnumTreeRoot<Root>>::obeys_from_root()
    }

    open spec fn node_of(root: Root) -> Option<Self> {
        match <<T as EnumTree<Root>>::P as TryFromEnumTreeRoot<Root>>::node_of(root) {
            Some(p) => match <T as TryFromSpec<<T as EnumTree<Root>>::P>>::try_from_spec(p) {
                Ok(v) => Some(v),
                Err(_) => None,
            },
            None => None,
        }
    }

    fn from_root(root: Root) -> (r: Option<Self>) {
        let p: <T as EnumTree<Root>>::P = <T as EnumTree<Root>>::P::from_root(root)?;
        <T as TryFrom<<T as EnumTree<Root>>::P>>::try_from(p).ok()
    }
}

/// One step of the way down and up again. Where the extraction of a node from
/// its parent undoes the embedding, and the parent's value is recovered from
/// the root it was converted to, the node's value is recovered from the root
/// it was converted to.
pub proof fn lemma_round_trip_step<T, Root>(v: T) where
    T: EnumTree<Root> + TryFrom<<T as EnumTree<Root>>::P, Error = ()>,
    <T as EnumTree<Root>>::P: From<T> + EnumTree<Root> + ToEnumTreeRoot<Root> + TryFromEnumTreeRoot<
        Root,
    >,

    requires
        <T as TryFromSpec<<T as EnumTree<Root>>::P>>::try_from_spec(
            <<T as EnumTree<Root>>::P as FromSpec<T>>::from_spec(v),
        ) == Ok::<T, ()>(v),
        <<T as EnumTree<Root>>::P as TryFromEnumTreeRoot<Root>>::node_of(
            <<T as EnumTree<Root>>::P as ToEnumTreeRoot<Root>>::root_of(
                <<T as EnumTree<Root>>::P as FromSpec<T>>::from_spec(v),
            ),
        ) == Some(<<T as EnumTree<Root>>::P as FromSpec<T>>::from_spec(v)),
    ensures
        <T as TryFromEnumTreeRoot<Root>>::node_of(<T as ToEnumTreeRoot<Root>>::root_of(v)) == Some(
            v,
        ),
{
}

} // verus!
