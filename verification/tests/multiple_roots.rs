use enum_tree::{EnumTree, EnumTreeInner, EnumTreeLeaf, EnumTreeRoot, ToEnumTreeRoot, TryFromEnumTreeRoot};

#[derive(Clone, Debug, PartialEq)]
pub enum RootOne {
    Parent(Parent),
}

#[derive(Clone, Debug, PartialEq)]
pub enum RootTwo {
    Parent(Parent),
}

#[derive(Clone, Debug, PartialEq)]
pub enum Parent {
    Leaf(Leaf),
}

#[derive(Clone, Debug, PartialEq)]
pub enum Leaf {
    A,
}

impl EnumTree<RootOne> for RootOne {
    type P = ();
}
impl EnumTreeRoot<RootOne> for RootOne {}
impl ToEnumTreeRoot<RootOne> for RootOne {
    fn to_root(self) -> RootOne {
        self
    }
}
impl TryFromEnumTreeRoot<RootOne> for RootOne {
    fn from_root(root: RootOne) -> Option<Self> {
        Some(root)
    }
}

impl EnumTree<RootTwo> for RootTwo {
    type P = ();
}
impl EnumTreeRoot<RootTwo> for RootTwo {}
impl ToEnumTreeRoot<RootTwo> for RootTwo {
    fn to_root(self) -> RootTwo {
        self
    }
}
impl TryFromEnumTreeRoot<RootTwo> for RootTwo {
    fn from_root(root: RootTwo) -> Option<Self> {
        Some(root)
    }
}

impl EnumTree<RootOne> for Parent {
    type P = RootOne;
}
impl EnumTreeInner<RootOne> for Parent {}
impl EnumTree<RootTwo> for Parent {
    type P = RootTwo;
}
impl EnumTreeInner<RootTwo> for Parent {}
impl From<Parent> for RootOne {
    fn from(value: Parent) -> Self {
        RootOne::Parent(value)
    }
}
impl TryFrom<RootOne> for Parent {
    type Error = ();
    fn try_from(value: RootOne) -> Result<Self, Self::Error> {
        if let RootOne::Parent(v) = value { Ok(v) } else { Err(()) }
    }
}
impl From<Parent> for RootTwo {
    fn from(value: Parent) -> Self {
        RootTwo::Parent(value)
    }
}
impl TryFrom<RootTwo> for Parent {
    type Error = ();
    fn try_from(value: RootTwo) -> Result<Self, Self::Error> {
        if let RootTwo::Parent(v) = value { Ok(v) } else { Err(()) }
    }
}

impl EnumTree<RootOne> for Leaf {
    type P = Parent;
}
impl EnumTreeLeaf<RootOne> for Leaf {}
impl EnumTree<RootTwo> for Leaf {
    type P = Parent;
}
impl EnumTreeLeaf<RootTwo> for Leaf {}
impl From<Leaf> for Parent {
    fn from(value: Leaf) -> Self {
        Parent::Leaf(value)
    }
}
impl TryFrom<Parent> for Leaf {
    type Error = ();
    fn try_from(value: Parent) -> Result<Self, Self::Error> {
        if let Parent::Leaf(v) = value { Ok(v) } else { Err(()) }
    }
}

#[test]
fn test_to_root_multiple() {
    let leaf = Leaf::A;
    let r1: RootOne = leaf.clone().to_root();
    let r2: RootTwo = leaf.clone().to_root();
    assert!(matches!(r1, RootOne::Parent(Parent::Leaf(Leaf::A))));
    assert!(matches!(r2, RootTwo::Parent(Parent::Leaf(Leaf::A))));
}

#[test]
fn test_from_root_multiple() {
    let leaf = Leaf::A;
    let r1: RootOne = leaf.clone().to_root();
    let r2: RootTwo = leaf.clone().to_root();
    let l1 = <Leaf as TryFromEnumTreeRoot<RootOne>>::from_root(r1).unwrap();
    let l2 = <Leaf as TryFromEnumTreeRoot<RootTwo>>::from_root(r2).unwrap();
    assert_eq!(l1, leaf);
    assert_eq!(l2, leaf);
}
