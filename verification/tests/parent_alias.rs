use enum_tree::{EnumTree, EnumTreeInner, EnumTreeLeaf, EnumTreeRoot, ToEnumTreeRoot, TryFromEnumTreeRoot};

#[derive(Clone, Debug, PartialEq)]
pub enum RootOne {
    Parent(Parent),
}

#[derive(Clone, Debug, PartialEq)]
pub enum RootTwo {
    Parent(Parent),
}

#[derive(Clone, Debug, PartialEq)]
pub enum Child {
    Leaf(Leaf),
}

#[derive(Clone, Debug, PartialEq)]
pub enum Leaf {
    A,
}

#[derive(Clone, Debug, PartialEq)]
pub enum Parent {
    Child(Child),
}

impl EnumTree<RootOne> for RootOne {
    type P = ();
}
impl EnumTreeRoot<RootOne> for RootOne {}
impl ToEnumTreeRoot<RootOne> for RootOne {
    fn to_root(self) -> RootOne {
        self
    }
}
impl TryFromEnumTreeRoot<RootOne> for RootOne {
    fn from_root(root: RootOne) -> Option<Self> {
        Some(root)
    }
}

impl EnumTree<RootTwo> for RootTwo {
    type P = ();
}
impl EnumTreeRoot<RootTwo> for RootTwo {}
impl ToEnumTreeRoot<RootTwo> for RootTwo {
    fn to_root(self) -> RootTwo {
        self
    }
}
impl TryFromEnumTreeRoot<RootTwo> for RootTwo {
    fn from_root(root: RootTwo) -> Option<Self> {
        Some(root)
    }
}

// Child names its parent in two ways, one for each root; both are `Parent`.
impl EnumTree<RootOne> for Child {
    type P = self::Parent;
}
impl EnumTreeInner<RootOne> for Child {}
impl EnumTree<RootTwo> for Child {
    type P = crate::Parent;
}
impl EnumTreeInner<RootTwo> for Child {}
impl From<Child> for self::Parent {
    fn from(value: Child) -> Self {
        self::Parent::Child(value)
    }
}
impl TryFrom<self::Parent> for Child {
    type Error = ();
    fn try_from(value: self::Parent) -> Result<Self, Self::Error> {
        if let self::Parent::Child(v) = value { Ok(v) } else { Err(()) }
    }
}

impl EnumTree<RootOne> for Leaf {
    type P = Child;
}
impl EnumTreeLeaf<RootOne> for Leaf {}
impl EnumTree<RootTwo> for Leaf {
    type P = crate::Child;
}
impl EnumTreeLeaf<RootTwo> for Leaf {}
impl From<Leaf> for Child {
    fn from(value: Leaf) -> Self {
        Child::Leaf(value)
    }
}
impl TryFrom<Child> for Leaf {
    type Error = ();
    fn try_from(value: Child) -> Result<Self, Self::Error> {
        if let Child::Leaf(v) = value { Ok(v) } else { Err(()) }
    }
}

impl EnumTree<RootOne> for Parent {
    type P = RootOne;
}
impl EnumTreeInner<RootOne> for Parent {}
impl EnumTree<RootTwo> for Parent {
    type P = RootTwo;
}
impl EnumTreeInner<RootTwo> for Parent {}
impl From<Parent> for RootOne {
    fn from(value: Parent) -> Self {
        RootOne::Parent(value)
    }
}
impl TryFrom<RootOne> for Parent {
    type Error = ();
    fn try_from(value: RootOne) -> Result<Self, Self::Error> {
        if let RootOne::Parent(v) = value { Ok(v) } else { Err(()) }
    }
}
impl From<Parent> for RootTwo {
    fn from(value: Parent) -> Self {
        RootTwo::Parent(value)
    }
}
impl TryFrom<RootTwo> for Parent {
    type Error = ();
    fn try_from(value: RootTwo) -> Result<Self, Self::Error> {
        if let RootTwo::Parent(v) = value { Ok(v) } else { Err(()) }
    }
}

#[test]
fn test_to_root_alias_parent() {
    let leaf = Leaf::A;
    let r1: RootOne = leaf.clone().to_root();
    let r2: RootTwo = leaf.clone().to_root();
    assert!(matches!(r1, RootOne::Parent(Parent::Child(Child::Leaf(Leaf::A)))));
    assert!(matches!(r2, RootTwo::Parent(Parent::Child(Child::Leaf(Leaf::A)))));
}

#[test]
fn test_from_root_alias_parent() {
    let leaf = Leaf::A;
    let r1: RootOne = leaf.clone().to_root();
    let r2: RootTwo = leaf.clone().to_root();
    let l1 = <Leaf as TryFromEnumTreeRoot<RootOne>>::from_root(r1).unwrap();
    let l2 = <Leaf as TryFromEnumTreeRoot<RootTwo>>::from_root(r2).unwrap();
    assert_eq!(l1, leaf);
    assert_eq!(l2, leaf);
}
