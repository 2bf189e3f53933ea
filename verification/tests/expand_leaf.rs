use enum_tree::expand::{expand_enum_tree_leaf, parse_two_type_args};
use enum_tree::{
    Association, ChildRef, Declaration, Diagnostic, Marker, VariantDescriptor, VariantShape,
};
use std::str::FromStr;

fn tokens(text: &str) -> String {
    proc_macro2::TokenStream::from_str(text).unwrap().to_string()
}

fn marker(name: &str, args: &[&str]) -> Marker {
    Marker { name: name.to_string(), args: args.iter().map(|a| a.to_string()).collect() }
}

fn named(ident: &str) -> ChildRef {
    ChildRef { written: ident.to_string(), segments: Some(vec![ident.to_string()]) }
}

fn unit(name: &str) -> VariantDescriptor {
    VariantDescriptor { name: name.to_string(), shape: VariantShape::Empty }
}

#[test]
fn leaf_multiple_roots_different_parents() {
    let input = Declaration {
        name: "Leaf".to_string(),
        markers: vec![
            marker("enum_tree_leaf", &["ParentOne", "RootOne"]),
            marker("enum_tree_leaf", &["ParentTwo", "RootTwo"]),
        ],
        variants: vec![unit("Action")],
    };

    let expected = tokens(
        "impl ::enum_tree::EnumTree<RootOne> for Leaf { type P = ParentOne; }
        impl ::enum_tree::EnumTreeLeaf<RootOne> for Leaf {}
        impl ::enum_tree::EnumTree<RootTwo> for Leaf { type P = ParentTwo; }
        impl ::enum_tree::EnumTreeLeaf<RootTwo> for Leaf {}
        impl From<Leaf> for ParentOne {
            fn from(value: Leaf) -> Self { ParentOne::Leaf(value) }
        }
        impl TryFrom<ParentOne> for Leaf {
            type Error = (); fn try_from(value: ParentOne) -> Result<Self, Self::Error> {
                if let ParentOne::Leaf(v) = value { Ok(v) } else { Err(()) }
            }
        }
        impl From<Leaf> for ParentTwo {
            fn from(value: Leaf) -> Self { ParentTwo::Leaf(value) }
        }
        impl TryFrom<ParentTwo> for Leaf {
            type Error = (); fn try_from(value: ParentTwo) -> Result<Self, Self::Error> {
                if let ParentTwo::Leaf(v) = value { Ok(v) } else { Err(()) }
            }
        }",
    );

    let actual = expand_enum_tree_leaf(input).unwrap();
    assert_eq!(tokens(&actual), expected);
}

#[test]
fn leaf_multiple_roots_same_parent() {
    let input = Declaration {
        name: "Leaf".to_string(),
        markers: vec![
            marker("enum_tree_leaf", &["Parent", "RootOne"]),
            marker("enum_tree_leaf", &["Parent", "RootTwo"]),
        ],
        variants: vec![unit("Action")],
    };

    let expected = tokens(
        "impl ::enum_tree::EnumTree<RootOne> for Leaf { type P = Parent; }
        impl ::enum_tree::EnumTreeLeaf<RootOne> for Leaf {}
        impl ::enum_tree::EnumTree<RootTwo> for Leaf { type P = Parent; }
        impl ::enum_tree::EnumTreeLeaf<RootTwo> for Leaf {}
        impl From<Leaf> for Parent {
            fn from(value: Leaf) -> Self { Parent::Leaf(value) }
        }
        impl TryFrom<Parent> for Leaf {
            type Error = (); fn try_from(value: Parent) -> Result<Self, Self::Error> {
                if let Parent::Leaf(v) = value { Ok(v) } else { Err(()) }
            }
        }",
    );

    let actual = expand_enum_tree_leaf(input).unwrap();
    assert_eq!(tokens(&actual), expected);
}

#[test]
fn leaf_multiple_roots_same_parent_alias() {
    // Parents are told apart by the way they are written: two spellings of
    // one type are two parents, and each gets its conversions.
    let input = Declaration {
        name: "Leaf".to_string(),
        markers: vec![
            marker("enum_tree_leaf", &["super::Parent", "RootOne"]),
            marker("enum_tree_leaf", &["crate::mods::Parent", "RootTwo"]),
        ],
        variants: vec![unit("Action")],
    };

    let expected = tokens(
        "impl ::enum_tree::EnumTree<RootOne> for Leaf { type P = super::Parent; }
        impl ::enum_tree::EnumTreeLeaf<RootOne> for Leaf {}
        impl ::enum_tree::EnumTree<RootTwo> for Leaf { type P = crate::mods::Parent; }
        impl ::enum_tree::EnumTreeLeaf<RootTwo> for Leaf {}
        impl From<Leaf> for super::Parent {
            fn from(value: Leaf) -> Self { super::Parent::Leaf(value) }
        }
        impl TryFrom<super::Parent> for Leaf {
            type Error = (); fn try_from(value: super::Parent) -> Result<Self, Self::Error> {
                if let super::Parent::Leaf(v) = value { Ok(v) } else { Err(()) }
            }
        }
        impl From<Leaf> for crate::mods::Parent {
            fn from(value: Leaf) -> Self { crate::mods::Parent::Leaf(value) }
        }
        impl TryFrom<crate::mods::Parent> for Leaf {
            type Error = (); fn try_from(value: crate::mods::Parent) -> Result<Self, Self::Error> {
                if let crate::mods::Parent::Leaf(v) = value { Ok(v) } else { Err(()) }
            }
        }",
    );

    let actual = expand_enum_tree_leaf(input).unwrap();
    assert_eq!(tokens(&actual), expected);
}

#[test]
fn test_leaf_tuple_variants_rejected() {
    // Leaf nodes must not have tuple variants: the expansion answers with a
    // diagnostic, without panicking, and writes no code.
    let input = Declaration {
        name: "IpSetup".to_string(),
        markers: vec![marker("enum_tree_leaf", &["MenuFlow", "RootAction"])],
        variants: vec![
            VariantDescriptor {
                name: "UpdatePortText".to_string(),
                shape: VariantShape::Positional(vec![named("i32")]),
            },
            unit("ClickStartIp"),
        ],
    };

    let result = expand_enum_tree_leaf(input);
    assert_eq!(
        result,
        Err(Diagnostic::LeafHasPositionalVariant {
            node: "IpSetup".to_string(),
            variant: "UpdatePortText".to_string(),
            index: 0,
        })
    );
}

#[test]
fn leaf_directly_under_root() {
    let input = Declaration {
        name: "AudioActions".to_string(),
        markers: vec![marker("enum_tree_leaf", &["RootAction", "RootAction"])],
        variants: vec![unit("ToggleMuteAll")],
    };

    let expected = tokens(
        "impl ::enum_tree::EnumTree<RootAction> for AudioActions {
            type P = RootAction;
        }
        impl ::enum_tree::EnumTreeLeaf<RootAction> for AudioActions {}

        impl From<AudioActions> for RootAction {
            fn from(value: AudioActions) -> Self { RootAction::AudioActions(value) }
        }

        impl TryFrom<RootAction> for AudioActions {
            type Error = ();
            fn try_from(value: RootAction) -> Result<Self, Self::Error> {
                if let RootAction::AudioActions(v) = value { Ok(v) } else { Err(()) }
            }
        }",
    );

    let actual = expand_enum_tree_leaf(input).unwrap();
    assert_eq!(tokens(&actual), expected);
}

#[test]
fn test_simple() {
    let input = Declaration {
        name: "General".to_string(),
        markers: vec![marker("enum_tree_leaf", &["MenuFlow", "RootAction"])],
        variants: vec![unit("ClickBack")],
    };

    let expected = tokens(
        "impl ::enum_tree::EnumTree<RootAction> for General { type P = MenuFlow; }
        impl ::enum_tree::EnumTreeLeaf<RootAction> for General {}

        impl From<General> for MenuFlow {
            fn from(value: General) -> Self {
                MenuFlow::General(value)
            }
        }

        impl TryFrom<MenuFlow> for General {
            type Error = ();
            fn try_from(value: MenuFlow) -> Result<Self, Self::Error> {
                if let MenuFlow::General(v) = value {
                    Ok(v)
                } else {
                    Err(())
                }
            }
        }",
    );

    let actual = expand_enum_tree_leaf(input).unwrap();
    assert_eq!(tokens(&actual), expected);
}

#[test]
fn leaf_with_named_fields_is_accepted() {
    let input = Declaration {
        name: "General".to_string(),
        markers: vec![marker("enum_tree_leaf", &["MenuFlow", "RootAction"])],
        variants: vec![
            unit("ClickBack"),
            VariantDescriptor { name: "Resize".to_string(), shape: VariantShape::NamedFields },
        ],
    };
    assert!(expand_enum_tree_leaf(input).is_ok());
}

#[test]
fn leaf_tuple_variant_is_reported_before_its_markers_are_read() {
    let input = Declaration {
        name: "IpSetup".to_string(),
        markers: vec![marker("enum_tree_leaf", &["MenuFlow"])],
        variants: vec![
            unit("ClickStartIp"),
            VariantDescriptor {
                name: "UpdatePortText".to_string(),
                shape: VariantShape::Positional(vec![named("i32")]),
            },
            VariantDescriptor {
                name: "Other".to_string(),
                shape: VariantShape::Positional(vec![]),
            },
        ],
    };
    assert_eq!(
        expand_enum_tree_leaf(input),
        Err(Diagnostic::LeafHasPositionalVariant {
            node: "IpSetup".to_string(),
            variant: "UpdatePortText".to_string(),
            index: 1,
        })
    );
}

#[test]
fn leaf_without_a_marker_of_its_kind_is_refused() {
    let input = Declaration {
        name: "General".to_string(),
        markers: vec![],
        variants: vec![unit("ClickBack")],
    };
    assert_eq!(
        expand_enum_tree_leaf(input),
        Err(Diagnostic::MissingAssociation { node: "General".to_string() })
    );
}

#[test]
fn two_types_of_a_marker_are_parent_then_root() {
    assert_eq!(
        parse_two_type_args(&marker("enum_tree_leaf", &["MenuFlow", "RootAction"])),
        Association { parent: "MenuFlow".to_string(), root: "RootAction".to_string() }
    );
    assert_eq!(
        parse_two_type_args(&marker("enum_tree_leaf", &["MenuFlow", "RootAction", "More"])),
        Association { parent: "MenuFlow".to_string(), root: "RootAction".to_string() }
    );
}

#[test]
fn leaf_marker_with_one_type_is_refused() {
    let input = Declaration {
        name: "General".to_string(),
        markers: vec![
            marker("enum_tree_inner", &[]),
            marker("enum_tree_leaf", &["MenuFlow", "RootAction"]),
            marker("enum_tree_leaf", &["MenuFlow"]),
        ],
        variants: vec![unit("ClickBack")],
    };
    assert_eq!(
        expand_enum_tree_leaf(input),
        Err(Diagnostic::MalformedMarker { node: "General".to_string(), marker: 2 })
    );
}
