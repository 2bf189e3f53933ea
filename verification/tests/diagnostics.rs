use enum_tree::Diagnostic;

#[test]
fn leaf_diagnostic_names_the_leaf_and_the_variant() {
    let d = Diagnostic::LeafHasPositionalVariant {
        node: "IpSetup".to_string(),
        variant: "UpdatePortText".to_string(),
        index: 0,
    };
    assert_eq!(
        d.message(),
        "EnumTree leaf 'IpSetup' cannot have tuple variants (found tuple variant 'UpdatePortText')"
    );
}

#[test]
fn missing_marker_diagnostic_lists_the_markers() {
    let d = Diagnostic::MissingMarker { node: "Plain".to_string() };
    assert_eq!(
        d.message(),
        "EnumTree derive requires one of #[enum_tree_root], #[enum_tree_inner(P,R)], or #[enum_tree_leaf(P,R)]"
    );
}

#[test]
fn other_diagnostics_name_what_is_at_fault() {
    assert_eq!(
        Diagnostic::MalformedMarker { node: "N".to_string(), marker: 3 }.message(),
        "EnumTree node 'N' has a marker without a parent type and a root type"
    );
    assert_eq!(
        Diagnostic::MissingAssociation { node: "N".to_string() }.message(),
        "EnumTree node 'N' declares no parent and root"
    );
    assert_eq!(
        Diagnostic::RootHasAssociation { node: "R".to_string() }.message(),
        "EnumTree root 'R' cannot declare a parent"
    );
    assert_eq!(
        Diagnostic::ConflictingAssociation { node: "N".to_string(), root: "R".to_string() }.message(),
        "EnumTree node 'N' declares two parents under root 'R'"
    );
    assert_eq!(
        Diagnostic::VariantShapeMismatch {
            node: "N".to_string(),
            variant: "V".to_string(),
            index: 1,
        }
        .message(),
        "EnumTree node 'N' needs variant 'V' to wrap exactly one child of the same name"
    );
    assert_eq!(
        Diagnostic::DanglingChain { node: "N".to_string(), root: "R".to_string() }.message(),
        "EnumTree node 'N' has no chain of parents to root 'R'"
    );
    assert_eq!(
        Diagnostic::NonTerminatingChain { node: "N".to_string(), root: "R".to_string() }.message(),
        "EnumTree node 'N' has a chain of parents that never arrives at root 'R'"
    );
}
