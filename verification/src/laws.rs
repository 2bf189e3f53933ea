//! What holds of the conversions and of the two traversals, whatever the
//! forest and the value.

use crate::diagnostic::DiagnosticView;
use crate::expand::{declared_kind, derivation, expansion, malformed, takes_types};
use crate::model::{AssociationView, DeclarationView, NodeKind, NodeView};
use crate::synth::{
    capability_of, distinct, lemma_distinct, parents_of, synthesize_spec, CapabilityView,
    ConversionView,
};
use crate::table::{
    chains_end, distance, from_root_spec, lookup_from, parent_of, reaches, to_root_spec,
};
use crate::validate::{
    clash, clashes_before, first_bad_variant, no_clash, valid, validation, variant_ok,
};
use crate::value::{embed_spec, extract_spec, wrap, ExtractError, ValueView};
use vstd::prelude::*;

verus! {

/// An extraction undoes the embedding it was emitted with: a value of the
/// node, embedded in the parent and extracted again, is the value.
pub proof fn lemma_extract_undoes_embed(c: ConversionView, v: ValueView)
    requires
        v.node_name() == c.node,
    ensures
        extract_spec(c, embed_spec(c, v)) == Ok::<ValueView, ExtractError>(v),
{
}

/// What is no value of the node is not taken out again, once embedded.
pub proof fn lemma_extract_refuses_other_nodes(c: ConversionView, v: ValueView)
    requires
        v.node_name() != c.node,
    ensures
        extract_spec(c, embed_spec(c, v)) == Err::<ValueView, ExtractError>(
            ExtractError::WrongVariant,
        ),
{
}

/// For every parent of a node there is one embedding and, at the same
/// position, the extraction that undoes it.
pub proof fn lemma_synthesized_pair(node: NodeView, i: int, v: ValueView)
    requires
        0 <= i < synthesize_spec(node).embeddings.len(),
        v.node_name() == node.name,
    ensures
        synthesize_spec(node).extractions.len() == synthesize_spec(node).embeddings.len(),
        synthesize_spec(node).embeddings[i].node == node.name,
        synthesize_spec(node).extractions[i] == synthesize_spec(node).embeddings[i],
        extract_spec(
            synthesize_spec(node).extractions[i],
            embed_spec(synthesize_spec(node).embeddings[i], v),
        ) == Ok::<ValueView, ExtractError>(v),
{
    lemma_extract_undoes_embed(synthesize_spec(node).embeddings[i], v);
}

/// The conversion between `node` and `parent`.
pub open spec fn conversion(node: Seq<char>, parent: Seq<char>) -> ConversionView {
    ConversionView { node, parent: Some(parent) }
}

/// A node that is no root gets exactly one embedding for each distinct
/// parent: no embedding occurs twice, every association's parent has one, and
/// every embedding is that of some association's parent. Two associations
/// with one parent and two roots share the embedding and keep a capability
/// each.
pub proof fn lemma_one_embedding_per_parent(node: NodeView)
    requires
        node.kind != NodeKind::Root,
    ensures
        synthesize_spec(node).embeddings.no_duplicates(),
        forall|k: int|
            0 <= k < node.associations.len() ==> synthesize_spec(node).embeddings.contains(
                conversion(node.name, (#[trigger] node.associations[k]).parent),
            ),
        forall|i: int|
            0 <= i < synthesize_spec(node).embeddings.len() ==> (#[trigger] synthesize_spec(
                node,
            ).embeddings[i]).parent is Some && parents_of(node.associations).contains(
                synthesize_spec(node).embeddings[i].parent->0,
            ),
        forall|k: int|
            0 <= k < node.associations.len() ==> synthesize_spec(node).capabilities.contains(
                capability_of(node.name, #[trigger] node.associations[k]),
            ),
{
    let s = synthesize_spec(node);
    let all = parents_of(node.associations);
    let parents = distinct(all);
    let assocs = distinct(node.associations);
    lemma_distinct(all);
    lemma_distinct(node.associations);
    assert forall|i: int, j: int|
        0 <= i < s.embeddings.len() && 0 <= j < s.embeddings.len() && i != j implies s.embeddings[i]
        != s.embeddings[j] by {
        assert(parents[i] != parents[j]);
    }
    assert forall|k: int| 0 <= k < node.associations.len() implies s.embeddings.contains(
        conversion(node.name, (#[trigger] node.associations[k]).parent),
    ) by {
        let p = node.associations[k].parent;
        assert(all[k] == p);
        assert(parents.contains(p));
        let i = choose|i: int| 0 <= i < parents.len() && parents[i] == p;
        assert(s.embeddings[i] == conversion(node.name, p));
    }
    assert forall|i: int| 0 <= i < s.embeddings.len() implies (#[trigger] s.embeddings[i]).parent is Some
        && all.contains(s.embeddings[i].parent->0) by {
        assert(parents.contains(parents[i]));
    }
    assert forall|k: int| 0 <= k < node.associations.len() implies s.capabilities.contains(
        capability_of(node.name, #[trigger] node.associations[k]),
    ) by {
        let a = node.associations[k];
        assert(assocs.contains(a));
        let i = choose|i: int| 0 <= i < assocs.len() && assocs[i] == a;
        assert(s.capabilities[i] == capability_of(node.name, a));
    }
}

/// The extraction of one node fails on what a sibling embedded: under one
/// parent, a value embedded as `n1` is `WrongVariant` to the extraction of
/// another node `n2`.
pub proof fn lemma_sibling_extraction_fails(
    n1: Seq<char>,
    n2: Seq<char>,
    parent: Seq<char>,
    v: ValueView,
)
    requires
        n1 != n2,
    ensures
        extract_spec(
            ConversionView { node: n2, parent: Some(parent) },
            embed_spec(ConversionView { node: n1, parent: Some(parent) }, v),
        ) == Err::<ValueView, ExtractError>(ExtractError::WrongVariant),
{
}

/// A chain that arrives does so at a value of the root.
pub proof fn lemma_to_root_arrives(
    table: Seq<CapabilityView>,
    v: ValueView,
    root: Seq<char>,
    fuel: nat,
)
    requires
        reaches(table, v.node_name(), root, fuel),
    ensures
        to_root_spec(table, v, root, fuel).node_name() == root,
    decreases fuel,
{
    if v.node_name() != root {
        let p = parent_of(table, v.node_name(), root)->0;
        lemma_to_root_arrives(table, wrap(p, v.node_name(), v), root, (fuel - 1) as nat);
    }
}

/// The conversion to a root embeds the value once for each step of its chain,
/// and the chain has no more steps than were allowed.
pub proof fn lemma_to_root_embeds_once_per_step(
    table: Seq<CapabilityView>,
    v: ValueView,
    root: Seq<char>,
    fuel: nat,
)
    requires
        reaches(table, v.node_name(), root, fuel),
    ensures
        to_root_spec(table, v, root, fuel).layers() == v.layers() + distance(
            table,
            v.node_name(),
            root,
            fuel,
        ),
        distance(table, v.node_name(), root, fuel) <= fuel,
    decreases fuel,
{
    if v.node_name() != root {
        let p = parent_of(table, v.node_name(), root)->0;
        lemma_to_root_embeds_once_per_step(
            table,
            wrap(p, v.node_name(), v),
            root,
            (fuel - 1) as nat,
        );
    }
}

/// Down, then up: a value converted to a root that its chain arrives at, and
/// recovered from that root as a value of its own node, is the value.
pub proof fn lemma_round_trip(table: Seq<CapabilityView>, v: ValueView, root: Seq<char>, fuel: nat)
    requires
        reaches(table, v.node_name(), root, fuel),
    ensures
        from_root_spec(table, to_root_spec(table, v, root, fuel), v.node_name(), root, fuel)
            == Some(v),
    decreases fuel,
{
    if v.node_name() != root {
        let node = v.node_name();
        let p = parent_of(table, node, root)->0;
        let up = wrap(p, node, v);
        lemma_round_trip(table, up, root, (fuel - 1) as nat);
        assert(to_root_spec(table, v, root, fuel) == to_root_spec(
            table,
            up,
            root,
            (fuel - 1) as nat,
        ));
        assert(extract_spec(ConversionView { node, parent: Some(p) }, up) == Ok::<
            ValueView,
            ExtractError,
        >(v));
    }
}

/// What is recovered from a root as a value of `target` is a value of
/// `target`.
pub proof fn lemma_from_root_gives_target(
    table: Seq<CapabilityView>,
    v: ValueView,
    target: Seq<char>,
    root: Seq<char>,
    fuel: nat,
)
    requires
        from_root_spec(table, v, target, root, fuel) is Some,
    ensures
        from_root_spec(table, v, target, root, fuel)->0.node_name() == target,
{
}

/// Nothing is recovered under `root` from a value that is no value of `root`.
pub proof fn lemma_foreign_value_gives_nothing(
    table: Seq<CapabilityView>,
    v: ValueView,
    target: Seq<char>,
    root: Seq<char>,
    fuel: nat,
)
    requires
        v.node_name() != root,
    ensures
        from_root_spec(table, v, target, root, fuel) is None,
    decreases fuel,
{
    if target != root && fuel > 0 {
        match parent_of(table, target, root) {
            Some(p) => {
                lemma_foreign_value_gives_nothing(table, v, p, root, (fuel - 1) as nat);
            },
            None => {},
        }
    }
}

/// Roots do not leak into each other: what was converted to one root is not
/// recovered under another, whatever the node asked for and whatever parents
/// the two trees share.
pub proof fn lemma_root_isolation(
    table: Seq<CapabilityView>,
    v: ValueView,
    target: Seq<char>,
    r1: Seq<char>,
    r2: Seq<char>,
    fuel1: nat,
    fuel2: nat,
)
    requires
        reaches(table, v.node_name(), r1, fuel1),
        r1 != r2,
    ensures
        from_root_spec(table, to_root_spec(table, v, r1, fuel1), target, r2, fuel2) is None,
{
    lemma_to_root_arrives(table, v, r1, fuel1);
    lemma_foreign_value_gives_nothing(table, to_root_spec(table, v, r1, fuel1), target, r2, fuel2);
}

/// What a lookup finds is a capability of the table that binds the node
/// under the root.
pub proof fn lemma_lookup_finds(
    table: Seq<CapabilityView>,
    node: Seq<char>,
    root: Seq<char>,
    i: nat,
)
    requires
        lookup_from(table, node, root, i) is Some,
    ensures
        table.contains(lookup_from(table, node, root, i)->0),
        lookup_from(table, node, root, i)->0.node == node,
        lookup_from(table, node, root, i)->0.root == root,
    decreases table.len() - i,
{
    if i < table.len() && !(table[i as int].node == node && table[i as int].root == root) {
        lemma_lookup_finds(table, node, root, i + 1);
    }
}

/// A lookup that finds nothing means that no capability of the table binds
/// the node under the root.
pub proof fn lemma_lookup_misses(
    table: Seq<CapabilityView>,
    node: Seq<char>,
    root: Seq<char>,
    i: nat,
)
    requires
        lookup_from(table, node, root, i) is None,
    ensures
        forall|j: int|
            i <= j < table.len() ==> !((#[trigger] table[j]).node == node && table[j].root == root),
    decreases table.len() - i,
{
    if i < table.len() {
        lemma_lookup_misses(table, node, root, i + 1);
    }
}

/// In a table whose chains all arrive, the chain of every node that a
/// capability binds under a root arrives at that root: on such a table the
/// conversion to the root is total.
pub proof fn lemma_bound_node_reaches(
    table: Seq<CapabilityView>,
    bound: nat,
    node: Seq<char>,
    root: Seq<char>,
)
    requires
        chains_end(table, bound),
        lookup_from(table, node, root, 0) is Some,
    ensures
        reaches(table, node, root, bound),
{
    lemma_lookup_finds(table, node, root, 0);
    let c = lookup_from(table, node, root, 0)->0;
    let i = choose|i: int| 0 <= i < table.len() && table[i] == c;
    assert(reaches(table, table[i].node, table[i].root, bound));
}

/// In a forest that was accepted, a value of a node with a parent under
/// `root`, converted to `root` and recovered from there as a value of its
/// node, is the value.
pub proof fn lemma_round_trip_in_forest(
    table: Seq<CapabilityView>,
    bound: nat,
    v: ValueView,
    root: Seq<char>,
)
    requires
        chains_end(table, bound),
        lookup_from(table, v.node_name(), root, 0) is Some,
    ensures
        from_root_spec(table, to_root_spec(table, v, root, bound), v.node_name(), root, bound)
            == Some(v),
{
    lemma_bound_node_reaches(table, bound, v.node_name(), root);
    lemma_round_trip(table, v, root, bound);
}

/// In a forest that was accepted, a node that stands under two roots, by one
/// parent or by two, is converted to two different values, and what was
/// converted to one root is not recovered under the other.
pub proof fn lemma_root_isolation_in_forest(
    table: Seq<CapabilityView>,
    bound: nat,
    v: ValueView,
    target: Seq<char>,
    r1: Seq<char>,
    r2: Seq<char>,
)
    requires
        chains_end(table, bound),
        lookup_from(table, v.node_name(), r1, 0) is Some,
        lookup_from(table, v.node_name(), r2, 0) is Some,
        r1 != r2,
    ensures
        to_root_spec(table, v, r1, bound).node_name() == r1,
        to_root_spec(table, v, r2, bound).node_name() == r2,
        to_root_spec(table, v, r1, bound) != to_root_spec(table, v, r2, bound),
        from_root_spec(table, to_root_spec(table, v, r1, bound), target, r2, bound) is None,
        from_root_spec(table, to_root_spec(table, v, r2, bound), target, r1, bound) is None,
{
    lemma_bound_node_reaches(table, bound, v.node_name(), r1);
    lemma_bound_node_reaches(table, bound, v.node_name(), r2);
    lemma_to_root_arrives(table, v, r1, bound);
    lemma_to_root_arrives(table, v, r2, bound);
    lemma_root_isolation(table, v, target, r1, r2, bound, bound);
    lemma_root_isolation(table, v, target, r2, r1, bound, bound);
}

/// A leaf with a variant of unnamed fields is refused, and the diagnostic
/// names the first such variant.
pub proof fn lemma_leaf_with_positional_is_refused(node: NodeView, r: Result<(), DiagnosticView>)
    requires
        node.kind == NodeKind::Leaf,
        exists|i: int| 0 <= i < node.variants.len() && (#[trigger] node.variants[i]).shape is Positional,
        validation(node, r),
    ensures
        r matches Err(DiagnosticView::LeafHasPositionalVariant { node: n, variant, index })
            && n == node.name && first_bad_variant(node.kind, node.variants, index)
            && node.variants[index].shape is Positional && variant == node.variants[index].name,
{
    let i = choose|i: int|
        0 <= i < node.variants.len() && (#[trigger] node.variants[i]).shape is Positional;
    assert(!variant_ok(node.kind, node.variants[i]));
}

/// No code is written for a leaf with a variant of unnamed fields: its
/// expansion is the diagnostic that names the first such variant, whatever
/// its markers hold.
pub proof fn lemma_leaf_with_positional_emits_nothing(
    decl: DeclarationView,
    r: Result<Seq<char>, DiagnosticView>,
)
    requires
        exists|i: int| 0 <= i < decl.variants.len() && (#[trigger] decl.variants[i]).shape is Positional,
        expansion(decl, NodeKind::Leaf, r),
    ensures
        r matches Err(DiagnosticView::LeafHasPositionalVariant { node: n, variant, index })
            && n == decl.name && first_bad_variant(NodeKind::Leaf, decl.variants, index)
            && decl.variants[index].shape is Positional && variant == decl.variants[index].name,
{
    let i = choose|i: int|
        0 <= i < decl.variants.len() && (#[trigger] decl.variants[i]).shape is Positional;
    assert(!variant_ok(NodeKind::Leaf, decl.variants[i]));
}

/// The same holds of a declaration that is expanded by its markers: where
/// they declare a leaf and each names two types, a variant of unnamed fields
/// gives the diagnostic that names the first such variant, and no code.
pub proof fn lemma_declared_leaf_with_positional_emits_nothing(
    decl: DeclarationView,
    r: Result<Seq<char>, DiagnosticView>,
)
    requires
        declared_kind(decl.markers) == Some(NodeKind::Leaf),
        forall|j: int|
            0 <= j < decl.markers.len() && takes_types(#[trigger] decl.markers[j]) ==> !malformed(
                decl.markers[j],
            ),
        exists|i: int| 0 <= i < decl.variants.len() && (#[trigger] decl.variants[i]).shape is Positional,
        derivation(decl, r),
    ensures
        r matches Err(DiagnosticView::LeafHasPositionalVariant { node: n, variant, index })
            && n == decl.name && first_bad_variant(NodeKind::Leaf, decl.variants, index)
            && decl.variants[index].shape is Positional && variant == decl.variants[index].name,
{
    if let Err(DiagnosticView::MalformedMarker { node, marker }) = r {
        assert(takes_types(decl.markers[marker]));
    } else {
        lemma_leaf_with_positional_emits_nothing(decl, r);
    }
}

/// Two lists of associations that hold the same associations, in whatever
/// order and however often.
pub open spec fn same_associations(a: Seq<AssociationView>, b: Seq<AssociationView>) -> bool {
    forall|x: AssociationView| a.contains(x) <==> b.contains(x)
}

/// A clash does not depend on where the two associations stand.
proof fn lemma_clash_carries_over(a: Seq<AssociationView>, b: Seq<AssociationView>)
    requires
        same_associations(a, b),
        no_clash(a),
    ensures
        no_clash(b),
{
    assert forall|k: int| 0 <= k < b.len() implies !#[trigger] clashes_before(b, k) by {
        if clashes_before(b, k) {
            let i = choose|i: int| 0 <= i < k && clash(#[trigger] b[i], b[k]);
            assert(b.contains(b[i]) && b.contains(b[k]));
            assert(a.contains(b[i]) && a.contains(b[k]));
            let i2 = choose|j: int| 0 <= j < a.len() && a[j] == b[i];
            let k2 = choose|j: int| 0 <= j < a.len() && a[j] == b[k];
            if i2 < k2 {
                assert(clash(a[i2], a[k2]));
                assert(clashes_before(a, k2));
            } else {
                assert(clash(a[k2], a[i2]));
                assert(clashes_before(a, i2));
            }
        }
    }
}

/// The order of a node's associations, and their repetition, change nothing:
/// two nodes that differ in these alone are valid together, and get the same
/// capabilities and the same conversions.
pub proof fn lemma_order_is_insignificant(n1: NodeView, n2: NodeView)
    requires
        n1.name == n2.name,
        n1.kind == n2.kind,
        n1.variants == n2.variants,
        same_associations(n1.associations, n2.associations),
    ensures
        valid(n1) == valid(n2),
        forall|c: CapabilityView|
            synthesize_spec(n1).capabilities.contains(c) <==> synthesize_spec(
                n2,
            ).capabilities.contains(c),
        forall|e: ConversionView|
            synthesize_spec(n1).embeddings.contains(e) <==> synthesize_spec(n2).embeddings.contains(
                e,
            ),
        forall|x: ConversionView|
            synthesize_spec(n1).extractions.contains(x) <==> synthesize_spec(
                n2,
            ).extractions.contains(x),
{
    lemma_same_length_class(n1.associations, n2.associations);
    if no_clash(n1.associations) {
        lemma_clash_carries_over(n1.associations, n2.associations);
    }
    if no_clash(n2.associations) {
        lemma_clash_carries_over(n2.associations, n1.associations);
    }
    if n1.kind == NodeKind::Root {
        assert(n1.associations.len() == 0 <==> n2.associations.len() == 0);
    } else {
        assert forall|c: CapabilityView|
            synthesize_spec(n1).capabilities.contains(c) <==> synthesize_spec(
                n2,
            ).capabilities.contains(c) by {
            if synthesize_spec(n1).capabilities.contains(c) {
                lemma_capabilities_carry_over(n1, n2, c);
            }
            if synthesize_spec(n2).capabilities.contains(c) {
                lemma_capabilities_carry_over(n2, n1, c);
            }
        }
        assert forall|e: ConversionView|
            synthesize_spec(n1).embeddings.contains(e) <==> synthesize_spec(n2).embeddings.contains(
                e,
            ) by {
            if synthesize_spec(n1).embeddings.contains(e) {
                lemma_conversions_carry_over(n1, n2, e);
            }
            if synthesize_spec(n2).embeddings.contains(e) {
                lemma_conversions_carry_over(n2, n1, e);
            }
        }
        assert(synthesize_spec(n1).extractions =~= synthesize_spec(n1).embeddings);
        assert(synthesize_spec(n2).extractions =~= synthesize_spec(n2).embeddings);
    }
}

/// Lists that hold the same associations are empty together.
proof fn lemma_same_length_class(a: Seq<AssociationView>, b: Seq<AssociationView>)
    requires
        same_associations(a, b),
    ensures
        a.len() == 0 <==> b.len() == 0,
{
    if a.len() > 0 {
        assert(a.contains(a[0]));
        assert(b.contains(a[0]));
    }
    if b.len() > 0 {
        assert(b.contains(b[0]));
        assert(a.contains(b[0]));
    }
}

/// A capability of one node is a capability of another that holds the same
/// associations.
proof fn lemma_capabilities_carry_over(n1: NodeView, n2: NodeView, c: CapabilityView)
    requires
        n1.name == n2.name,
        n1.kind == n2.kind,
        n1.kind != NodeKind::Root,
        same_associations(n1.associations, n2.associations),
        synthesize_spec(n1).capabilities.contains(c),
    ensures
        synthesize_spec(n2).capabilities.contains(c),
{
    let d1 = distinct(n1.associations);
    let d2 = distinct(n2.associations);
    lemma_distinct(n1.associations);
    lemma_distinct(n2.associations);
    let i = choose|i: int|
        0 <= i < synthesize_spec(n1).capabilities.len() && synthesize_spec(n1).capabilities[i] == c;
    assert(d1.contains(d1[i]));
    assert(n1.associations.contains(d1[i]));
    assert(n2.associations.contains(d1[i]));
    assert(d2.contains(d1[i]));
    let j = choose|j: int| 0 <= j < d2.len() && d2[j] == d1[i];
    assert(synthesize_spec(n2).capabilities[j] == c);
}

/// An embedding of one node is an embedding of another that holds the same
/// associations.
proof fn lemma_conversions_carry_over(n1: NodeView, n2: NodeView, e: ConversionView)
    requires
        n1.name == n2.name,
        n1.kind == n2.kind,
        n1.kind != NodeKind::Root,
        same_associations(n1.associations, n2.associations),
        synthesize_spec(n1).embeddings.contains(e),
    ensures
        synthesize_spec(n2).embeddings.contains(e),
{
    let p1 = parents_of(n1.associations);
    let p2 = parents_of(n2.associations);
    let d1 = distinct(p1);
    let d2 = distinct(p2);
    lemma_distinct(p1);
    lemma_distinct(p2);
    let i = choose|i: int|
        0 <= i < synthesize_spec(n1).embeddings.len() && synthesize_spec(n1).embeddings[i] == e;
    assert(d1.contains(d1[i]));
    assert(p1.contains(d1[i]));
    let k = choose|k: int| 0 <= k < p1.len() && p1[k] == d1[i];
    assert(n1.associations.contains(n1.associations[k]));
    assert(n2.associations.contains(n1.associations[k]));
    let k2 = choose|j: int| 0 <= j < n2.associations.len() && n2.associations[j] == n1.associations[k];
    assert(p2[k2] == d1[i]);
    assert(p2.contains(d1[i]));
    assert(d2.contains(d1[i]));
    let j = choose|j: int| 0 <= j < d2.len() && d2[j] == d1[i];
    assert(synthesize_spec(n2).embeddings[j] == e);
}

/// A chain that arrives within some steps arrives within more, and the two
/// traversals give the same values then: once a chain arrives, the bound on
/// its steps is of no account.
pub proof fn lemma_more_steps_change_nothing(
    table: Seq<CapabilityView>,
    v: ValueView,
    root: Seq<char>,
    fuel: nat,
    more: nat,
)
    requires
        reaches(table, v.node_name(), root, fuel),
        fuel <= more,
    ensures
        reaches(table, v.node_name(), root, more),
        to_root_spec(table, v, root, more) == to_root_spec(table, v, root, fuel),
        from_root_spec(table, to_root_spec(table, v, root, more), v.node_name(), root, more)
            == Some(v),
    decreases fuel,
{
    if v.node_name() != root {
        let p = parent_of(table, v.node_name(), root)->0;
        lemma_more_steps_change_nothing(
            table,
            wrap(p, v.node_name(), v),
            root,
            (fuel - 1) as nat,
            (more - 1) as nat,
        );
    }
    lemma_round_trip(table, v, root, more);
}

} // verus!
