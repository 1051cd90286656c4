//! Differences between two graphs: which nodes and edges were added, removed
//! or changed, and what changed in each.
//!
//! Property values are compared by a caller-supplied test, since equality of
//! floating-point values is decided with a tolerance outside this library.

use vstd::prelude::*;
use crate::graph_simple::{Edge, EdgeId, Graph, Node, NodeId, PropertyValue, texts, touches};
use crate::str_map::StrMap;

verus! {

/// A property whose value differs between the two sides.
#[derive(Debug, Clone)]
pub struct PropertyValueChange {
    pub original: PropertyValue,
    pub new: PropertyValue,
}

/// What changed in a node.
#[derive(Debug, Clone)]
pub struct NodeChanges {
    pub added_labels: Vec<String>,
    pub removed_labels: Vec<String>,
    pub added_properties: StrMap<PropertyValue>,
    pub removed_properties: StrMap<PropertyValue>,
    pub modified_properties: StrMap<PropertyValueChange>,
}

/// What changed in an edge.
#[derive(Debug, Clone)]
pub struct EdgeChanges {
    pub added_properties: StrMap<PropertyValue>,
    pub removed_properties: StrMap<PropertyValue>,
    pub modified_properties: StrMap<PropertyValueChange>,
    pub relationship_type_changed: bool,
    pub endpoints_changed: bool,
}

/// A node present on both sides with changes.
#[derive(Debug, Clone)]
pub struct NodeModification {
    pub node_id: NodeId,
    pub original: Node,
    pub modified: Node,
    pub changes: NodeChanges,
}

/// An edge present on both sides with changes.
#[derive(Debug, Clone)]
pub struct EdgeModification {
    pub edge_id: EdgeId,
    pub original: Edge,
    pub modified: Edge,
    pub changes: EdgeChanges,
}

/// Counts summarising a diff.
#[derive(Debug, Clone)]
pub struct DiffSummary {
    pub nodes_count_original: usize,
    pub nodes_count_modified: usize,
    pub edges_count_original: usize,
    pub edges_count_modified: usize,
    pub nodes_added: usize,
    pub nodes_removed: usize,
    pub nodes_modified: usize,
    pub edges_added: usize,
    pub edges_removed: usize,
    pub edges_modified: usize,
}

/// The full difference between two graphs.
#[derive(Debug, Clone)]
pub struct GraphDiff {
    pub added_nodes: Vec<Node>,
    pub removed_nodes: Vec<Node>,
    pub modified_nodes: Vec<NodeModification>,
    pub added_edges: Vec<Edge>,
    pub removed_edges: Vec<Edge>,
    pub modified_edges: Vec<EdgeModification>,
    pub summary: DiffSummary,
}

/// Which kinds of change a comparison looks at.
#[derive(Debug, Clone)]
pub struct ComparisonOptions {
    pub include_property_changes: bool,
    pub include_label_changes: bool,
    pub include_structural_changes: bool,
    pub ignore_property_order: bool,
    pub treat_missing_as_null: bool,
}

impl Default for ComparisonOptions {
    fn default() -> (r: Self)
        ensures
            r.include_property_changes,
            r.include_label_changes,
            r.include_structural_changes,
            r.ignore_property_order,
            !r.treat_missing_as_null,
    {
        ComparisonOptions {
            include_property_changes: true,
            include_label_changes: true,
            include_structural_changes: true,
            ignore_property_order: true,
            treat_missing_as_null: false,
        }
    }
}

/// Graph comparison operations.
pub struct GraphComparator;

/// Whether two property values are the same value (byte strings by contents).
pub open spec fn same_value(a: PropertyValue, b: PropertyValue) -> bool {
    match (a, b) {
        (PropertyValue::Bytes(x), PropertyValue::Bytes(y)) => x@ == y@,
        _ => a == b,
    }
}

/// Equality of two property values that are not both floats: same kind and
/// same value (strings and bytes by content); values of different kinds differ.
pub open spec fn plain_equal(a: PropertyValue, b: PropertyValue) -> bool {
    match (a, b) {
        (PropertyValue::Null, PropertyValue::Null) => true,
        (PropertyValue::Bool(x), PropertyValue::Bool(y)) => x == y,
        (PropertyValue::Int64(x), PropertyValue::Int64(y)) => x == y,
        (PropertyValue::String(x), PropertyValue::String(y)) => x@ == y@,
        (PropertyValue::Bytes(x), PropertyValue::Bytes(y)) => x@ == y@,
        _ => false,
    }
}

/// Whether `a` and `b` were found equal (`eq`) or different: two floats by
/// the float test `f`, which the caller supplies, any other pair by
/// `plain_equal`.
pub open spec fn reported<F: Fn(&PropertyValue, &PropertyValue) -> bool>(
    f: F,
    a: PropertyValue,
    b: PropertyValue,
    eq: bool,
) -> bool {
    match (a, b) {
        (PropertyValue::Float64(_), PropertyValue::Float64(_)) => call_ensures(f, (&a, &b), eq),
        _ => eq == plain_equal(a, b),
    }
}

fn bytes_equal(x: &Vec<u8>, y: &Vec<u8>) -> (r: bool)
    ensures
        r == (x@ == y@),
{
    if x.len() != y.len() {
        return false;
    }
    let mut i: usize = 0;
    while i < x.len()
        invariant
            x@.len() == y@.len(),
            i <= x@.len(),
            forall|j: int| 0 <= j < i ==> x@[j] == y@[j],
        decreases x@.len() - i,
    {
        if x[i] != y[i] {
            return false;
        }
        i = i + 1;
    }
    assert(x@ =~= y@);
    true
}

/// The float test accepts every pair.
pub open spec fn total_test<F: Fn(&PropertyValue, &PropertyValue) -> bool>(f: F) -> bool {
    forall|a: &PropertyValue, b: &PropertyValue| #[trigger] f.requires((a, b))
}

/// A list of distinct labels that are exactly those of `from` missing in `other`.
pub open spec fn is_label_difference(d: Seq<Seq<char>>, from: Seq<Seq<char>>, other: Seq<Seq<char>>) -> bool {
    &&& d.no_duplicates()
    &&& forall|l: Seq<char>| #[trigger] d.contains(l) <==> (from.contains(l) && !other.contains(l))
}

/// `changes` lists exactly the property differences from `o` to `m`.
pub open spec fn property_diff<F: Fn(&PropertyValue, &PropertyValue) -> bool>(
    o: Map<Seq<char>, PropertyValue>,
    m: Map<Seq<char>, PropertyValue>,
    added: Map<Seq<char>, PropertyValue>,
    removed: Map<Seq<char>, PropertyValue>,
    modified: Map<Seq<char>, PropertyValueChange>,
    f: F,
) -> bool {
    &&& forall|k: Seq<char>| #[trigger] added.contains_key(k) <==> (m.contains_key(k) && !o.contains_key(k))
    &&& forall|k: Seq<char>| added.contains_key(k) ==> same_value(#[trigger] added[k], m[k])
    &&& forall|k: Seq<char>| #[trigger] removed.contains_key(k) <==> (o.contains_key(k) && !m.contains_key(k))
    &&& forall|k: Seq<char>| removed.contains_key(k) ==> same_value(#[trigger] removed[k], o[k])
    &&& forall|k: Seq<char>| #[trigger]
        modified.contains_key(k) ==> (o.contains_key(k) && m.contains_key(k) && reported(f, o[k], m[k], false)
            && same_value(modified[k].original, o[k]) && same_value(modified[k].new, m[k]))
    &&& forall|k: Seq<char>|
        o.contains_key(k) && m.contains_key(k) && !#[trigger] modified.contains_key(k) ==> reported(
            f,
            o[k],
            m[k],
            true,
        )
}

/// No property differs between `o` and `m` by `values_equal`.
pub open spec fn properties_unchanged<F: Fn(&PropertyValue, &PropertyValue) -> bool>(
    o: Map<Seq<char>, PropertyValue>,
    m: Map<Seq<char>, PropertyValue>,
    f: F,
) -> bool {
    &&& o.dom() == m.dom()
    &&& forall|k: Seq<char>| #[trigger] o.contains_key(k) ==> reported(f, o[k], m[k], true)
}

/// `c` records exactly the changes from node `o` to node `m` under `options`.
pub open spec fn node_changes_spec<F: Fn(&PropertyValue, &PropertyValue) -> bool>(
    c: NodeChanges,
    o: Node,
    m: Node,
    options: ComparisonOptions,
    f: F,
) -> bool {
    &&& if options.include_label_changes {
        &&& is_label_difference(texts(c.added_labels@), m.label_seq(), o.label_seq())
        &&& is_label_difference(texts(c.removed_labels@), o.label_seq(), m.label_seq())
    } else {
        c.added_labels@.len() == 0 && c.removed_labels@.len() == 0
    }
    &&& if options.include_property_changes {
        property_diff(
            o.properties.map(),
            m.properties.map(),
            c.added_properties.map(),
            c.removed_properties.map(),
            c.modified_properties.map(),
            f,
        )
    } else {
        c.added_properties.map().dom().len() == 0 && c.removed_properties.map().dom().len() == 0
            && c.modified_properties.map().dom().len() == 0
    }
    &&& (c.added_labels@.len() > 0 || c.removed_labels@.len() > 0 || c.added_properties.map().dom().len() > 0
        || c.removed_properties.map().dom().len() > 0 || c.modified_properties.map().dom().len() > 0)
}

/// Node `m` shows no change from node `o` under `options`.
pub open spec fn node_unchanged<F: Fn(&PropertyValue, &PropertyValue) -> bool>(
    o: Node,
    m: Node,
    options: ComparisonOptions,
    f: F,
) -> bool {
    &&& options.include_label_changes ==> o.label_seq().to_set() == m.label_seq().to_set()
    &&& options.include_property_changes ==> properties_unchanged(o.properties.map(), m.properties.map(), f)
}

/// `c` records exactly the changes from edge `o` to edge `m` under `options`.
pub open spec fn edge_changes_spec<F: Fn(&PropertyValue, &PropertyValue) -> bool>(
    c: EdgeChanges,
    o: Edge,
    m: Edge,
    options: ComparisonOptions,
    f: F,
) -> bool {
    &&& c.relationship_type_changed == (options.include_structural_changes && o.relationship_type@
        != m.relationship_type@)
    &&& c.endpoints_changed == (options.include_structural_changes && (o.source != m.source || o.target
        != m.target))
    &&& if options.include_property_changes {
        property_diff(
            o.properties.map(),
            m.properties.map(),
            c.added_properties.map(),
            c.removed_properties.map(),
            c.modified_properties.map(),
            f,
        )
    } else {
        c.added_properties.map().dom().len() == 0 && c.removed_properties.map().dom().len() == 0
            && c.modified_properties.map().dom().len() == 0
    }
    &&& (c.relationship_type_changed || c.endpoints_changed || c.added_properties.map().dom().len() > 0
        || c.removed_properties.map().dom().len() > 0 || c.modified_properties.map().dom().len() > 0)
}

/// Edge `m` shows no change from edge `o` under `options`.
pub open spec fn edge_unchanged<F: Fn(&PropertyValue, &PropertyValue) -> bool>(
    o: Edge,
    m: Edge,
    options: ComparisonOptions,
    f: F,
) -> bool {
    &&& options.include_structural_changes ==> (o.relationship_type@ == m.relationship_type@ && o.source
        == m.source && o.target == m.target)
    &&& options.include_property_changes ==> properties_unchanged(o.properties.map(), m.properties.map(), f)
}

/// A copy of a property value.
fn copy_value(v: &PropertyValue) -> (r: PropertyValue)
    ensures
        same_value(r, *v),
{
    match v {
        PropertyValue::Null => PropertyValue::Null,
        PropertyValue::Bool(b) => PropertyValue::Bool(*b),
        PropertyValue::Int64(i) => PropertyValue::Int64(*i),
        PropertyValue::Float64(bits) => PropertyValue::Float64(*bits),
        PropertyValue::String(s) => PropertyValue::String(s.clone()),
        PropertyValue::Bytes(b) => {
            let c = b.clone();
            proof {
                assert(c@ =~= b@);
            }
            PropertyValue::Bytes(c)
        },
    }
}

/// The labels of `from` missing in `other`, each once, in order of first occurrence.
fn label_difference(from: &Vec<String>, other: &Vec<String>) -> (r: Vec<String>)
    ensures
        is_label_difference(texts(r@), texts(from@), texts(other@)),
{
    let mut out: Vec<String> = Vec::new();
    let mut i: usize = 0;
    while i < from.len()
        invariant
            i <= from@.len(),
            texts(out@).no_duplicates(),
            forall|l: Seq<char>| #[trigger] texts(out@).contains(l) <==> (texts(from@).take(i as int).contains(l)
                && !texts(other@).contains(l)),
        decreases from@.len() - i,
    {
        let label = &from[i];
        let ghost before = out@;
        let in_other = contains_text(other, label);
        let in_out = contains_text(&out, label);
        if !in_other && !in_out {
            out.push(label.clone());
            proof {
                assert(texts(out@) =~= texts(before).push(label@));
                assert forall|a: int, b: int| 0 <= a < b < texts(out@).len() implies texts(out@)[a] != texts(
                    out@,
                )[b] by {
                    if b == before.len() {
                        assert(texts(before).contains(texts(before)[a]));
                    }
                }
            }
        }
        proof {
            let t = texts(from@);
            assert(t.take(i as int + 1) =~= t.take(i as int).push(label@));
            assert forall|l: Seq<char>| #[trigger] texts(out@).contains(l) <==> (t.take(i as int + 1).contains(l)
                && !texts(other@).contains(l)) by {
                let t1 = t.take(i as int + 1);
                let t0 = t.take(i as int);
                assert(t1[i as int] == label@);
                if t0.contains(l) {
                    let q = choose|q: int| 0 <= q < t0.len() && t0[q] == l;
                    assert(t1[q] == l);
                }
                if t1.contains(l) && l != label@ {
                    let q = choose|q: int| 0 <= q < t1.len() && t1[q] == l;
                    assert(t0[q] == l);
                }
                let o1 = texts(out@);
                let o0 = texts(before);
                if o1 != o0 {
                    assert(o1[o0.len() as int] == label@);
                    if o0.contains(l) {
                        let q = choose|q: int| 0 <= q < o0.len() && o0[q] == l;
                        assert(o1[q] == l);
                    }
                    if o1.contains(l) && l != label@ {
                        let q = choose|q: int| 0 <= q < o1.len() && o1[q] == l;
                        assert(o0[q] == l);
                    }
                }
            }
        }
        i = i + 1;
    }
    proof {
        assert(texts(from@).take(i as int) =~= texts(from@));
    }
    out
}

/// Whether `x` occurs in `s`.
fn contains_text(s: &Vec<String>, x: &String) -> (r: bool)
    ensures
        r == texts(s@).contains(x@),
{
    let mut i: usize = 0;
    while i < s.len()
        invariant
            i <= s@.len(),
            forall|j: int| 0 <= j < i ==> #[trigger] s@[j]@ != x@,
        decreases s@.len() - i,
    {
        if s[i].eq(x) {
            proof {
                assert(texts(s@)[i as int] == x@);
            }
            return true;
        }
        i = i + 1;
    }
    proof {
        if texts(s@).contains(x@) {
            let j = choose|j: int| 0 <= j < texts(s@).len() && texts(s@)[j] == x@;
            assert(s@[j]@ == x@);
        }
    }
    false
}

/// Added, removed and modified properties from `o` to `m`, in key order.
fn diff_properties<F: Fn(&PropertyValue, &PropertyValue) -> bool>(
    o: &StrMap<PropertyValue>,
    m: &StrMap<PropertyValue>,
    same: &F,
) -> (r: (StrMap<PropertyValue>, StrMap<PropertyValue>, StrMap<PropertyValueChange>))
    requires
        total_test(*same),
    ensures
        property_diff(o.map(), m.map(), r.0.map(), r.1.map(), r.2.map(), *same),
{
    let mut added: StrMap<PropertyValue> = StrMap::new();
    let mut removed: StrMap<PropertyValue> = StrMap::new();
    let mut modified: StrMap<PropertyValueChange> = StrMap::new();
    let n = m.len();
    let mut i: usize = 0;
    while i < n
        invariant
            total_test(*same),
            n == m.key_seq().len(),
            i <= n,
            forall|k: Seq<char>| #[trigger] m.map().contains_key(k) <==> m.key_seq().contains(k),
            forall|k: Seq<char>| #[trigger]
                added.map().contains_key(k) <==> (m.key_seq().take(i as int).contains(k) && !o.map().contains_key(k)),
            forall|k: Seq<char>| added.map().contains_key(k) ==> same_value(#[trigger] added.map()[k], m.map()[k]),
            forall|k: Seq<char>| #[trigger]
                modified.map().contains_key(k) ==> (m.key_seq().take(i as int).contains(k) && o.map().contains_key(k)
                    && reported(*same, o.map()[k], m.map()[k], false) && same_value(modified.map()[k].original, o.map()[k])
                    && same_value(modified.map()[k].new, m.map()[k])),
            forall|k: Seq<char>|
                m.key_seq().take(i as int).contains(k) && o.map().contains_key(k) && !#[trigger] modified.map().contains_key(k)
                    ==> reported(*same, o.map()[k], m.map()[k], true),
            removed.map().dom().len() == 0,
            removed.map() == Map::<Seq<char>, PropertyValue>::empty(),
        decreases n - i,
    {
        let (key, mv) = m.entry_at(i);
        let ghost ks = m.key_seq();
        proof {
            assert(ks.take(i as int + 1) =~= ks.take(i as int).push(key@));
            assert(ks.take(i as int + 1)[i as int] == key@);
        }
        match o.get(key.as_str()) {
            Some(ov) => {
                let eq = GraphComparator::values_equal(ov, mv, same);
                if !eq {
                    let change = PropertyValueChange { original: copy_value(ov), new: copy_value(mv) };
                    modified.insert(key.clone(), change);
                }
            },
            None => {
                added.insert(key.clone(), copy_value(mv));
            },
        }
        proof {
            let t0 = ks.take(i as int);
            let t1 = ks.take(i as int + 1);
            assert forall|k: Seq<char>| #[trigger] t1.contains(k) <==> (t0.contains(k) || k == key@) by {
                if t0.contains(k) {
                    let q = choose|q: int| 0 <= q < t0.len() && t0[q] == k;
                    assert(t1[q] == k);
                }
                if t1.contains(k) && k != key@ {
                    let q = choose|q: int| 0 <= q < t1.len() && t1[q] == k;
                    assert(t0[q] == k);
                }
            }
        }
        i = i + 1;
    }
    proof {
        assert(m.key_seq().take(n as int) =~= m.key_seq());
    }
    let n2 = o.len();
    let mut j: usize = 0;
    while j < n2
        invariant
            n2 == o.key_seq().len(),
            j <= n2,
            forall|k: Seq<char>| #[trigger] o.map().contains_key(k) <==> o.key_seq().contains(k),
            forall|k: Seq<char>| #[trigger]
                removed.map().contains_key(k) <==> (o.key_seq().take(j as int).contains(k) && !m.map().contains_key(k)),
            forall|k: Seq<char>| removed.map().contains_key(k) ==> same_value(#[trigger] removed.map()[k], o.map()[k]),
        decreases n2 - j,
    {
        let (key, ov) = o.entry_at(j);
        let ghost ks = o.key_seq();
        if !m.contains_key(key.as_str()) {
            removed.insert(key.clone(), copy_value(ov));
        }
        proof {
            let t0 = ks.take(j as int);
            let t1 = ks.take(j as int + 1);
            assert(t1[j as int] == key@);
            assert forall|k: Seq<char>| #[trigger] t1.contains(k) <==> (t0.contains(k) || k == key@) by {
                if t0.contains(k) {
                    let q = choose|q: int| 0 <= q < t0.len() && t0[q] == k;
                    assert(t1[q] == k);
                }
                if t1.contains(k) && k != key@ {
                    let q = choose|q: int| 0 <= q < t1.len() && t1[q] == k;
                    assert(t0[q] == k);
                }
            }
        }
        j = j + 1;
    }
    proof {
        assert(o.key_seq().take(n2 as int) =~= o.key_seq());
    }
    (added, removed, modified)
}

impl GraphComparator {
    /// Whether two property values are equal: floats by `float_test`,
    /// everything else by kind and content.
    pub fn values_equal<F: Fn(&PropertyValue, &PropertyValue) -> bool>(
        a: &PropertyValue,
        b: &PropertyValue,
        float_test: &F,
    ) -> (eq: bool)
        requires
            total_test(*float_test),
        ensures
            reported(*float_test, *a, *b, eq),
    {
        match (a, b) {
            (PropertyValue::Null, PropertyValue::Null) => true,
            (PropertyValue::Bool(x), PropertyValue::Bool(y)) => *x == *y,
            (PropertyValue::Int64(x), PropertyValue::Int64(y)) => *x == *y,
            (PropertyValue::Float64(_), PropertyValue::Float64(_)) => float_test(a, b),
            (PropertyValue::String(x), PropertyValue::String(y)) => x.eq(y),
            (PropertyValue::Bytes(x), PropertyValue::Bytes(y)) => bytes_equal(x, y),
            _ => false,
        }
    }

    /// The changes from node `original` to node `modified`, or `None` when
    /// nothing the options look at differs.
    pub fn compare_node_changes<F: Fn(&PropertyValue, &PropertyValue) -> bool>(
        original: &Node,
        modified: &Node,
        options: &ComparisonOptions,
        same_value_test: &F,
    ) -> (r: Option<NodeChanges>)
        requires
            total_test(*same_value_test),
        ensures
            match r {
                Some(c) => node_changes_spec(c, *original, *modified, *options, *same_value_test),
                None => node_unchanged(*original, *modified, *options, *same_value_test),
            },
    {
        let mut added_labels: Vec<String> = Vec::new();
        let mut removed_labels: Vec<String> = Vec::new();
        if options.include_label_changes {
            added_labels = label_difference(&modified.labels, &original.labels);
            removed_labels = label_difference(&original.labels, &modified.labels);
        }
        let mut added_properties: StrMap<PropertyValue> = StrMap::new();
        let mut removed_properties: StrMap<PropertyValue> = StrMap::new();
        let mut modified_properties: StrMap<PropertyValueChange> = StrMap::new();
        if options.include_property_changes {
            let (a, b, c) = diff_properties(&original.properties, &modified.properties, same_value_test);
            added_properties = a;
            removed_properties = b;
            modified_properties = c;
        }
        let has_changes = added_labels.len() > 0 || removed_labels.len() > 0 || added_properties.len() > 0
            || removed_properties.len() > 0 || modified_properties.len() > 0;
        if has_changes {
            Some(
                NodeChanges {
                    added_labels,
                    removed_labels,
                    added_properties,
                    removed_properties,
                    modified_properties,
                },
            )
        } else {
            proof {
                if options.include_label_changes {
                    let a = modified.label_seq();
                    let b = original.label_seq();
                    assert(a.to_set() =~= b.to_set()) by {
                        assert forall|l: Seq<char>| a.to_set().contains(l) implies b.to_set().contains(l) by {
                            assert(!texts(added_labels@).contains(l));
                        }
                        assert forall|l: Seq<char>| b.to_set().contains(l) implies a.to_set().contains(l) by {
                            assert(!texts(removed_labels@).contains(l));
                        }
                    }
                }
                if options.include_property_changes {
                    let om = original.properties.map();
                    let mm = modified.properties.map();
                    assert(added_properties.map().dom() =~= Set::<Seq<char>>::empty());
                    assert(removed_properties.map().dom() =~= Set::<Seq<char>>::empty());
                    assert(modified_properties.map().dom() =~= Set::<Seq<char>>::empty());
                    assert(om.dom() =~= mm.dom()) by {
                        assert forall|k: Seq<char>| om.contains_key(k) implies mm.contains_key(k) by {
                            assert(!removed_properties.map().contains_key(k));
                        }
                        assert forall|k: Seq<char>| mm.contains_key(k) implies om.contains_key(k) by {
                            assert(!added_properties.map().contains_key(k));
                        }
                    }
                    assert forall|k: Seq<char>| #[trigger] om.contains_key(k) implies reported(
                        *same_value_test,
                        om[k],
                        mm[k],
                        true,
                    ) by {
                        assert(!modified_properties.map().contains_key(k));
                    }
                }
            }
            None
        }
    }

    /// The changes from edge `original` to edge `modified`, or `None` when
    /// nothing the options look at differs.
    pub fn compare_edge_changes<F: Fn(&PropertyValue, &PropertyValue) -> bool>(
        original: &Edge,
        modified: &Edge,
        options: &ComparisonOptions,
        same_value_test: &F,
    ) -> (r: Option<EdgeChanges>)
        requires
            total_test(*same_value_test),
        ensures
            match r {
                Some(c) => edge_changes_spec(c, *original, *modified, *options, *same_value_test),
                None => edge_unchanged(*original, *modified, *options, *same_value_test),
            },
    {
        let mut relationship_type_changed = false;
        let mut endpoints_changed = false;
        if options.include_structural_changes {
            if !original.relationship_type.eq(&modified.relationship_type) {
                relationship_type_changed = true;
            }
            if original.source != modified.source || original.target != modified.target {
                endpoints_changed = true;
            }
        }
        let mut added_properties: StrMap<PropertyValue> = StrMap::new();
        let mut removed_properties: StrMap<PropertyValue> = StrMap::new();
        let mut modified_properties: StrMap<PropertyValueChange> = StrMap::new();
        if options.include_property_changes {
            let (a, b, c) = diff_properties(&original.properties, &modified.properties, same_value_test);
            added_properties = a;
            removed_properties = b;
            modified_properties = c;
        }
        let has_changes = relationship_type_changed || endpoints_changed || added_properties.len() > 0
            || removed_properties.len() > 0 || modified_properties.len() > 0;
        if has_changes {
            Some(
                EdgeChanges {
                    added_properties,
                    removed_properties,
                    modified_properties,
                    relationship_type_changed,
                    endpoints_changed,
                },
            )
        } else {
            proof {
                if options.include_property_changes {
                    let om = original.properties.map();
                    let mm = modified.properties.map();
                    assert(om.dom() =~= mm.dom()) by {
                        assert forall|k: Seq<char>| om.contains_key(k) implies mm.contains_key(k) by {
                            assert(!removed_properties.map().contains_key(k));
                        }
                        assert forall|k: Seq<char>| mm.contains_key(k) implies om.contains_key(k) by {
                            assert(!added_properties.map().contains_key(k));
                        }
                    }
                    assert forall|k: Seq<char>| #[trigger] om.contains_key(k) implies reported(
                        *same_value_test,
                        om[k],
                        mm[k],
                        true,
                    ) by {
                        assert(!modified_properties.map().contains_key(k));
                    }
                }
            }
            None
        }
    }
}

} // verus!

verus! {

/// `a` holds the same id, labels and properties as `b`.
pub open spec fn same_node(a: Node, b: Node) -> bool {
    &&& a.id == b.id
    &&& a.label_seq() == b.label_seq()
    &&& same_properties(a.properties, b.properties)
}

/// `a` holds the same id, ends, type and properties as `b`.
pub open spec fn same_edge(a: Edge, b: Edge) -> bool {
    &&& a.id == b.id
    &&& a.source == b.source
    &&& a.target == b.target
    &&& a.relationship_type@ == b.relationship_type@
    &&& same_properties(a.properties, b.properties)
}

/// Two property maps with the same keys in the same order and the same values.
pub open spec fn same_properties(a: StrMap<PropertyValue>, b: StrMap<PropertyValue>) -> bool {
    &&& a.key_seq() == b.key_seq()
    &&& a.map().dom() == b.map().dom()
    &&& forall|k: Seq<char>| #[trigger] a.map().contains_key(k) ==> same_value(a.map()[k], b.map()[k])
}

/// Ids of the nodes of `after` absent from `before`, in the order of `after`.
pub open spec fn ids_only_in(order: Seq<u64>, other: Map<u64, Node>) -> Seq<u64> {
    order.filter(|k: u64| !other.contains_key(k))
}

/// Ids of the edges of `order` absent from `other`, in order.
pub open spec fn edge_ids_only_in(order: Seq<u64>, other: Map<u64, Edge>) -> Seq<u64> {
    order.filter(|k: u64| !other.contains_key(k))
}

/// `list` copies, in order, the nodes of `g` under `ids`.
pub open spec fn copies_nodes(list: Seq<Node>, ids: Seq<u64>, g: Map<u64, Node>) -> bool {
    &&& list.len() == ids.len()
    &&& forall|i: int| 0 <= i < ids.len() ==> same_node(#[trigger] list[i], g[ids[i]])
}

/// `list` copies, in order, the edges of `g` under `ids`.
pub open spec fn copies_edges(list: Seq<Edge>, ids: Seq<u64>, g: Map<u64, Edge>) -> bool {
    &&& list.len() == ids.len()
    &&& forall|i: int| 0 <= i < ids.len() ==> same_edge(#[trigger] list[i], g[ids[i]])
}

/// Ids of the listed node modifications.
pub open spec fn mod_node_ids(mods: Seq<NodeModification>) -> Seq<u64> {
    mods.map_values(|x: NodeModification| x.node_id.0)
}

/// Ids of the listed edge modifications.
pub open spec fn mod_edge_ids(mods: Seq<EdgeModification>) -> Seq<u64> {
    mods.map_values(|x: EdgeModification| x.edge_id.0)
}

/// `mods` lists, once each, exactly the nodes on both sides that changed.
pub open spec fn node_modifications<F: Fn(&PropertyValue, &PropertyValue) -> bool>(
    mods: Seq<NodeModification>,
    o: Map<u64, Node>,
    m: Map<u64, Node>,
    options: ComparisonOptions,
    f: F,
) -> bool {
    &&& mod_node_ids(mods).no_duplicates()
    &&& forall|i: int| 0 <= i < mods.len() ==> {
        let k = (#[trigger] mods[i]).node_id.0;
        &&& o.contains_key(k) && m.contains_key(k)
        &&& same_node(mods[i].original, o[k]) && same_node(mods[i].modified, m[k])
        &&& node_changes_spec(mods[i].changes, o[k], m[k], options, f)
    }
    &&& forall|k: u64| #[trigger] o.contains_key(k) && m.contains_key(k) && !mod_node_ids(mods).contains(k) ==> node_unchanged(o[k], m[k], options, f)
}

/// `mods` lists, once each, exactly the edges on both sides that changed.
pub open spec fn edge_modifications<F: Fn(&PropertyValue, &PropertyValue) -> bool>(
    mods: Seq<EdgeModification>,
    o: Map<u64, Edge>,
    m: Map<u64, Edge>,
    options: ComparisonOptions,
    f: F,
) -> bool {
    &&& mod_edge_ids(mods).no_duplicates()
    &&& forall|i: int| 0 <= i < mods.len() ==> {
        let k = (#[trigger] mods[i]).edge_id.0;
        &&& o.contains_key(k) && m.contains_key(k)
        &&& same_edge(mods[i].original, o[k]) && same_edge(mods[i].modified, m[k])
        &&& edge_changes_spec(mods[i].changes, o[k], m[k], options, f)
    }
    &&& forall|k: u64| #[trigger] o.contains_key(k) && m.contains_key(k) && !mod_edge_ids(mods).contains(k) ==> edge_unchanged(o[k], m[k], options, f)
}

proof fn lemma_filter_step<A>(s: Seq<A>, i: int, p: spec_fn(A) -> bool)
    requires
        0 <= i < s.len(),
    ensures
        s.take(i + 1).filter(p) == (if p(s[i]) {
            s.take(i).filter(p).push(s[i])
        } else {
            s.take(i).filter(p)
        }),
{
    reveal(Seq::filter);
    assert(s.take(i + 1).drop_last() =~= s.take(i));
    assert(s.take(i + 1).last() == s[i]);
}

proof fn lemma_take_step_contains<A>(s: Seq<A>, i: int, x: A)
    requires
        0 <= i < s.len(),
    ensures
        s.take(i + 1).contains(x) <==> (s.take(i).contains(x) || x == s[i]),
{
    let t0 = s.take(i);
    let t1 = s.take(i + 1);
    assert(t1[i] == s[i]);
    if t0.contains(x) {
        let q = choose|q: int| 0 <= q < t0.len() && t0[q] == x;
        assert(t1[q] == x);
    }
    if t1.contains(x) && x != s[i] {
        let q = choose|q: int| 0 <= q < t1.len() && t1[q] == x;
        assert(t0[q] == x);
    }
}

/// A copy of a property map with the same keys, order and values.
fn copy_properties(p: &StrMap<PropertyValue>) -> (r: StrMap<PropertyValue>)
    ensures
        same_properties(r, *p),
{
    let n = p.len();
    let mut out: StrMap<PropertyValue> = StrMap::new();
    let mut i: usize = 0;
    while i < n
        invariant
            n == p.key_seq().len(),
            i <= n,
            p.key_seq().no_duplicates(),
            forall|k: Seq<char>| #[trigger] p.map().contains_key(k) <==> p.key_seq().contains(k),
            out.key_seq() == p.key_seq().take(i as int),
            forall|k: Seq<char>| #[trigger] out.map().contains_key(k) <==> p.key_seq().take(i as int).contains(k),
            forall|k: Seq<char>| #[trigger] out.map().contains_key(k) ==> same_value(out.map()[k], p.map()[k]),
        decreases n - i,
    {
        let (key, v) = p.entry_at(i);
        proof {
            let ks = p.key_seq();
            assert(!ks.take(i as int).contains(key@)) by {
                if ks.take(i as int).contains(key@) {
                    let q = choose|q: int| 0 <= q < i && ks.take(i as int)[q] == key@;
                    assert(ks[q] == ks[i as int]);
                }
            }
            assert forall|k: Seq<char>| #[trigger] ks.take(i as int + 1).contains(k) <==> (ks.take(i as int).contains(k)
                || k == key@) by {
                lemma_take_step_contains(ks, i as int, k);
            }
            assert(ks.take(i as int + 1) =~= ks.take(i as int).push(key@));
        }
        out.insert(key.clone(), copy_value(v));
        i = i + 1;
    }
    proof {
        assert(p.key_seq().take(n as int) =~= p.key_seq());
        assert(out.map().dom() =~= p.map().dom());
    }
    out
}

/// A copy of a node.
fn copy_node(n: &Node) -> (r: Node)
    ensures
        same_node(r, *n),
{
    let labels = n.labels.clone();
    proof {
        assert(texts(labels@) =~= texts(n.labels@));
    }
    Node { id: n.id, labels, properties: copy_properties(&n.properties) }
}

/// A copy of an edge.
fn copy_edge(e: &Edge) -> (r: Edge)
    ensures
        same_edge(r, *e),
{
    Edge {
        id: e.id,
        source: e.source,
        target: e.target,
        relationship_type: e.relationship_type.clone(),
        properties: copy_properties(&e.properties),
    }
}

} // verus!

verus! {

/// Which nodes were added, removed and changed from `original` to `modified`.
fn compare_nodes<F: Fn(&PropertyValue, &PropertyValue) -> bool>(
    original: &Graph,
    modified: &Graph,
    options: &ComparisonOptions,
    same: &F,
) -> (r: (Vec<Node>, Vec<Node>, Vec<NodeModification>))
    requires
        total_test(*same),
    ensures
        copies_nodes(r.0@, ids_only_in(modified.node_order(), original.node_map()), modified.node_map()),
        copies_nodes(r.1@, ids_only_in(original.node_order(), modified.node_map()), original.node_map()),
        node_modifications(r.2@, original.node_map(), modified.node_map(), *options, *same),
{
    let ghost om = original.node_map();
    let ghost mm = modified.node_map();
    let ghost p_added = |k: u64| !om.contains_key(k);
    let ghost p_removed = |k: u64| !mm.contains_key(k);
    let mut added: Vec<Node> = Vec::new();
    let mut removed: Vec<Node> = Vec::new();
    let mut mods: Vec<NodeModification> = Vec::new();
    let mlist = match modified.get_all_nodes() {
        Ok(v) => v,
        Err(_) => {
            proof {
                assert(false);
            }
            Vec::new()
        },
    };
    let ghost mo = modified.node_order();
    let n = mlist.len();
    proof {
        assert(mlist@.map_values(|x: &Node| *x).len() == mlist@.len());
        assert(modified.node_list().len() == mo.len());
    }
    let mut i: usize = 0;
    while i < n
        invariant
            total_test(*same),
            om == original.node_map(),
            mm == modified.node_map(),
            mo == modified.node_order(),
            p_added == (|k: u64| !om.contains_key(k)),
            mlist@.map_values(|x: &Node| *x) == modified.node_list(),
            n == mlist@.len(),
            n == mo.len(),
            forall|j: int| 0 <= j < mo.len() ==> #[trigger] modified.node_list()[j].id.0 == mo[j],
            mo.no_duplicates(),
            forall|k: u64| #[trigger] mm.contains_key(k) <==> mo.contains(k),
            i <= n,
            copies_nodes(added@, mo.take(i as int).filter(p_added), mm),
            mod_node_ids(mods@).no_duplicates(),
            forall|k: u64| #[trigger]
                mod_node_ids(mods@).contains(k) ==> mo.take(i as int).contains(k),
            forall|j: int| 0 <= j < mods@.len() ==> {
                let k = (#[trigger] mods@[j]).node_id.0;
                &&& om.contains_key(k) && mm.contains_key(k)
                &&& same_node(mods@[j].original, om[k]) && same_node(mods@[j].modified, mm[k])
                &&& node_changes_spec(mods@[j].changes, om[k], mm[k], *options, *same)
            },
            forall|k: u64| #[trigger] mo.take(i as int).contains(k) && om.contains_key(k) && !mod_node_ids(mods@).contains(k) ==> node_unchanged(om[k], mm[k], *options, *same),
        decreases n - i,
    {
        let node = mlist[i];
        let ghost k = mo[i as int];
        proof {
            assert(mlist@.map_values(|x: &Node| *x)[i as int] == *node);
            assert(modified.node_list()[i as int] == mm[k]);
            assert(node.id.0 == k);
            lemma_filter_step(mo, i as int, p_added);
            assert(!mo.take(i as int).contains(k)) by {
                if mo.take(i as int).contains(k) {
                    let q = choose|q: int| 0 <= q < i && mo.take(i as int)[q] == k;
                    assert(mo[q] == mo[i as int]);
                }
            }
            assert forall|x: u64| #[trigger] mo.take(i as int + 1).contains(x) <==> (mo.take(i as int).contains(x)
                || x == k) by {
                lemma_take_step_contains(mo, i as int, x);
            }
        }
        let ghost ids_before = mod_node_ids(mods@);
        let ghost mods_before = mods@;
        match original.get_node(node.id) {
            Ok(Some(onode)) => {
                match GraphComparator::compare_node_changes(onode, node, options, same) {
                    Some(changes) => {
                        let entry = NodeModification {
                            node_id: node.id,
                            original: copy_node(onode),
                            modified: copy_node(node),
                            changes,
                        };
                        mods.push(entry);
                        proof {
                            let ids = mod_node_ids(mods@);
                            assert(ids =~= ids_before.push(k));
                            assert forall|a: int, b: int| 0 <= a < b < ids.len() implies ids[a] != ids[b] by {
                                if b == ids_before.len() {
                                    assert(ids_before.contains(ids_before[a]));
                                }
                            }
                            assert forall|x: u64| #[trigger] ids.contains(x) <==> (ids_before.contains(x) || x == k) by {
                                if ids_before.contains(x) {
                                    let q = choose|q: int| 0 <= q < ids_before.len() && ids_before[q] == x;
                                    assert(ids[q] == x);
                                }
                                if ids.contains(x) && x != k {
                                    let q = choose|q: int| 0 <= q < ids.len() && ids[q] == x;
                                    assert(ids_before[q] == x);
                                }
                                assert(ids[ids_before.len() as int] == k);
                            }
                            assert forall|j: int| 0 <= j < mods@.len() implies {
                                let kk = (#[trigger] mods@[j]).node_id.0;
                                &&& om.contains_key(kk) && mm.contains_key(kk)
                                &&& same_node(mods@[j].original, om[kk]) && same_node(mods@[j].modified, mm[kk])
                                &&& node_changes_spec(mods@[j].changes, om[kk], mm[kk], *options, *same)
                            } by {
                                if j < mods_before.len() {
                                    assert(mods@[j] == mods_before[j]);
                                }
                            }
                        }
                    },
                    None => {
                        proof {
                            assert forall|x: u64| #[trigger] mod_node_ids(mods@).contains(x)
                                implies mo.take(i as int + 1).contains(x) by {
                                assert(mod_node_ids(mods@) == ids_before);
                            }
                        }
                    },
                }
            },
            _ => {
                let ghost added_before = added@;
                added.push(copy_node(node));
                proof {
                    assert(mo.take(i as int + 1).filter(p_added) == mo.take(i as int).filter(p_added).push(k));
                    let f1 = mo.take(i as int + 1).filter(p_added);
                    assert forall|j: int| 0 <= j < f1.len() implies same_node(#[trigger] added@[j], mm[f1[j]]) by {
                        if j < added_before.len() {
                            assert(added@[j] == added_before[j]);
                        }
                    }
                }
            },
        }
        i = i + 1;
    }
    proof {
        assert(mo.take(n as int) =~= mo);
    }
    let olist = match original.get_all_nodes() {
        Ok(v) => v,
        Err(_) => {
            proof {
                assert(false);
            }
            Vec::new()
        },
    };
    let ghost oo = original.node_order();
    let n2 = olist.len();
    proof {
        assert(olist@.map_values(|x: &Node| *x).len() == olist@.len());
        assert(original.node_list().len() == oo.len());
    }
    let mut j: usize = 0;
    while j < n2
        invariant
            om == original.node_map(),
            mm == modified.node_map(),
            oo == original.node_order(),
            p_removed == (|k: u64| !mm.contains_key(k)),
            olist@.map_values(|x: &Node| *x) == original.node_list(),
            n2 == olist@.len(),
            n2 == oo.len(),
            forall|q: int| 0 <= q < oo.len() ==> #[trigger] original.node_list()[q].id.0 == oo[q],
            j <= n2,
            copies_nodes(removed@, oo.take(j as int).filter(p_removed), om),
        decreases n2 - j,
    {
        let node = olist[j];
        let ghost k = oo[j as int];
        proof {
            assert(olist@.map_values(|x: &Node| *x)[j as int] == *node);
            assert(original.node_list()[j as int] == om[k]);
            lemma_filter_step(oo, j as int, p_removed);
        }
        match modified.get_node(node.id) {
            Ok(Some(_m)) => {},
            _ => {
                let ghost before = removed@;
                removed.push(copy_node(node));
                proof {
                    let f1 = oo.take(j as int + 1).filter(p_removed);
                    assert forall|q: int| 0 <= q < f1.len() implies same_node(#[trigger] removed@[q], om[f1[q]]) by {
                        if q < before.len() {
                            assert(removed@[q] == before[q]);
                        }
                    }
                }
            },
        }
        j = j + 1;
    }
    proof {
        assert(oo.take(n2 as int) =~= oo);
    }
    (added, removed, mods)
}

} // verus!

verus! {

/// Which edges were added, removed and changed from `original` to `modified`.
fn compare_edges<F: Fn(&PropertyValue, &PropertyValue) -> bool>(
    original: &Graph,
    modified: &Graph,
    options: &ComparisonOptions,
    same: &F,
) -> (r: (Vec<Edge>, Vec<Edge>, Vec<EdgeModification>))
    requires
        total_test(*same),
    ensures
        copies_edges(r.0@, edge_ids_only_in(modified.edge_order(), original.edge_map()), modified.edge_map()),
        copies_edges(r.1@, edge_ids_only_in(original.edge_order(), modified.edge_map()), original.edge_map()),
        edge_modifications(r.2@, original.edge_map(), modified.edge_map(), *options, *same),
{
    let ghost om = original.edge_map();
    let ghost mm = modified.edge_map();
    let ghost p_added = |k: u64| !om.contains_key(k);
    let ghost p_removed = |k: u64| !mm.contains_key(k);
    let mut added: Vec<Edge> = Vec::new();
    let mut removed: Vec<Edge> = Vec::new();
    let mut mods: Vec<EdgeModification> = Vec::new();
    let mlist = match modified.get_all_edges() {
        Ok(v) => v,
        Err(_) => {
            proof {
                assert(false);
            }
            Vec::new()
        },
    };
    let ghost mo = modified.edge_order();
    let n = mlist.len();
    proof {
        assert(mlist@.map_values(|x: &Edge| *x).len() == mlist@.len());
        assert(modified.edge_list().len() == mo.len());
    }
    let mut i: usize = 0;
    while i < n
        invariant
            total_test(*same),
            om == original.edge_map(),
            mm == modified.edge_map(),
            mo == modified.edge_order(),
            p_added == (|k: u64| !om.contains_key(k)),
            mlist@.map_values(|x: &Edge| *x) == modified.edge_list(),
            n == mlist@.len(),
            n == mo.len(),
            forall|j: int| 0 <= j < mo.len() ==> #[trigger] modified.edge_list()[j].id.0 == mo[j],
            mo.no_duplicates(),
            forall|k: u64| #[trigger] mm.contains_key(k) <==> mo.contains(k),
            i <= n,
            copies_edges(added@, mo.take(i as int).filter(p_added), mm),
            mod_edge_ids(mods@).no_duplicates(),
            forall|k: u64| #[trigger]
                mod_edge_ids(mods@).contains(k) ==> mo.take(i as int).contains(k),
            forall|j: int| 0 <= j < mods@.len() ==> {
                let k = (#[trigger] mods@[j]).edge_id.0;
                &&& om.contains_key(k) && mm.contains_key(k)
                &&& same_edge(mods@[j].original, om[k]) && same_edge(mods@[j].modified, mm[k])
                &&& edge_changes_spec(mods@[j].changes, om[k], mm[k], *options, *same)
            },
            forall|k: u64| #[trigger] mo.take(i as int).contains(k) && om.contains_key(k) && !mod_edge_ids(mods@).contains(k) ==> edge_unchanged(om[k], mm[k], *options, *same),
        decreases n - i,
    {
        let node = mlist[i];
        let ghost k = mo[i as int];
        proof {
            assert(mlist@.map_values(|x: &Edge| *x)[i as int] == *node);
            assert(modified.edge_list()[i as int] == mm[k]);
            assert(node.id.0 == k);
            lemma_filter_step(mo, i as int, p_added);
            assert(!mo.take(i as int).contains(k)) by {
                if mo.take(i as int).contains(k) {
                    let q = choose|q: int| 0 <= q < i && mo.take(i as int)[q] == k;
                    assert(mo[q] == mo[i as int]);
                }
            }
            assert forall|x: u64| #[trigger] mo.take(i as int + 1).contains(x) <==> (mo.take(i as int).contains(x)
                || x == k) by {
                lemma_take_step_contains(mo, i as int, x);
            }
        }
        let ghost ids_before = mod_edge_ids(mods@);
        let ghost mods_before = mods@;
        match original.get_edge(node.id) {
            Ok(Some(onode)) => {
                match GraphComparator::compare_edge_changes(onode, node, options, same) {
                    Some(changes) => {
                        let entry = EdgeModification {
                            edge_id: node.id,
                            original: copy_edge(onode),
                            modified: copy_edge(node),
                            changes,
                        };
                        mods.push(entry);
                        proof {
                            let ids = mod_edge_ids(mods@);
                            assert(ids =~= ids_before.push(k));
                            assert forall|a: int, b: int| 0 <= a < b < ids.len() implies ids[a] != ids[b] by {
                                if b == ids_before.len() {
                                    assert(ids_before.contains(ids_before[a]));
                                }
                            }
                            assert forall|x: u64| #[trigger] ids.contains(x) <==> (ids_before.contains(x) || x == k) by {
                                if ids_before.contains(x) {
                                    let q = choose|q: int| 0 <= q < ids_before.len() && ids_before[q] == x;
                                    assert(ids[q] == x);
                                }
                                if ids.contains(x) && x != k {
                                    let q = choose|q: int| 0 <= q < ids.len() && ids[q] == x;
                                    assert(ids_before[q] == x);
                                }
                                assert(ids[ids_before.len() as int] == k);
                            }
                            assert forall|j: int| 0 <= j < mods@.len() implies {
                                let kk = (#[trigger] mods@[j]).edge_id.0;
                                &&& om.contains_key(kk) && mm.contains_key(kk)
                                &&& same_edge(mods@[j].original, om[kk]) && same_edge(mods@[j].modified, mm[kk])
                                &&& edge_changes_spec(mods@[j].changes, om[kk], mm[kk], *options, *same)
                            } by {
                                if j < mods_before.len() {
                                    assert(mods@[j] == mods_before[j]);
                                }
                            }
                        }
                    },
                    None => {
                        proof {
                            assert forall|x: u64| #[trigger] mod_edge_ids(mods@).contains(x)
                                implies mo.take(i as int + 1).contains(x) by {
                                assert(mod_edge_ids(mods@) == ids_before);
                            }
                        }
                    },
                }
            },
            _ => {
                let ghost added_before = added@;
                added.push(copy_edge(node));
                proof {
                    assert(mo.take(i as int + 1).filter(p_added) == mo.take(i as int).filter(p_added).push(k));
                    let f1 = mo.take(i as int + 1).filter(p_added);
                    assert forall|j: int| 0 <= j < f1.len() implies same_edge(#[trigger] added@[j], mm[f1[j]]) by {
                        if j < added_before.len() {
                            assert(added@[j] == added_before[j]);
                        }
                    }
                }
            },
        }
        i = i + 1;
    }
    proof {
        assert(mo.take(n as int) =~= mo);
    }
    let olist = match original.get_all_edges() {
        Ok(v) => v,
        Err(_) => {
            proof {
                assert(false);
            }
            Vec::new()
        },
    };
    let ghost oo = original.edge_order();
    let n2 = olist.len();
    proof {
        assert(olist@.map_values(|x: &Edge| *x).len() == olist@.len());
        assert(original.edge_list().len() == oo.len());
    }
    let mut j: usize = 0;
    while j < n2
        invariant
            om == original.edge_map(),
            mm == modified.edge_map(),
            oo == original.edge_order(),
            p_removed == (|k: u64| !mm.contains_key(k)),
            olist@.map_values(|x: &Edge| *x) == original.edge_list(),
            n2 == olist@.len(),
            n2 == oo.len(),
            forall|q: int| 0 <= q < oo.len() ==> #[trigger] original.edge_list()[q].id.0 == oo[q],
            j <= n2,
            copies_edges(removed@, oo.take(j as int).filter(p_removed), om),
        decreases n2 - j,
    {
        let node = olist[j];
        let ghost k = oo[j as int];
        proof {
            assert(olist@.map_values(|x: &Edge| *x)[j as int] == *node);
            assert(original.edge_list()[j as int] == om[k]);
            lemma_filter_step(oo, j as int, p_removed);
        }
        match modified.get_edge(node.id) {
            Ok(Some(_m)) => {},
            _ => {
                let ghost before = removed@;
                removed.push(copy_edge(node));
                proof {
                    let f1 = oo.take(j as int + 1).filter(p_removed);
                    assert forall|q: int| 0 <= q < f1.len() implies same_edge(#[trigger] removed@[q], om[f1[q]]) by {
                        if q < before.len() {
                            assert(removed@[q] == before[q]);
                        }
                    }
                }
            },
        }
        j = j + 1;
    }
    proof {
        assert(oo.take(n2 as int) =~= oo);
    }
    (added, removed, mods)
}

} // verus!

verus! {

/// `d` is the diff from `o` to `m`: the added, removed and changed nodes and
/// edges, with counts that match.
pub open spec fn diff_spec<F: Fn(&PropertyValue, &PropertyValue) -> bool>(
    d: GraphDiff,
    o: Graph,
    m: Graph,
    options: ComparisonOptions,
    f: F,
) -> bool {
    &&& copies_nodes(d.added_nodes@, ids_only_in(m.node_order(), o.node_map()), m.node_map())
    &&& copies_nodes(d.removed_nodes@, ids_only_in(o.node_order(), m.node_map()), o.node_map())
    &&& node_modifications(d.modified_nodes@, o.node_map(), m.node_map(), options, f)
    &&& copies_edges(d.added_edges@, edge_ids_only_in(m.edge_order(), o.edge_map()), m.edge_map())
    &&& copies_edges(d.removed_edges@, edge_ids_only_in(o.edge_order(), m.edge_map()), o.edge_map())
    &&& edge_modifications(d.modified_edges@, o.edge_map(), m.edge_map(), options, f)
    &&& d.summary.nodes_count_original == o.node_map().dom().len()
    &&& d.summary.nodes_count_modified == m.node_map().dom().len()
    &&& d.summary.edges_count_original == o.edge_map().dom().len()
    &&& d.summary.edges_count_modified == m.edge_map().dom().len()
    &&& d.summary.nodes_added == d.added_nodes@.len()
    &&& d.summary.nodes_removed == d.removed_nodes@.len()
    &&& d.summary.nodes_modified == d.modified_nodes@.len()
    &&& d.summary.edges_added == d.added_edges@.len()
    &&& d.summary.edges_removed == d.removed_edges@.len()
    &&& d.summary.edges_modified == d.modified_edges@.len()
}

impl GraphComparator {
    /// The diff from `original` to `modified`, with property values compared
    /// by `values_equal` (two floats by `same_value_test`).
    pub fn compare_graphs<F: Fn(&PropertyValue, &PropertyValue) -> bool>(
        original: &Graph,
        modified: &Graph,
        options: &ComparisonOptions,
        same_value_test: &F,
    ) -> (r: Result<GraphDiff, String>)
        requires
            total_test(*same_value_test),
        ensures
            match r {
                Ok(d) => diff_spec(d, *original, *modified, *options, *same_value_test),
                Err(_) => false,
            },
    {
        let nodes_count_original = match original.node_count() {
            Ok(c) => c,
            Err(_) => 0,
        };
        let nodes_count_modified = match modified.node_count() {
            Ok(c) => c,
            Err(_) => 0,
        };
        let edges_count_original = match original.edge_count() {
            Ok(c) => c,
            Err(_) => 0,
        };
        let edges_count_modified = match modified.edge_count() {
            Ok(c) => c,
            Err(_) => 0,
        };
        let (added_nodes, removed_nodes, modified_nodes) = compare_nodes(original, modified, options, same_value_test);
        let (added_edges, removed_edges, modified_edges) = compare_edges(original, modified, options, same_value_test);
        let summary = DiffSummary {
            nodes_count_original,
            nodes_count_modified,
            edges_count_original,
            edges_count_modified,
            nodes_added: added_nodes.len(),
            nodes_removed: removed_nodes.len(),
            nodes_modified: modified_nodes.len(),
            edges_added: added_edges.len(),
            edges_removed: removed_edges.len(),
            edges_modified: modified_edges.len(),
        };
        Ok(
            GraphDiff {
                added_nodes,
                removed_nodes,
                modified_nodes,
                added_edges,
                removed_edges,
                modified_edges,
                summary,
            },
        )
    }
}

} // verus!
