//! The mathematical model of the tree: keyed entries, the grouping of
//! repeated keys, and the laws that grouping obeys.
use vstd::prelude::*;

verus! {

/// A node of the tree as a mathematical value: one occurrence of a key, or
/// the values of several occurrences in the order they were written.
pub enum NodeModel<A> {
    Unique(A),
    Many(Seq<A>),
}

impl<A> NodeModel<A> {
    /// The values of the node, in text order.
    pub open spec fn items(self) -> Seq<A> {
        match self {
            NodeModel::Unique(a) => seq![a],
            NodeModel::Many(v) => v,
        }
    }

    /// A `Many` node always holds at least two values.
    pub open spec fn wf(self) -> bool {
        match self {
            NodeModel::Unique(_) => true,
            NodeModel::Many(v) => v.len() >= 2,
        }
    }
}

/// The node that stands for the values written under one key.
pub open spec fn node_of<A>(vs: Seq<A>) -> NodeModel<A> {
    if vs.len() == 1 {
        NodeModel::Unique(vs[0])
    } else {
        NodeModel::Many(vs)
    }
}

/// The position of the first entry whose key is `k`.
pub open spec fn key_index<A>(s: Seq<(Seq<u8>, A)>, k: Seq<u8>) -> Option<int>
    decreases s.len(),
{
    if s.len() == 0 {
        None
    } else if s[0].0 == k {
        Some(0)
    } else {
        match key_index(s.drop_first(), k) {
            Some(i) => Some(i + 1),
            None => None,
        }
    }
}

/// Adds one value under key `k`: appended to the group of `k` if there is
/// one, else a new group at the end.
pub open spec fn add_to_group<A>(g: Seq<(Seq<u8>, Seq<A>)>, k: Seq<u8>, v: A) -> Seq<
    (Seq<u8>, Seq<A>),
> {
    match key_index(g, k) {
        Some(i) => g.update(i, (k, g[i].1.push(v))),
        None => g.push((k, seq![v])),
    }
}

/// Groups keyed values by key: one group per key, in the order of each
/// key's first occurrence, holding that key's values in text order.
pub open spec fn group<A>(items: Seq<(Seq<u8>, A)>) -> Seq<(Seq<u8>, Seq<A>)>
    decreases items.len(),
{
    if items.len() == 0 {
        seq![]
    } else {
        add_to_group(group(items.drop_last()), items.last().0, items.last().1)
    }
}

/// Each group as a node.
pub open spec fn nodes_of<A>(g: Seq<(Seq<u8>, Seq<A>)>) -> Seq<(Seq<u8>, NodeModel<A>)> {
    g.map_values(|e: (Seq<u8>, Seq<A>)| (e.0, node_of(e.1)))
}

/// The keyed nodes that a sequence of keyed values builds.
pub open spec fn build_nodes<A>(items: Seq<(Seq<u8>, A)>) -> Seq<(Seq<u8>, NodeModel<A>)> {
    nodes_of(group(items))
}

/// The values written under key `k`, in text order.
pub open spec fn values_for<A>(items: Seq<(Seq<u8>, A)>, k: Seq<u8>) -> Seq<A>
    decreases items.len(),
{
    if items.len() == 0 {
        seq![]
    } else if items.last().0 == k {
        values_for(items.drop_last(), k).push(items.last().1)
    } else {
        values_for(items.drop_last(), k)
    }
}

/// Adds one value to the node stored under `k`, following the rule that a
/// first occurrence makes a `Unique` node and a later one turns it into
/// (or extends) a `Many` node.
pub open spec fn insert_node<A>(m: Seq<(Seq<u8>, NodeModel<A>)>, k: Seq<u8>, v: A) -> Seq<
    (Seq<u8>, NodeModel<A>),
> {
    match key_index(m, k) {
        Some(i) => m.update(i, (k, push_node(m[i].1, v))),
        None => m.push((k, NodeModel::Unique(v))),
    }
}

pub open spec fn push_node<A>(n: NodeModel<A>, v: A) -> NodeModel<A> {
    match n {
        NodeModel::Unique(a) => NodeModel::Many(seq![a, v]),
        NodeModel::Many(vs) => NodeModel::Many(vs.push(v)),
    }
}

/// Every key occurs once.
pub open spec fn keys_unique<A>(s: Seq<(Seq<u8>, A)>) -> bool {
    forall|i: int, j: int| 0 <= i < j < s.len() ==> s[i].0 != s[j].0
}

/// Every node is well formed.
pub open spec fn nodes_wf<A>(m: Seq<(Seq<u8>, NodeModel<A>)>) -> bool {
    forall|i: int| 0 <= i < m.len() ==> (#[trigger] m[i]).1.wf()
}

/// Every group holds at least one value.
pub open spec fn groups_nonempty<A>(g: Seq<(Seq<u8>, Seq<A>)>) -> bool {
    forall|i: int| 0 <= i < g.len() ==> (#[trigger] g[i]).1.len() >= 1
}

pub proof fn lemma_key_index<A>(s: Seq<(Seq<u8>, A)>, k: Seq<u8>)
    ensures
        match key_index(s, k) {
            Some(i) => 0 <= i < s.len() && s[i].0 == k && forall|j: int|
                0 <= j < i ==> (#[trigger] s[j]).0 != k,
            None => forall|j: int| 0 <= j < s.len() ==> (#[trigger] s[j]).0 != k,
        },
    decreases s.len(),
{
    if s.len() > 0 && s[0].0 != k {
        lemma_key_index(s.drop_first(), k);
        match key_index(s.drop_first(), k) {
            Some(i) => {
                assert forall|j: int| 0 <= j < i + 1 implies (#[trigger] s[j]).0 != k by {
                    if j > 0 {
                        assert(s[j] == s.drop_first()[j - 1]);
                    }
                }
            },
            None => {
                assert forall|j: int| 0 <= j < s.len() implies (#[trigger] s[j]).0 != k by {
                    if j > 0 {
                        assert(s[j] == s.drop_first()[j - 1]);
                    }
                }
            },
        }
    }
}

/// In a sequence with unique keys, the entry found for `k` is the only one.
pub proof fn lemma_key_index_unique<A>(s: Seq<(Seq<u8>, A)>, k: Seq<u8>, i: int)
    requires
        keys_unique(s),
        0 <= i < s.len(),
        s[i].0 == k,
    ensures
        key_index(s, k) == Some(i),
{
    lemma_key_index(s, k);
}

/// Grouping keeps keys unique and never leaves a group empty.
pub proof fn lemma_group_wf<A>(items: Seq<(Seq<u8>, A)>)
    ensures
        keys_unique(group(items)),
        groups_nonempty(group(items)),
    decreases items.len(),
{
    if items.len() > 0 {
        let g0 = group(items.drop_last());
        let k = items.last().0;
        lemma_group_wf(items.drop_last());
        lemma_key_index(g0, k);
    }
}

/// Inserting into the nodes of a grouping is grouping one more value.
pub proof fn lemma_build_nodes_push<A>(items: Seq<(Seq<u8>, A)>, k: Seq<u8>, v: A)
    ensures
        build_nodes(items.push((k, v))) == insert_node(build_nodes(items), k, v),
{
    let g = group(items);
    let m = build_nodes(items);
    assert(items.push((k, v)).drop_last() == items);
    lemma_group_wf(items);
    lemma_key_index(g, k);
    lemma_key_index(m, k);
    assert(key_index(m, k) == key_index(g, k)) by {
        match key_index(g, k) {
            Some(i) => {
                lemma_key_index(m, k);
                match key_index(m, k) {
                    Some(j) => {
                        assert(m[j].0 == g[j].0);
                        assert(m[i].0 == g[i].0);
                    },
                    None => {
                        assert(m[i].0 == g[i].0);
                    },
                }
            },
            None => {
                match key_index(m, k) {
                    Some(j) => {
                        assert(m[j].0 == g[j].0);
                    },
                    None => {},
                }
            },
        }
    }
    let lhs = build_nodes(items.push((k, v)));
    let rhs = insert_node(m, k, v);
    match key_index(g, k) {
        Some(i) => {
            assert(g[i].1.len() >= 1);
            if g[i].1.len() == 1 {
                assert(g[i].1.push(v) =~= seq![g[i].1[0], v]);
            }
            assert(lhs =~= rhs);
        },
        None => {
            assert(lhs =~= rhs);
        },
    }
}

/// The position found for a key depends on the keys alone.
pub proof fn lemma_key_index_same_keys<A, B>(s1: Seq<(Seq<u8>, A)>, s2: Seq<(Seq<u8>, B)>, k: Seq<u8>)
    requires
        s1.len() == s2.len(),
        forall|i: int| 0 <= i < s1.len() ==> (#[trigger] s1[i]).0 == s2[i].0,
    ensures
        key_index(s1, k) == key_index(s2, k),
{
    lemma_key_index(s1, k);
    lemma_key_index(s2, k);
    match key_index(s1, k) {
        Some(i) => {
            assert(s2[i].0 == k);
            match key_index(s2, k) {
                Some(j) => {
                    assert(s1[j].0 == k);
                },
                None => {},
            }
        },
        None => {
            match key_index(s2, k) {
                Some(j) => {
                    assert(s1[j].0 == k);
                },
                None => {},
            }
        },
    }
}

/// Appending an entry leaves the first position of every present key as it
/// was, and gives an absent key the new last position.
pub proof fn lemma_key_index_push<A>(s: Seq<(Seq<u8>, A)>, e: (Seq<u8>, A), k: Seq<u8>)
    ensures
        key_index(s.push(e), k) == (match key_index(s, k) {
            Some(i) => Some(i),
            None => if e.0 == k {
                Some(s.len() as int)
            } else {
                None
            },
        }),
{
    let t = s.push(e);
    lemma_key_index(s, k);
    lemma_key_index(t, k);
    match key_index(s, k) {
        Some(i) => {
            assert(t[i] == s[i]);
            match key_index(t, k) {
                Some(j) => {
                    if j < i {
                        assert(t[j] == s[j]);
                    }
                },
                None => {},
            }
        },
        None => {
            assert(t[s.len() as int] == e);
            match key_index(t, k) {
                Some(j) => {
                    if j < s.len() {
                        assert(t[j] == s[j]);
                    }
                },
                None => {},
            }
        },
    }
}

/// Round trip of a key: the group of `k` holds exactly the values written
/// under `k`, in the order they were written, and there is a group for `k`
/// exactly when `k` was written at least once.
pub proof fn lemma_group_values<A>(items: Seq<(Seq<u8>, A)>, k: Seq<u8>)
    ensures
        match key_index(group(items), k) {
            Some(i) => group(items)[i].1 == values_for(items, k) && values_for(items, k).len()
                >= 1,
            None => values_for(items, k).len() == 0,
        },
    decreases items.len(),
{
    if items.len() > 0 {
        let prefix = items.drop_last();
        let g0 = group(prefix);
        let g = group(items);
        let (k2, v) = items.last();
        lemma_group_values(prefix, k);
        lemma_key_index(g0, k);
        lemma_key_index(g0, k2);
        assert(items == prefix.push((k2, v)));
        match key_index(g0, k2) {
            Some(i) => {
                assert forall|j: int| 0 <= j < g.len() implies (#[trigger] g[j]).0 == g0[j].0 by {}
                lemma_key_index_same_keys(g, g0, k);
                lemma_key_index(g, k);
            },
            None => {
                lemma_key_index_push(g0, (k2, seq![v]), k);
                lemma_key_index(g, k);
            },
        }
    }
}

/// The nodes built from keyed values are well formed: a key written once
/// gives a `Unique` node, a key written N >= 2 times a `Many` node of N
/// values, so no `Many` node holds fewer than two.
pub proof fn lemma_build_nodes_wf<A>(items: Seq<(Seq<u8>, A)>)
    ensures
        nodes_wf(build_nodes(items)),
        keys_unique(build_nodes(items)),
        forall|i: int|
            0 <= i < build_nodes(items).len() ==> ((#[trigger] build_nodes(items)[i]).1 is Unique
                <==> values_for(items, build_nodes(items)[i].0).len() == 1),
{
    let g = group(items);
    let m = build_nodes(items);
    lemma_group_wf(items);
    assert forall|i: int| 0 <= i < m.len() implies (#[trigger] m[i]).1.wf() by {
        assert(g[i].1.len() >= 1);
    }
    assert forall|i: int| 0 <= i < m.len() implies ((#[trigger] m[i]).1 is Unique
        <==> values_for(items, m[i].0).len() == 1) by {
        lemma_key_index_unique(g, g[i].0, i);
        lemma_group_values(items, g[i].0);
    }
}

/// Order of groups: the groups stand in the order in which their keys first
/// occur, and every key that occurs has a group.
pub proof fn lemma_group_order<A>(items: Seq<(Seq<u8>, A)>)
    ensures
        forall|i: int|
            0 <= i < group(items).len() ==> key_index(items, (#[trigger] group(items)[i]).0)
                is Some,
        forall|i: int, j: int|
            0 <= i < j < group(items).len() ==> key_index(items, (#[trigger] group(items)[i]).0)->0
                < key_index(items, (#[trigger] group(items)[j]).0)->0,
        forall|n: int|
            0 <= n < items.len() ==> key_index(group(items), (#[trigger] items[n]).0) is Some,
    decreases items.len(),
{
    if items.len() > 0 {
        let prefix = items.drop_last();
        let g0 = group(prefix);
        let g = group(items);
        let (k, v) = items.last();
        lemma_group_order(prefix);
        assert(items == prefix.push((k, v)));
        assert forall|i: int| 0 <= i < g0.len() implies key_index(items, (#[trigger] g0[i]).0)
            == key_index(prefix, g0[i].0) by {
            lemma_key_index_push(prefix, (k, v), g0[i].0);
        }
        lemma_key_index(g0, k);
        match key_index(g0, k) {
            Some(i) => {
                assert forall|j: int| 0 <= j < g.len() implies (#[trigger] g[j]).0 == g0[j].0 by {}
                assert forall|n: int| 0 <= n < items.len() implies key_index(
                    g,
                    (#[trigger] items[n]).0,
                ) is Some by {
                    lemma_key_index_same_keys(g, g0, items[n].0);
                    if n < prefix.len() {
                        assert(items[n] == prefix[n]);
                    }
                }
            },
            None => {
                lemma_key_index_push(prefix, (k, v), k);
                lemma_group_values(prefix, k);
                lemma_key_index(prefix, k);
                assert forall|n: int| 0 <= n < prefix.len() implies (#[trigger] prefix[n]).0
                    != k by {
                    assert(key_index(g0, prefix[n].0) is Some);
                }
                assert(key_index(prefix, k) is None);
                assert forall|i: int| 0 <= i < g0.len() implies key_index(
                    items,
                    (#[trigger] g0[i]).0,
                )->0 < prefix.len() by {
                    lemma_key_index(prefix, g0[i].0);
                }
                assert forall|n: int| 0 <= n < items.len() implies key_index(
                    g,
                    (#[trigger] items[n]).0,
                ) is Some by {
                    lemma_key_index_push(g0, (k, seq![v]), items[n].0);
                    if n < prefix.len() {
                        assert(items[n] == prefix[n]);
                    }
                }
            },
        }
    }
}

/// Round trip of a field: when `k` was written N >= 1 times, the fragment
/// stores one node under `k` whose values are exactly the N values written,
/// in text order, so its first value is the first one written, whatever N is.
pub proof fn lemma_field_round_trip<A>(items: Seq<(Seq<u8>, A)>, k: Seq<u8>)
    requires
        values_for(items, k).len() >= 1,
    ensures
        key_index(build_nodes(items), k) matches Some(i) && build_nodes(items)[i].1.items()
            == values_for(items, k) && build_nodes(items)[i].1.items()[0] == values_for(
            items,
            k,
        )[0],
{
    let g = group(items);
    let m = build_nodes(items);
    lemma_group_values(items, k);
    assert forall|j: int| 0 <= j < m.len() implies (#[trigger] m[j]).0 == g[j].0 by {}
    lemma_key_index_same_keys(m, g, k);
    let i = key_index(g, k)->0;
    lemma_key_index(g, k);
    if g[i].1.len() == 1 {
        assert(m[i].1.items() =~= g[i].1);
    }
}

/// The nodes built from keyed values, exactly: a key written c >= 1 times
/// with values w1..wc in text order has the entry `Unique(w1)` when c is 1
/// and `Many([w1, .., wc])` otherwise; a key never written has no entry;
/// the entries stand in the order of each key's first occurrence; and no
/// `Many` node holds fewer than two values.
pub proof fn lemma_build_nodes_exact<A>(items: Seq<(Seq<u8>, A)>)
    ensures
        forall|k: Seq<u8>|
            #![trigger key_index(build_nodes(items), k)]
            match key_index(build_nodes(items), k) {
                Some(i) => build_nodes(items)[i].1 == node_of(values_for(items, k)) && values_for(
                    items,
                    k,
                ).len() >= 1,
                None => values_for(items, k).len() == 0,
            },
        forall|i: int, j: int|
            0 <= i < j < build_nodes(items).len() ==> key_index(
                items,
                (#[trigger] build_nodes(items)[i]).0,
            )->0 < key_index(items, (#[trigger] build_nodes(items)[j]).0)->0,
        keys_unique(build_nodes(items)),
        nodes_wf(build_nodes(items)),
{
    let g = group(items);
    let m = build_nodes(items);
    assert forall|j: int| 0 <= j < m.len() implies (#[trigger] m[j]).0 == g[j].0 by {}
    assert forall|k: Seq<u8>|
        #![trigger key_index(build_nodes(items), k)]
        match key_index(build_nodes(items), k) {
            Some(i) => build_nodes(items)[i].1 == node_of(values_for(items, k)) && values_for(
                items,
                k,
            ).len() >= 1,
            None => values_for(items, k).len() == 0,
        } by {
        lemma_group_values(items, k);
        lemma_key_index_same_keys(m, g, k);
        lemma_key_index(g, k);
        if let Some(i) = key_index(g, k) {
            assert(m[i].1 == node_of(g[i].1));
        }
    }
    lemma_group_order(items);
    assert forall|i: int, j: int| 0 <= i < j < m.len() implies key_index(
        items,
        (#[trigger] m[i]).0,
    )->0 < key_index(items, (#[trigger] m[j]).0)->0 by {
        assert(m[i].0 == g[i].0 && m[j].0 == g[j].0);
    }
    lemma_build_nodes_wf(items);
}

} // verus!
