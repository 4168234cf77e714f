//! Node-subtree collection over the scene's child lists, and the set of
//! markdown-scope nodes that belong to governed portal surfaces.

use std::collections::{HashMap, HashSet};
use vstd::prelude::*;
use vstd::std_specs::hash::group_hash_axioms;

use crate::scene_id::SceneId;

verus! {

broadcast use group_hash_axioms;

/// Child lists of the scene's nodes, by node identity.
pub open spec fn child_lists(nodes: Map<u128, Vec<u128>>) -> Map<u128, Seq<u128>> {
    nodes.map_values(|v: Vec<u128>| v@)
}

/// `b` is a child of `a`.
pub open spec fn is_child(g: Map<u128, Seq<u128>>, a: u128, b: u128) -> bool {
    g.contains_key(a) && g[a].contains(b)
}

/// `p` is a path along child links.
pub open spec fn is_path(g: Map<u128, Seq<u128>>, p: Seq<u128>) -> bool {
    &&& p.len() >= 1
    &&& forall|i: int| 0 <= i < p.len() - 1 ==> is_child(g, #[trigger] p[i], p[i + 1])
}

/// `b` is `a` or a descendant of `a`.
pub open spec fn reaches(g: Map<u128, Seq<u128>>, a: u128, b: u128) -> bool {
    exists|p: Seq<u128>| #[trigger] is_path(g, p) && p[0] == a && p.last() == b
}

/// The subtree of `a`: `a` and all its descendants.
pub open spec fn subtree(g: Map<u128, Seq<u128>>, a: u128) -> Set<u128> {
    Set::new(|b: u128| reaches(g, a, b))
}

/// Every child of `v` (if `v` has a child list) is in `s`.
pub open spec fn children_in(g: Map<u128, Seq<u128>>, v: u128, s: Set<u128>) -> bool {
    g.contains_key(v) ==> forall|i: int| 0 <= i < g[v].len() ==> s.contains(#[trigger] g[v][i])
}

/// Every member of `s` outside `pending` has all its children in `s`.
pub open spec fn closed_except(g: Map<u128, Seq<u128>>, s: Set<u128>, pending: Set<u128>) -> bool {
    forall|v: u128| #[trigger] s.contains(v) ==> pending.contains(v) || children_in(g, v, s)
}

/// Every identity mentioned by the child lists (as a parent or a child).
pub open spec fn all_ids(g: Map<u128, Seq<u128>>) -> Set<u128> {
    g.dom().union(g.dom().map(|k: u128| g[k].to_set()).flatten())
}

proof fn lemma_all_ids_finite(g: Map<u128, Seq<u128>>)
    requires
        g.dom().finite(),
    ensures
        all_ids(g).finite(),
{
    let f = |k: u128| g[k].to_set();
    g.dom().lemma_map_finite(f);
    assert forall|s: Set<u128>| g.dom().map(f).contains(s) implies s.finite() by {
        let k = choose|k: u128| g.dom().contains(k) && f(k) == s;
        vstd::seq_lib::seq_to_set_is_finite(g[k]);
    }
    g.dom().map(f).lemma_flatten_finite();
}

proof fn lemma_child_in_all_ids(g: Map<u128, Seq<u128>>, a: u128, i: int)
    requires
        g.contains_key(a),
        0 <= i < g[a].len(),
    ensures
        all_ids(g).contains(g[a][i]),
{
    let f = |k: u128| g[k].to_set();
    assert(g.dom().map(f).contains(f(a)));
    assert(f(a).contains(g[a][i]));
}

/// A closed set holding `a` holds `a`'s whole subtree.
proof fn lemma_closed_holds_subtree(g: Map<u128, Seq<u128>>, s: Set<u128>, p: Seq<u128>)
    requires
        closed_except(g, s, Set::empty()),
        is_path(g, p),
        s.contains(p[0]),
    ensures
        s.contains(p.last()),
    decreases p.len(),
{
    if p.len() > 1 {
        let q = p.drop_last();
        assert(is_path(g, q)) by {
            assert forall|i: int| 0 <= i < q.len() - 1 implies is_child(g, #[trigger] q[i], q[i + 1]) by {
                assert(is_child(g, p[i], p[i + 1]));
            }
        }
        lemma_closed_holds_subtree(g, s, q);
        let k = p.len() - 2;
        assert(is_child(g, p[k], p[k + 1]));
        assert(s.contains(p[k]));
        let j = choose|j: int| 0 <= j < g[p[k]].len() && g[p[k]][j] == p[k + 1];
        assert(s.contains(g[p[k]][j]));
    }
}

/// Prefixing a path from a child `c` of `a` with `a`.
proof fn lemma_reaches_via_child(g: Map<u128, Seq<u128>>, a: u128, c: u128, b: u128)
    requires
        is_child(g, a, c),
        reaches(g, c, b),
    ensures
        reaches(g, a, b),
{
    let p = choose|p: Seq<u128>| is_path(g, p) && p[0] == c && p.last() == b;
    let q = seq![a] + p;
    assert(is_path(g, q)) by {
        assert forall|i: int| 0 <= i < q.len() - 1 implies is_child(g, #[trigger] q[i], q[i + 1]) by {
            if i > 0 {
                assert(q[i] == p[i - 1] && q[i + 1] == p[i]);
                assert(is_child(g, p[i - 1], p[i]));
            }
        }
    }
    assert(q[0] == a && q.last() == b);
}

fn collect_subtree_rec(
    nodes: &HashMap<u128, Vec<u128>>,
    node_id: u128,
    out: &mut HashSet<u128>,
    found: &mut Vec<u128>,
    Ghost(pending): Ghost<Set<u128>>,
    Ghost(budget): Ghost<nat>,
)
    requires
        budget == all_ids(child_lists(nodes@)).insert(node_id).difference(old(out)@).len(),
        pending.subset_of(old(out)@),
        closed_except(child_lists(nodes@), old(out)@, pending),
        forall|v: u128| #[trigger] old(found)@.contains(v) <==> old(out)@.contains(v),
    ensures
        forall|v: u128| #[trigger] final(found)@.contains(v) <==> final(out)@.contains(v),
        old(out)@.subset_of(final(out)@),
        final(out)@.contains(node_id),
        closed_except(child_lists(nodes@), final(out)@, pending),
        forall|v: u128|
            #[trigger] final(out)@.contains(v) && !old(out)@.contains(v) ==> reaches(
                child_lists(nodes@),
                node_id,
                v,
            ),
    decreases budget,
{
    let ghost g = child_lists(nodes@);
    if !out.insert(node_id) {
        return;
    }
    let ghost found_before = found@;
    found.push(node_id);
    proof {
        assert forall|v: u128| #[trigger] found@.contains(v) <==> out@.contains(v) by {
            if v == node_id {
                assert(found@[found@.len() - 1] == v);
            } else {
                if found@.contains(v) {
                    let j = choose|j: int| 0 <= j < found@.len() && found@[j] == v;
                    assert(found_before[j] == v);
                }
                if found_before.contains(v) {
                    let j = choose|j: int| 0 <= j < found_before.len() && found_before[j] == v;
                    assert(found@[j] == v);
                }
            }
        }
    }
    let ghost entry = old(out)@;
    let ghost pending2 = pending.insert(node_id);
    proof {
        assert(reaches(g, node_id, node_id)) by {
            let p = seq![node_id];
            assert(is_path(g, p) && p[0] == node_id && p.last() == node_id);
        }
        assert(closed_except(g, out@, pending2));
    }
    match nodes.get(&node_id) {
        None => {
            proof {
                assert(!g.contains_key(node_id));
            }
        },
        Some(children) => {
            let ghost kids = children@;
            proof {
                assert(g[node_id] == kids);
            }
            let n = children.len();
            let mut i: usize = 0;
            while i < n
                invariant
                    n == kids.len(),
                    g == child_lists(nodes@),
                    g.contains_key(node_id),
                    g[node_id] == kids,
                    kids == children@,
                    0 <= i <= n,
                    budget == all_ids(g).insert(node_id).difference(entry).len(),
                    entry.subset_of(out@),
                    out@.contains(node_id),
                    !entry.contains(node_id),
                    pending2 == pending.insert(node_id),
                    pending2.subset_of(out@),
                    closed_except(g, out@, pending2),
                    forall|v: u128| #[trigger] found@.contains(v) <==> out@.contains(v),
                    forall|j: int| 0 <= j < i ==> out@.contains(#[trigger] kids[j]),
                    forall|v: u128|
                        #[trigger] out@.contains(v) && !entry.contains(v) ==> reaches(g, node_id, v),
                decreases n - i,
            {
                let child = children[i];
                let ghost before = out@;
                proof {
                    lemma_child_in_all_ids(g, node_id, i as int);
                    assert(g.dom() =~= nodes@.dom());
                    lemma_all_ids_finite(g);
                    let u_child = all_ids(g).insert(child).difference(out@);
                    let u_node = all_ids(g).insert(node_id).difference(entry);
                    assert(all_ids(g).insert(child) =~= all_ids(g));
                    assert(u_child.subset_of(u_node.remove(node_id)));
                    assert(u_node.contains(node_id));
                    assert(u_node.finite());
                    assert(u_node.remove(node_id).len() == u_node.len() - 1);
                    vstd::set_lib::lemma_len_subset(u_child, u_node.remove(node_id));
                    assert(all_ids(child_lists(nodes@)).insert(child).difference(out@).len()
                        < all_ids(child_lists(nodes@)).insert(node_id).difference(entry).len());
                }
                let ghost next_budget = all_ids(child_lists(nodes@)).insert(child).difference(
                    out@,
                ).len();
                collect_subtree_rec(nodes, child, out, found, Ghost(pending2), Ghost(next_budget));
                proof {
                    assert forall|v: u128| #[trigger] out@.contains(v) && !entry.contains(v) implies reaches(
                        g,
                        node_id,
                        v,
                    ) by {
                        if !before.contains(v) {
                            assert(is_child(g, node_id, child)) by {
                                assert(kids[i as int] == child);
                            }
                            lemma_reaches_via_child(g, node_id, child, v);
                        }
                    }
                }
                i = i + 1;
            }
        },
    }
    proof {
        assert forall|v: u128| #[trigger] out@.contains(v) implies pending.contains(v) || children_in(
            g,
            v,
            out@,
        ) by {
            if v == node_id && !pending.contains(v) {
            }
        }
    }
}

/// Collect `node_id` and all its descendants into `out`: `out` ends as its
/// old members plus the whole subtree of `node_id`. Each node is entered
/// once, so shared or cyclic child references terminate.
pub fn collect_subtree_node_ids(
    nodes: &HashMap<u128, Vec<u128>>,
    node_id: SceneId,
    out: &mut HashSet<u128>,
)
    ensures
        final(out)@ == old(out)@.union(subtree(child_lists(nodes@), node_id.raw)),
{
    let ghost g = child_lists(nodes@);
    let mut visited: HashSet<u128> = HashSet::new();
    let mut found: Vec<u128> = Vec::new();
    let ghost budget = all_ids(g).insert(node_id.raw).difference(visited@).len();
    collect_subtree_rec(nodes, node_id.raw, &mut visited, &mut found, Ghost(Set::empty()), Ghost(budget));
    proof {
        assert forall|v: u128| subtree(g, node_id.raw).contains(v) implies visited@.contains(v) by {
            let p = choose|p: Seq<u128>| is_path(g, p) && p[0] == node_id.raw && p.last() == v;
            lemma_closed_holds_subtree(g, visited@, p);
        }
        assert(visited@ =~= subtree(g, node_id.raw));
    }
    let n = found.len();
    let mut i: usize = 0;
    while i < n
        invariant
            n == found@.len(),
            0 <= i <= n,
            forall|v: u128| #[trigger] found@.contains(v) <==> visited@.contains(v),
            visited@ == subtree(g, node_id.raw),
            forall|v: u128|
                #[trigger] out@.contains(v) <==> (old(out)@.contains(v) || exists|j: int|
                    0 <= j < i && found@[j] == v),
        decreases n - i,
    {
        let x = found[i];
        out.insert(x);
        proof {
            assert forall|v: u128| #[trigger] out@.contains(v) <==> (old(out)@.contains(v) || exists|j: int|
                0 <= j < i + 1 && found@[j] == v) by {
                if v == x {
                    assert(found@[i as int] == v);
                }
            }
        }
        i = i + 1;
    }
    proof {
        assert forall|v: u128| #[trigger] out@.contains(v) <==> old(out)@.union(
            subtree(g, node_id.raw),
        ).contains(v) by {
            if exists|j: int| 0 <= j < n && found@[j] == v {
                let j = choose|j: int| 0 <= j < n && found@[j] == v;
                assert(found@.contains(v));
            }
            if subtree(g, node_id.raw).contains(v) {
                assert(found@.contains(v));
            }
        }
        assert(out@ =~= old(out)@.union(subtree(g, node_id.raw)));
    }
}

/// What the portal-scope classification reads of a tile: whether it has a
/// scroll configuration (a governed portal surface) and its root node.
#[derive(Clone, Copy, Debug, PartialEq, Eq, Structural)]
pub struct TileScopeInfo {
    pub has_scroll_config: bool,
    pub root_node: Option<SceneId>,
}

/// The nodes under the first `n` tiles that are portal surfaces.
pub open spec fn portal_nodes(g: Map<u128, Seq<u128>>, tiles: Seq<TileScopeInfo>, n: int) -> Set<
    u128,
>
    decreases n,
{
    if n <= 0 {
        Set::empty()
    } else {
        let t = tiles[n - 1];
        let prev = portal_nodes(g, tiles, n - 1);
        if t.has_scroll_config && t.root_node is Some {
            prev.union(subtree(g, t.root_node.unwrap().raw))
        } else {
            prev
        }
    }
}

/// The ids of every node that belongs to a governed portal surface: a tile
/// with a scroll configuration contributes its root node's whole subtree.
pub fn portal_markdown_node_ids(nodes: &HashMap<u128, Vec<u128>>, tiles: &[TileScopeInfo]) -> (ids:
    HashSet<u128>)
    ensures
        ids@ == portal_nodes(child_lists(nodes@), tiles@, tiles@.len() as int),
{
    let ghost g = child_lists(nodes@);
    let mut ids: HashSet<u128> = HashSet::new();
    let n = tiles.len();
    let mut i: usize = 0;
    proof {
        assert(ids@ =~= portal_nodes(g, tiles@, 0));
    }
    while i < n
        invariant
            n == tiles@.len(),
            g == child_lists(nodes@),
            0 <= i <= n,
            ids@ == portal_nodes(g, tiles@, i as int),
        decreases n - i,
    {
        let t = tiles[i];
        if t.has_scroll_config {
            if let Some(root) = t.root_node {
                collect_subtree_node_ids(nodes, root, &mut ids);
            }
        }
        i = i + 1;
    }
    ids
}

} // verus!
