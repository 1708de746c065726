//! Service rules: name normalisation, enum validation and the dependency
//! cycle check.
use vstd::prelude::*;
use vstd::set_lib::lemma_len_subset;

use crate::text::{
    chars_of, str_in, str_listed, string_of, to_lowercase, trim, trim_chars, unicode_lowercase,
};

verus! {

broadcast use vstd::string::group_string_axioms;

/// Allowed service statuses.
pub const SERVICE_STATUSES: [&'static str; 5] = [
    "active",
    "planned",
    "maintenance",
    "deprecated",
    "retired",
];

/// Allowed service criticalities.
pub const SERVICE_CRITICALITIES: [&'static str; 4] = ["critical", "high", "medium", "low"];

/// Allowed service types.
pub const SERVICE_TYPES: [&'static str; 4] = ["internal", "external", "infrastructure", "third_party"];

/// Trimmed, lowercased service name (case-insensitive uniqueness key).
pub fn normalize_name(name: &str) -> (r: String)
    ensures
        r@ == unicode_lowercase(trim(name@)),
{
    let v = chars_of(name);
    let t = string_of(&trim_chars(&v));
    to_lowercase(t.as_str())
}

/// `value` must be one of `allowed`; otherwise `Invalid <field>`.
pub fn validate_enum(field: &str, value: &str, allowed: &[&str]) -> (r: Result<(), String>)
    ensures
        r is Ok <==> str_listed(allowed@, value@),
        r matches Err(e) ==> e@ == "Invalid "@ + field@,
{
    if str_in(allowed, value) {
        Ok(())
    } else {
        let mut m = String::from_str("Invalid ");
        m.append(field);
        Err(m)
    }
}

// ---------------------------------------------------------------------------
// Dependency cycles
// ---------------------------------------------------------------------------

/// `(a, b)` is one of the edges.
pub open spec fn is_edge(edges: Seq<(u128, u128)>, a: u128, b: u128) -> bool {
    exists|i: int| 0 <= i < edges.len() && #[trigger] edges[i] == (a, b)
}

/// `p` follows edges from its first node to its last.
pub open spec fn is_path(edges: Seq<(u128, u128)>, p: Seq<u128>) -> bool {
    &&& p.len() >= 1
    &&& forall|i: int| 0 <= i < p.len() - 1 ==> is_edge(edges, #[trigger] p[i], p[i + 1])
}

/// `y` can be reached from `x` along zero or more edges.
pub open spec fn reachable(edges: Seq<(u128, u128)>, x: u128, y: u128) -> bool {
    exists|p: Seq<u128>| is_path(edges, p) && p[0] == x && p.last() == y
}

/// Adding the edge `from -> to` closes a cycle: `from` is `to` itself or
/// is reachable from `to`.
pub open spec fn creates_cycle(edges: Seq<(u128, u128)>, from: u128, to: u128) -> bool {
    from == to || reachable(edges, to, from)
}

/// Every node that can appear: `to` and every edge target.
pub open spec fn universe(edges: Seq<(u128, u128)>, to: u128) -> Set<u128> {
    edges.map_values(|e: (u128, u128)| e.1).to_set().insert(to)
}

proof fn lemma_reach_refl(edges: Seq<(u128, u128)>, x: u128)
    ensures
        reachable(edges, x, x),
{
    let p = seq![x];
    assert(is_path(edges, p));
    assert(p[0] == x && p.last() == x);
}

proof fn lemma_reach_step(edges: Seq<(u128, u128)>, x: u128, n: u128, i: int)
    requires
        reachable(edges, x, n),
        0 <= i < edges.len(),
        edges[i].0 == n,
    ensures
        reachable(edges, x, edges[i].1),
{
    let p = choose|p: Seq<u128>| is_path(edges, p) && p[0] == x && p.last() == n;
    let q = p.push(edges[i].1);
    assert(is_edge(edges, n, edges[i].1)) by {
        assert(edges[i] == (n, edges[i].1));
    }
    assert forall|k: int| 0 <= k < q.len() - 1 implies is_edge(edges, #[trigger] q[k], q[k + 1]) by {
        if k < p.len() - 1 {
            assert(q[k] == p[k]);
            assert(q[k + 1] == p[k + 1]);
        } else {
            assert(q[k] == n);
        }
    }
    assert(is_path(edges, q));
    assert(q[0] == x && q.last() == edges[i].1);
}

proof fn lemma_closed_path(edges: Seq<(u128, u128)>, seen: Set<u128>, p: Seq<u128>, k: int)
    requires
        is_path(edges, p),
        seen.contains(p[0]),
        0 <= k < p.len(),
        forall|i: int|
            0 <= i < edges.len() && seen.contains(#[trigger] edges[i].0) ==> seen.contains(
                edges[i].1,
            ),
    ensures
        seen.contains(p[k]),
    decreases k,
{
    if k > 0 {
        lemma_closed_path(edges, seen, p, k - 1);
        assert(is_edge(edges, p[k - 1], p[k]));
        let i = choose|i: int| 0 <= i < edges.len() && #[trigger] edges[i] == (p[k - 1], p[k]);
        assert(edges[i].0 == p[k - 1]);
    }
}

fn vec_contains(v: &Vec<u128>, x: u128) -> (r: bool)
    ensures
        r == v@.contains(x),
{
    let mut i: usize = 0;
    while i < v.len()
        invariant
            i <= v@.len(),
            forall|j: int| 0 <= j < i ==> v@[j] != x,
        decreases v.len() - i,
    {
        if v[i] == x {
            return true;
        }
        i = i + 1;
    }
    false
}

/// Whether adding the dependency `from -> to` creates a cycle: a self
/// edge, or `from` reachable from `to` along existing `(from, to)` edges.
/// Node ids are the 128-bit values of the ids.
pub fn would_create_cycle(edges: &[(u128, u128)], from: u128, to: u128) -> (r: bool)
    ensures
        r == creates_cycle(edges@, from, to),
{
    if from == to {
        return true;
    }
    let ghost es = edges@;
    let ghost u = universe(es, to);
    proof {
        vstd::seq_lib::seq_to_set_is_finite(es.map_values(|e: (u128, u128)| e.1));
        lemma_reach_refl(es, to);
    }
    let mut stack: Vec<u128> = Vec::new();
    stack.push(to);
    assert(stack@[0] == to);
    let mut seen: Vec<u128> = Vec::new();
    let ghost mut seen_set: Set<u128> = Set::empty();
    while stack.len() > 0
        invariant
            es == edges@,
            from != to,
            u == universe(es, to),
            u.finite(),
            seen_set.finite(),
            seen_set.subset_of(u),
            forall|x: u128| seen_set.contains(x) <==> seen@.contains(x),
            forall|j: int|
                0 <= j < stack@.len() ==> #[trigger] u.contains(stack@[j]) && reachable(
                    es,
                    to,
                    stack@[j],
                ) && stack@[j] != from,
            forall|x: u128| seen_set.contains(x) ==> reachable(es, to, x) && x != from,
            seen_set.contains(to) || stack@.contains(to),
            forall|i: int|
                0 <= i < es.len() && seen_set.contains(#[trigger] es[i].0) ==> seen_set.contains(
                    es[i].1,
                ) || stack@.contains(es[i].1),
        decreases u.len() - seen_set.len(), stack@.len(),
    {
        let ghost stack_before = stack@;
        let node = stack.pop().unwrap();
        proof {
            assert(stack_before == stack@.push(node));
            assert(stack_before[stack_before.len() - 1] == node);
        }
        if vec_contains(&seen, node) {
            proof {
                assert forall|x: u128| stack_before.contains(x) implies seen_set.contains(x)
                    || stack@.contains(x) by {
                    let j = choose|j: int| 0 <= j < stack_before.len() && stack_before[j] == x;
                    if j < stack@.len() {
                        assert(stack@[j] == x);
                    }
                }
                assert forall|j: int| 0 <= j < stack@.len() implies #[trigger] u.contains(
                    stack@[j],
                ) && reachable(es, to, stack@[j]) && stack@[j] != from by {
                    assert(stack@[j] == stack_before[j]);
                }
            }
            continue ;
        }
        proof {
            let jj = stack_before.len() - 1;
            assert(0 <= jj < stack_before.len());
            assert(u.contains(stack_before[jj]));
            assert(reachable(es, to, stack_before[jj]));
            assert(stack_before[jj] != from);
            vstd::set::axiom_set_insert_len(seen_set, node);
            lemma_len_subset(seen_set.insert(node), u);
        }
        let ghost old_seen = seen_set;
        let ghost old_seen_vec = seen@;
        seen.push(node);
        proof {
            seen_set = seen_set.insert(node);
        }
        let ghost stack_mid = stack@;
        let mut i: usize = 0;
        while i < edges.len()
            invariant
                es == edges@,
                from != to,
                u == universe(es, to),
                i <= es.len(),
                seen_set.contains(node),
                reachable(es, to, node),
                forall|j: int|
                    0 <= j < stack@.len() ==> #[trigger] u.contains(stack@[j]) && reachable(
                        es,
                        to,
                        stack@[j],
                    ) && stack@[j] != from,
                stack@.len() >= stack_mid.len(),
                forall|j: int| 0 <= j < stack_mid.len() ==> #[trigger] stack@[j] == stack_mid[j],
                forall|k: int| 0 <= k < i && #[trigger] es[k].0 == node ==> stack@.contains(es[k].1),
            decreases es.len() - i,
        {
            let (a, b) = edges[i];
            if a == node {
                if b == from {
                    proof {
                        lemma_reach_step(es, to, node, i as int);
                        assert(es[i as int].1 == from);
                    }
                    return true;
                }
                proof {
                    lemma_reach_step(es, to, node, i as int);
                    assert(es.map_values(|e: (u128, u128)| e.1)[i as int] == b);
                    assert(es.map_values(|e: (u128, u128)| e.1).to_set().contains(b));
                }
                let ghost sb = stack@;
                stack.push(b);
                proof {
                    assert(stack@.last() == b);
                    assert forall|k: int| 0 <= k < i + 1 && #[trigger] es[k].0 == node implies stack@.contains(
                        es[k].1,
                    ) by {
                        if k < i {
                            let j = choose|j: int| 0 <= j < sb.len() && sb[j] == es[k].1;
                            assert(stack@[j] == sb[j]);
                        } else {
                            assert(stack@[stack@.len() - 1] == b);
                        }
                    }
                    assert forall|j: int| 0 <= j < stack_mid.len() implies #[trigger] stack@[j]
                        == stack_mid[j] by {
                        assert(stack@[j] == sb[j]);
                    }
                }
            }
            i = i + 1;
        }
        proof {
            assert forall|k: int|
                0 <= k < es.len() && seen_set.contains(#[trigger] es[k].0) implies seen_set.contains(
                es[k].1,
            ) || stack@.contains(es[k].1) by {
                let n = es[k].0;
                if n != node {
                    assert(old_seen.contains(n));
                    if !old_seen.contains(es[k].1) && !seen_set.contains(es[k].1) {
                        assert(stack_before.contains(es[k].1));
                        let j = choose|j: int| 0 <= j < stack_before.len() && stack_before[j] == es[k].1;
                        if j < stack_mid.len() {
                            assert(stack@[j] == stack_mid[j]);
                        } else {
                            assert(es[k].1 == node);
                        }
                    }
                }
            }
            if !seen_set.contains(to) {
                let j = choose|j: int| 0 <= j < stack_before.len() && stack_before[j] == to;
                if j < stack_mid.len() {
                    assert(stack@[j] == stack_mid[j]);
                } else {
                    assert(to == node);
                }
            }
            assert(seen@ == old_seen_vec.push(node));
            assert forall|x: u128| seen_set.contains(x) <==> seen@.contains(x) by {
                if old_seen_vec.contains(x) {
                    let j = choose|j: int| 0 <= j < old_seen_vec.len() && old_seen_vec[j] == x;
                    assert(seen@[j] == x);
                }
                if x == node {
                    assert(seen@[seen@.len() - 1] == node);
                }
                if seen@.contains(x) && x != node {
                    let j = choose|j: int| 0 <= j < seen@.len() && seen@[j] == x;
                    assert(j < seen@.len() - 1);
                    assert(old_seen_vec[j] == x);
                    assert(old_seen_vec.contains(x));
                }
            }
        }
    }
    proof {
        assert(seen_set.contains(to));
        if reachable(es, to, from) {
            let p = choose|p: Seq<u128>| is_path(es, p) && p[0] == to && p.last() == from;
            lemma_closed_path(es, seen_set, p, p.len() - 1);
        }
    }
    false
}

// ---------------------------------------------------------------------------
// Acyclicity of the dependency graph
// ---------------------------------------------------------------------------

/// `y` can be reached from `x` along one or more edges.
pub open spec fn reachable_plus(edges: Seq<(u128, u128)>, x: u128, y: u128) -> bool {
    exists|p: Seq<u128>| is_path(edges, p) && p.len() >= 2 && p[0] == x && p.last() == y
}

/// No service depends on itself, directly or through others.
pub open spec fn acyclic(edges: Seq<(u128, u128)>) -> bool {
    forall|x: u128| !#[trigger] reachable_plus(edges, x, x)
}

proof fn lemma_edge_kept(edges: Seq<(u128, u128)>, e: (u128, u128), a: u128, b: u128)
    requires
        is_edge(edges, a, b),
    ensures
        is_edge(edges.push(e), a, b),
{
    let i = choose|i: int| 0 <= i < edges.len() && #[trigger] edges[i] == (a, b);
    assert(edges.push(e)[i] == (a, b));
}

proof fn lemma_path_kept(edges: Seq<(u128, u128)>, e: (u128, u128), p: Seq<u128>)
    requires
        is_path(edges, p),
    ensures
        is_path(edges.push(e), p),
{
    assert forall|i: int| 0 <= i < p.len() - 1 implies is_edge(edges.push(e), #[trigger] p[i], p[i + 1]) by {
        lemma_edge_kept(edges, e, p[i], p[i + 1]);
    }
}

proof fn lemma_path_extend(edges: Seq<(u128, u128)>, p: Seq<u128>, z: u128)
    requires
        is_path(edges, p),
        is_edge(edges, p.last(), z),
    ensures
        is_path(edges, p.push(z)),
        p.push(z)[0] == p[0],
{
    let q = p.push(z);
    assert forall|k: int| 0 <= k < q.len() - 1 implies is_edge(edges, #[trigger] q[k], q[k + 1]) by {
        if k < p.len() - 1 {
            assert(q[k] == p[k]);
            assert(q[k + 1] == p[k + 1]);
        } else {
            assert(q[k] == p.last());
        }
    }
}

proof fn lemma_reach_concat(edges: Seq<(u128, u128)>, x: u128, y: u128, z: u128)
    requires
        reachable(edges, x, y),
        reachable(edges, y, z),
    ensures
        reachable(edges, x, z),
{
    let p = choose|p: Seq<u128>| is_path(edges, p) && p[0] == x && p.last() == y;
    let q = choose|q: Seq<u128>| is_path(edges, q) && q[0] == y && q.last() == z;
    let r = p + q.drop_first();
    assert forall|k: int| 0 <= k < r.len() - 1 implies is_edge(edges, #[trigger] r[k], r[k + 1]) by {
        if k < p.len() - 1 {
            assert(r[k] == p[k]);
            assert(r[k + 1] == p[k + 1]);
        } else {
            let j = k - (p.len() - 1);
            assert(r[k] == q[j]);
            assert(r[k + 1] == q[j + 1]);
        }
    }
    assert(is_path(edges, r));
    assert(r[0] == x);
    assert(r.last() == z);
}

/// Every path of two or more nodes over the edges plus `from -> to` is
/// either a path of the old edges, or runs from its start to `from` and
/// from `to` to its end over old edges.
proof fn lemma_paths_with_new_edge(edges: Seq<(u128, u128)>, from: u128, to: u128, p: Seq<u128>)
    requires
        is_path(edges.push((from, to)), p),
        p.len() >= 2,
    ensures
        reachable_plus(edges, p[0], p.last()) || (reachable(edges, p[0], from) && reachable(
            edges,
            to,
            p.last(),
        )),
    decreases p.len(),
{
    let e2 = edges.push((from, to));
    let n = p.len();
    let y = p[n - 2];
    let z = p[n - 1];
    assert(is_edge(e2, p[n - 2], p[n - 1]));
    let i = choose|i: int| 0 <= i < e2.len() && #[trigger] e2[i] == (y, z);
    lemma_reach_refl(edges, to);
    if n == 2 {
        if i < edges.len() {
            assert(edges[i] == (y, z));
            assert(is_edge(edges, y, z));
            let q = seq![y, z];
            assert(is_edge(edges, q[0], q[1]));
            assert(is_path(edges, q));
            assert(q[0] == p[0] && q.last() == p.last());
        } else {
            assert(y == from && z == to);
            lemma_reach_refl(edges, from);
        }
    } else {
        let q = p.drop_last();
        assert forall|k: int| 0 <= k < q.len() - 1 implies is_edge(e2, #[trigger] q[k], q[k + 1]) by {
            assert(q[k] == p[k]);
            assert(q[k + 1] == p[k + 1]);
            assert(is_edge(e2, p[k], p[k + 1]));
        }
        lemma_paths_with_new_edge(edges, from, to, q);
        assert(q[0] == p[0]);
        assert(q.last() == y);
        if i < edges.len() {
            assert(edges[i] == (y, z));
            if reachable_plus(edges, p[0], y) {
                let r = choose|r: Seq<u128>|
                    is_path(edges, r) && r.len() >= 2 && r[0] == p[0] && r.last() == y;
                assert(is_edge(edges, r.last(), z));
                lemma_path_extend(edges, r, z);
                assert(r.push(z).last() == z);
            } else {
                lemma_reach_step(edges, to, y, i);
            }
        } else {
            assert(y == from && z == to);
            if reachable_plus(edges, p[0], y) {
                let r = choose|r: Seq<u128>|
                    is_path(edges, r) && r.len() >= 2 && r[0] == p[0] && r.last() == y;
                assert(reachable(edges, p[0], from));
            }
        }
    }
}

/// Accepting a dependency that `would_create_cycle` clears keeps an
/// acyclic dependency graph acyclic.
pub proof fn law_cleared_dependency_keeps_graph_acyclic(
    edges: Seq<(u128, u128)>,
    from: u128,
    to: u128,
)
    requires
        acyclic(edges),
        !creates_cycle(edges, from, to),
    ensures
        acyclic(edges.push((from, to))),
{
    let e2 = edges.push((from, to));
    assert forall|x: u128| !#[trigger] reachable_plus(e2, x, x) by {
        if reachable_plus(e2, x, x) {
            let p = choose|p: Seq<u128>| is_path(e2, p) && p.len() >= 2 && p[0] == x && p.last() == x;
            lemma_paths_with_new_edge(edges, from, to, p);
            if !reachable_plus(edges, x, x) {
                lemma_reach_concat(edges, to, x, from);
            }
        }
    }
}

/// A dependency that `would_create_cycle` refuses would indeed close a
/// cycle: with it the graph is no longer acyclic.
pub proof fn law_refused_dependency_closes_cycle(edges: Seq<(u128, u128)>, from: u128, to: u128)
    requires
        creates_cycle(edges, from, to),
    ensures
        !acyclic(edges.push((from, to))),
{
    let e2 = edges.push((from, to));
    assert(e2[edges.len() as int] == (from, to));
    assert(is_edge(e2, from, to));
    if from == to {
        let q = seq![from, to];
        assert(is_edge(e2, q[0], q[1]));
        assert(is_path(e2, q));
        assert(q.len() == 2 && q[0] == to && q.last() == to);
        assert(reachable_plus(e2, to, to));
    } else {
        let p = choose|p: Seq<u128>| is_path(edges, p) && p[0] == to && p.last() == from;
        lemma_path_kept(edges, (from, to), p);
        lemma_path_extend(e2, p, to);
        let q = p.push(to);
        assert(is_path(e2, q));
        assert(q.len() >= 2 && q[0] == to && q.last() == to);
        assert(reachable_plus(e2, to, to));
    }
}

} // verus!
