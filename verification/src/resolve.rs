//! Dependency resolution.
//!
//! Orders an app set so that every app comes after all apps it depends
//! on, and detects dependency cycles of any length. The algorithm is a
//! depth-first post-order visit: nodes are marked "in process" for the
//! duration of their own visit, and revisiting an in-process node is a
//! cycle. Completed nodes are appended to the result, which read left
//! to right is already dependency-first.

use vstd::prelude::*;
use vstd::pervasive::VecAdditionalExecFns;

use crate::errors::ValidationError;
use crate::models::{App, AppView};
use crate::vecs::{count_false, lemma_count_false_update, lemma_deep_view_push};

verus! {

/// App `i` directly depends on app `j`.
pub open spec fn dep_edge(apps: Seq<AppView>, i: int, j: int) -> bool {
    &&& 0 <= i < apps.len()
    &&& 0 <= j < apps.len()
    &&& apps[i].depends_on.contains(apps[j].name)
}

/// `p` is a dependency cycle through indices of `apps`: consecutive
/// elements are dependency edges and the last element depends on the
/// first again.
pub open spec fn is_cycle(apps: Seq<AppView>, p: Seq<int>) -> bool {
    &&& p.len() >= 1
    &&& (forall|k: int| 0 <= k < p.len() ==> 0 <= #[trigger] p[k] < apps.len())
    &&& (forall|k: int| 0 <= k < p.len() - 1 ==> dep_edge(apps, #[trigger] p[k], p[k + 1]))
    &&& dep_edge(apps, p[p.len() - 1], p[0])
}

/// The dependency graph of `apps` contains a cycle of some length.
pub open spec fn has_cycle(apps: Seq<AppView>) -> bool {
    exists|p: Seq<int>| is_cycle(apps, p)
}

/// Every declared dependency names an app present in the set.
pub open spec fn deps_closed(apps: Seq<AppView>) -> bool {
    forall|i: int, d: Seq<char>|
        0 <= i < apps.len() && #[trigger] apps[i].depends_on.contains(d)
            ==> exists|j: int| 0 <= j < apps.len() && #[trigger] apps[j].name == d
}

/// No two apps share a name.
pub open spec fn names_unique(apps: Seq<AppView>) -> bool {
    forall|i: int, j: int|
        0 <= i < j < apps.len() ==> #[trigger] apps[i].name != #[trigger] apps[j].name
}

/// Every dependency of every app in `order` is satisfied by a strictly
/// earlier element of `order`.
pub open spec fn dependency_ordered(order: Seq<AppView>) -> bool {
    forall|k: int, d: Seq<char>|
        0 <= k < order.len() && #[trigger] order[k].depends_on.contains(d)
            ==> exists|j: int| 0 <= j < k && #[trigger] order[j].name == d
}

/// `order` holds exactly the elements of `apps` (in some order):
/// equal length, and each side's elements all occur on the other.
pub open spec fn same_apps(order: Seq<AppView>, apps: Seq<AppView>) -> bool {
    &&& order.len() == apps.len()
    &&& (forall|j: int| 0 <= j < apps.len() ==> order.contains(#[trigger] apps[j]))
    &&& (forall|k: int| 0 <= k < order.len() ==> apps.contains(#[trigger] order[k]))
}

/// The index-based adjacency rows mirror the `depends_on` name lists.
pub open spec fn adj_ok(apps: Seq<AppView>, adj: Seq<Vec<usize>>) -> bool {
    &&& adj.len() == apps.len()
    &&& (forall|i: int|
        0 <= i < apps.len() ==> (#[trigger] adj[i])@.len() == apps[i].depends_on.len())
    &&& (forall|i: int, t: int|
        0 <= i < apps.len() && 0 <= t < apps[i].depends_on.len() ==> {
            &&& #[trigger] adj[i]@[t] < apps.len()
            &&& apps[adj[i]@[t] as int].name == apps[i].depends_on[t]
        })
}

/// An adjacency row entry is a dependency edge.
proof fn lemma_adj_entry_edge(apps: Seq<AppView>, adj: Seq<Vec<usize>>, i: int, t: int)
    requires
        adj_ok(apps, adj),
        0 <= i < apps.len(),
        0 <= t < adj[i]@.len(),
    ensures
        dep_edge(apps, i, adj[i]@[t] as int),
{
    assert(apps[i].depends_on[t] == apps[adj[i]@[t] as int].name);
}

/// Under unique names, every dependency edge shows up in the adjacency
/// row of its source.
proof fn lemma_edge_in_adj(apps: Seq<AppView>, adj: Seq<Vec<usize>>, i: int, j: int)
    requires
        adj_ok(apps, adj),
        names_unique(apps),
        dep_edge(apps, i, j),
    ensures
        exists|t: int| 0 <= t < adj[i]@.len() && (#[trigger] adj[i]@[t]) as int == j,
{
    let t = choose|t: int| 0 <= t < apps[i].depends_on.len() && apps[i].depends_on[t]
        == apps[j].name;
    let u = adj[i]@[t] as int;
    assert(apps[u].name == apps[j].name);
    if u != j {
        if u < j {
            assert(apps[u].name != apps[j].name);
        } else {
            assert(apps[j].name != apps[u].name);
        }
    }
    assert(adj[i]@[t] as int == j);
}

/// Finds the index of the app named `name`, given that one exists.
fn find_app_index(apps: &Vec<App>, name: &String) -> (r: usize)
    requires
        exists|j: int| 0 <= j < apps.deep_view().len() && #[trigger] apps.deep_view()[j].name
            == name@,
    ensures
        r < apps.deep_view().len(),
        apps.deep_view()[r as int].name == name@,
{
    let mut i: usize = 0;
    while i < apps.len()
        invariant
            i <= apps@.len(),
            exists|j: int| 0 <= j < apps.deep_view().len() && #[trigger] apps.deep_view()[j].name
                == name@,
            forall|j: int| 0 <= j < i ==> #[trigger] apps.deep_view()[j].name != name@,
        decreases apps@.len() - i,
    {
        if apps[i].name.eq(name) {
            return i;
        }
        i = i + 1;
    }
    proof {
        assert(false);
    }
    0
}

/// Builds the index-based adjacency rows for the app set.
fn build_adjacency(apps: &Vec<App>) -> (adj: Vec<Vec<usize>>)
    requires
        deps_closed(apps.deep_view()),
    ensures
        adj_ok(apps.deep_view(), adj@),
{
    let ghost av = apps.deep_view();
    let mut adj: Vec<Vec<usize>> = Vec::new();
    let mut i: usize = 0;
    while i < apps.len()
        invariant
            i <= apps@.len(),
            av == apps.deep_view(),
            deps_closed(av),
            adj@.len() == i,
            forall|x: int|
                0 <= x < i ==> (#[trigger] adj@[x])@.len() == av[x].depends_on.len(),
            forall|x: int, t: int|
                0 <= x < i && 0 <= t < av[x].depends_on.len() ==> {
                    &&& #[trigger] adj@[x]@[t] < av.len()
                    &&& av[adj@[x]@[t] as int].name == av[x].depends_on[t]
                },
        decreases apps@.len() - i,
    {
        let mut row: Vec<usize> = Vec::new();
        let mut t: usize = 0;
        let deps_len = apps[i].depends_on.len();
        proof {
            assert(av[i as int].depends_on.len() == deps_len);
        }
        while t < deps_len
            invariant
                t <= deps_len,
                i < apps@.len(),
                av == apps.deep_view(),
                deps_closed(av),
                deps_len == av[i as int].depends_on.len(),
                row@.len() == t,
                forall|s: int| 0 <= s < t ==> (#[trigger] row@[s]) < av.len(),
                forall|s: int|
                    0 <= s < t ==> av[(#[trigger] row@[s]) as int].name
                        == av[i as int].depends_on[s],
            decreases deps_len - t,
        {
            proof {
                assert(av[i as int].depends_on[t as int] == apps@[i as int].depends_on@[t as int]@);
                assert(av[i as int].depends_on.contains(av[i as int].depends_on[t as int]));
            }
            let j = find_app_index(apps, &apps[i].depends_on[t]);
            row.push(j);
            t = t + 1;
        }
        adj.push(row);
        i = i + 1;
    }
    adj
}

/// The current depth-first chain `path` is well formed: distinct valid
/// indices, marked in-process exactly along the chain, and linked by
/// dependency edges.
pub open spec fn path_closed(apps: Seq<AppView>, path: Seq<int>, in_proc: Seq<bool>) -> bool {
    &&& (forall|t: int| 0 <= t < path.len() ==> 0 <= #[trigger] path[t] < apps.len())
    &&& (forall|t1: int, t2: int|
        0 <= t1 < t2 < path.len() ==> #[trigger] path[t1] != #[trigger] path[t2])
    &&& (forall|k: int| 0 <= k < apps.len() ==> (in_proc[k] <==> path.contains(k)))
    &&& (forall|t: int| 0 <= t < path.len() - 1 ==> dep_edge(apps, #[trigger] path[t], path[t + 1]))
}

/// Visited nodes are never in process.
pub open spec fn vis_disjoint(visited: Seq<bool>, in_proc: Seq<bool>) -> bool {
    forall|k: int| 0 <= k < visited.len() && #[trigger] visited[k] ==> !in_proc[k]
}

/// The emitted post-order `out` is consistent with `visited`: its
/// elements are distinct valid indices, it holds exactly the visited
/// nodes, and every dependency of an element appears strictly earlier.
pub open spec fn out_ok(
    apps: Seq<AppView>,
    adj: Seq<Vec<usize>>,
    visited: Seq<bool>,
    out: Seq<usize>,
) -> bool {
    &&& (forall|t: int| 0 <= t < out.len() ==> (#[trigger] out[t]) < apps.len())
    &&& (forall|t1: int, t2: int|
        0 <= t1 < t2 < out.len() ==> #[trigger] out[t1] != #[trigger] out[t2])
    &&& (forall|k: int|
        0 <= k < apps.len() ==> (visited[k] <==> exists|t: int|
            0 <= t < out.len() && (#[trigger] out[t]) as int == k))
    &&& (forall|t: int, s: int|
        #![trigger adj[out[t] as int]@[s]]
        0 <= t < out.len() && 0 <= s < adj[out[t] as int]@.len() ==> appears_before(
            out,
            t,
            adj[out[t] as int]@[s],
        ))
}

/// `x` occurs in `out` strictly before position `t`.
pub open spec fn appears_before(out: Seq<usize>, t: int, x: usize) -> bool {
    exists|u: int| 0 <= u < t && (#[trigger] out[u]) == x
}

/// One depth-first visit of `node`: pushes the post-order of `node`'s
/// unvisited dependency closure onto `out`, or reports an in-process
/// node that closes a dependency cycle.
fn dfs(
    apps: &Vec<App>,
    adj: &Vec<Vec<usize>>,
    node: usize,
    visited: &mut Vec<bool>,
    in_proc: &mut Vec<bool>,
    out: &mut Vec<usize>,
    Ghost(path): Ghost<Seq<int>>,
) -> (r: Result<(), usize>)
    requires
        adj_ok(apps.deep_view(), adj@),
        node < apps@.len(),
        old(visited)@.len() == apps@.len(),
        old(in_proc)@.len() == apps@.len(),
        !old(visited)@[node as int],
        !old(in_proc)@[node as int],
        path_closed(apps.deep_view(), path, old(in_proc)@),
        path.len() > 0 ==> dep_edge(apps.deep_view(), path[path.len() - 1], node as int),
        vis_disjoint(old(visited)@, old(in_proc)@),
        out_ok(apps.deep_view(), adj@, old(visited)@, old(out)@),
    ensures
        r matches Ok(_) ==> {
            &&& final(in_proc)@ == old(in_proc)@
            &&& final(visited)@.len() == apps@.len()
            &&& (forall|k: int|
                0 <= k < apps@.len() && old(visited)@[k] ==> #[trigger] final(visited)@[k])
            &&& final(visited)@[node as int]
            &&& vis_disjoint(final(visited)@, final(in_proc)@)
            &&& out_ok(apps.deep_view(), adj@, final(visited)@, final(out)@)
            &&& old(out)@.is_prefix_of(final(out)@)
        },
        r matches Err(c) ==> c < apps@.len() && exists|p: Seq<int>|
            is_cycle(apps.deep_view(), p) && #[trigger] p[0] == c as int,
    decreases count_false(old(in_proc)@),
{
    let ghost av = apps.deep_view();
    let ghost n = apps@.len() as int;
    let ghost in_proc0 = in_proc@;
    in_proc.set(node, true);
    let ghost path2 = path.push(node as int);
    proof {
        assert(!path.contains(node as int));
        assert forall|k: int| 0 <= k < n implies (in_proc@[k] <==> path2.contains(k)) by {
            if k == node as int {
                assert(path2[path2.len() - 1] == k);
                assert(path2.contains(k));
            } else {
                assert(in_proc@[k] == in_proc0[k]);
                if path2.contains(k) {
                    let t = choose|t: int| 0 <= t < path2.len() && path2[t] == k;
                    assert(t < path.len());
                    assert(path[t] == k);
                } else {
                    if path.contains(k) {
                        let t = choose|t: int| 0 <= t < path.len() && path[t] == k;
                        assert(path2[t] == k);
                    }
                }
            }
        }
        assert(path_closed(av, path2, in_proc@));
    }
    let deps_len = adj[node].len();
    let mut t: usize = 0;
    while t < deps_len
        invariant
            t <= deps_len,
            node < apps@.len(),
            av == apps.deep_view(),
            n == apps@.len() as int,
            adj_ok(av, adj@),
            deps_len == adj@[node as int]@.len(),
            visited@.len() == n,
            in_proc@.len() == n,
            in_proc@ == in_proc0.update(node as int, true),
            in_proc0 == old(in_proc)@,
            old(visited)@.len() == n,
            in_proc0.len() == n,
            !in_proc0[node as int],
            path2 == path.push(node as int),
            path_closed(av, path2, in_proc@),
            vis_disjoint(visited@, in_proc@),
            out_ok(av, adj@, visited@, out@),
            old(out)@.is_prefix_of(out@),
            forall|k: int| 0 <= k < n && old(visited)@[k] ==> #[trigger] visited@[k],
            forall|s: int| 0 <= s < t ==> visited@[(#[trigger] adj@[node as int]@[s]) as int],
        decreases deps_len - t,
    {
        let nb = adj[node][t];
        proof {
            assert(av[node as int].depends_on.len() == adj@[node as int]@.len());
            assert(nb < n);
            lemma_adj_entry_edge(av, adj@, node as int, t as int);
        }
        if in_proc[nb] {
            proof {
                assert(path2.contains(nb as int));
                let j = choose|j: int| 0 <= j < path2.len() && path2[j] == nb as int;
                let p = path2.subrange(j, path2.len() as int);
                assert(p.len() >= 1);
                assert(p[p.len() - 1] == path2[path2.len() - 1]);
                assert(p[p.len() - 1] == node as int);
                assert(p[0] == nb as int);
                assert forall|k: int| 0 <= k < p.len() - 1 implies dep_edge(
                    av,
                    #[trigger] p[k],
                    p[k + 1],
                ) by {
                    assert(p[k] == path2[j + k]);
                    assert(p[k + 1] == path2[j + k + 1]);
                }
                assert(dep_edge(av, p[p.len() - 1], p[0]));
                assert(is_cycle(av, p));
            }
            return Err(nb);
        }
        if !visited[nb] {
            proof {
                assert(in_proc@[nb as int] == false);
                assert(dep_edge(av, path2[path2.len() - 1], nb as int));
                lemma_count_false_update(in_proc0, node as int);
                assert(count_false(in_proc@) < count_false(in_proc0));
            }
            let r = dfs(apps, adj, nb, visited, in_proc, out, Ghost(path2));
            match r {
                Ok(_) => {},
                Err(c) => {
                    return Err(c);
                },
            }
        }
        t = t + 1;
    }
    proof {
        assert(in_proc@[node as int]);
        assert(!visited@[node as int]);
    }
    in_proc.set(node, false);
    proof {
        assert(in_proc@ =~= in_proc0);
    }
    let ghost visited0 = visited@;
    let ghost out0 = out@;
    visited.set(node, true);
    out.push(node);
    proof {
        // out extended by node: re-establish `out_ok`.
        assert(out@ == out0.push(node));
        assert(!(exists|t: int| 0 <= t < out0.len() && (#[trigger] out0[t]) as int == node as int));
        assert forall|t1: int, t2: int| 0 <= t1 < t2 < out@.len() implies #[trigger] out@[t1]
            != #[trigger] out@[t2] by {
            if t2 == out@.len() - 1 {
                assert(out@[t1] == out0[t1]);
                if out@[t1] == node {
                    assert(out0[t1] as int == node as int);
                    assert(false);
                }
            }
        }
        assert forall|k: int| 0 <= k < n implies (visited@[k] <==> exists|t: int|
            0 <= t < out@.len() && (#[trigger] out@[t]) as int == k) by {
            if k == node as int {
                assert(out@[out@.len() - 1] as int == k);
            } else {
                if visited@[k] {
                    assert(visited0[k]);
                    let t = choose|t: int| 0 <= t < out0.len() && (#[trigger] out0[t]) as int == k;
                    assert(out@[t] as int == k);
                } else {
                    assert(!visited0[k]);
                    if exists|t: int| 0 <= t < out@.len() && (#[trigger] out@[t]) as int == k {
                        let t = choose|t: int|
                            0 <= t < out@.len() && (#[trigger] out@[t]) as int == k;
                        assert(t < out0.len());
                        assert(out0[t] as int == k);
                        assert(false);
                    }
                }
            }
        }
        assert forall|t: int, s: int|
            #![trigger adj@[out@[t] as int]@[s]]
            0 <= t < out@.len() && 0 <= s < adj@[out@[t] as int]@.len() implies appears_before(
            out@,
            t,
            adj@[out@[t] as int]@[s],
        ) by {
            if t == out@.len() - 1 {
                // node's own dependencies were all visited by the loop
                let dep = adj@[node as int]@[s];
                assert(visited0[dep as int]);
                let u = choose|u: int| 0 <= u < out0.len() && (#[trigger] out0[u]) as int
                    == dep as int;
                assert(out@[u] == dep);
            } else {
                assert(out@[t] == out0[t]);
                assert(0 <= s < adj@[out0[t] as int]@.len());
                assert(appears_before(out0, t, adj@[out0[t] as int]@[s]));
                let u = choose|u: int|
                    0 <= u < t && (#[trigger] out0[u]) == adj@[out0[t] as int]@[s];
                assert(out@[u] == out0[u]);
                assert(appears_before(out@, t, adj@[out@[t] as int]@[s]));
            }
        }
        assert forall|t: int| 0 <= t < out@.len() implies (#[trigger] out@[t]) < apps@.len() by {
            if t < out0.len() {
                assert(out@[t] == out0[t]);
            } else {
                assert(out@[t] == node);
            }
        }
        assert(out_ok(av, adj@, visited@, out@));
        assert(out0.is_prefix_of(out@));
        assert(old(out)@.is_prefix_of(out@));
    }
    Ok(())
}

/// The position of value `x` in `out`.
pub open spec fn posn(out: Seq<usize>, x: int) -> int {
    choose|t: int| 0 <= t < out.len() && (#[trigger] out[t]) as int == x
}

/// In a duplicate-free sequence that contains `x`, `posn` is the one
/// index holding `x`.
proof fn lemma_posn_unique(out: Seq<usize>, x: int)
    requires
        forall|t1: int, t2: int| 0 <= t1 < t2 < out.len() ==> #[trigger] out[t1] != #[trigger] out[t2],
        exists|t: int| 0 <= t < out.len() && (#[trigger] out[t]) as int == x,
    ensures
        0 <= posn(out, x) < out.len(),
        out[posn(out, x)] as int == x,
        forall|t: int| 0 <= t < out.len() && (#[trigger] out[t]) as int == x ==> t == posn(out, x),
{
    let p = posn(out, x);
    assert(0 <= p < out.len() && out[p] as int == x);
    assert forall|t: int| 0 <= t < out.len() && (#[trigger] out[t]) as int == x implies t == p by {
        if t < p {
            assert(out[t] != out[p]);
        } else if t > p {
            assert(out[p] != out[t]);
        }
    }
}

/// Walking a cycle moves strictly backwards through a dependency-first
/// post-order, so the position drops by at least one per step.
proof fn lemma_cycle_pos_drops(
    apps: Seq<AppView>,
    adj: Seq<Vec<usize>>,
    visited: Seq<bool>,
    out: Seq<usize>,
    p: Seq<int>,
    i: int,
)
    requires
        adj_ok(apps, adj),
        names_unique(apps),
        out_ok(apps, adj, visited, out),
        forall|k: int| 0 <= k < apps.len() ==> visited[k],
        is_cycle(apps, p),
        0 <= i < p.len(),
    ensures
        posn(out, p[i]) <= posn(out, p[0]) - i,
        0 <= posn(out, p[i]) < out.len(),
        out[posn(out, p[i])] as int == p[i],
    decreases i,
{
    assert(visited[p[i]]);
    lemma_posn_unique(out, p[i]);
    if i > 0 {
        lemma_cycle_pos_drops(apps, adj, visited, out, p, i - 1);
        assert(dep_edge(apps, p[i - 1], p[i]));
        lemma_edge_in_adj(apps, adj, p[i - 1], p[i]);
        let s = choose|s: int| 0 <= s < adj[p[i - 1]]@.len() && (#[trigger] adj[p[i - 1]]@[s]) as int
            == p[i];
        let t = posn(out, p[i - 1]);
        assert(out[t] as int == p[i - 1]);
        assert(adj[out[t] as int]@[s] as int == p[i]);
        assert(appears_before(out, t, adj[out[t] as int]@[s]));
        let u = choose|u: int| 0 <= u < t && (#[trigger] out[u]) == adj[out[t] as int]@[s];
        assert(out[u] as int == p[i]);
        assert(u == posn(out, p[i]));
    }
}

/// A complete dependency-first post-order rules out any cycle.
proof fn lemma_no_cycle(apps: Seq<AppView>, adj: Seq<Vec<usize>>, visited: Seq<bool>, out: Seq<usize>)
    requires
        adj_ok(apps, adj),
        names_unique(apps),
        out_ok(apps, adj, visited, out),
        forall|k: int| 0 <= k < apps.len() ==> visited[k],
    ensures
        !has_cycle(apps),
{
    if has_cycle(apps) {
        let p = choose|p: Seq<int>| is_cycle(apps, p);
        let last = p.len() - 1;
        lemma_cycle_pos_drops(apps, adj, visited, out, p, last);
        lemma_cycle_pos_drops(apps, adj, visited, out, p, 0);
        // the closing edge puts `p[0]` strictly before `p[last]`
        assert(dep_edge(apps, p[last], p[0]));
        lemma_edge_in_adj(apps, adj, p[last], p[0]);
        let s = choose|s: int| 0 <= s < adj[p[last]]@.len() && (#[trigger] adj[p[last]]@[s]) as int
            == p[0];
        let t = posn(out, p[last]);
        assert(out[t] as int == p[last]);
        assert(adj[out[t] as int]@[s] as int == p[0]);
        assert(appears_before(out, t, adj[out[t] as int]@[s]));
        let u = choose|u: int| 0 <= u < t && (#[trigger] out[u]) == adj[out[t] as int]@[s];
        assert(out[u] as int == p[0]);
        lemma_posn_unique(out, p[0]);
        assert(u == posn(out, p[0]));
        assert(posn(out, p[0]) < posn(out, p[last]));
        assert(posn(out, p[last]) <= posn(out, p[0]) - last);
        assert(false);
    }
}

/// `out` has an entry holding the value `k`.
pub open spec fn out_has(out: Seq<usize>, k: int) -> bool {
    exists|t: int| 0 <= t < out.len() && (#[trigger] out[t]) as int == k
}

/// A duplicate-free sequence of indices below `n` that contains every
/// index below `n` has length exactly `n`.
proof fn lemma_out_len(out: Seq<usize>, n: int)
    requires
        n >= 0,
        forall|t: int| 0 <= t < out.len() ==> (#[trigger] out[t]) < n,
        forall|t1: int, t2: int| 0 <= t1 < t2 < out.len() ==> #[trigger] out[t1] != #[trigger] out[t2],
        forall|k: int| 0 <= k < n ==> #[trigger] out_has(out, k),
    ensures
        out.len() == n,
{
    let oi = out.map_values(|u: usize| u as int);
    assert(oi.len() == out.len());
    assert forall|t1: int, t2: int| t1 != t2 && 0 <= t1 < oi.len() && 0 <= t2 < oi.len()
        implies oi[t1] != oi[t2] by {
        if t1 < t2 {
            assert(out[t1] != out[t2]);
        } else {
            assert(out[t2] != out[t1]);
        }
    }
    assert(oi.no_duplicates());
    oi.unique_seq_to_set();
    let r = vstd::set_lib::set_int_range(0, n);
    assert forall|x: int| r.contains(x) implies oi.to_set().contains(x) by {
        assert(out_has(out, x));
        let t = choose|t: int| 0 <= t < out.len() && (#[trigger] out[t]) as int == x;
        assert(oi[t] == x);
        assert(oi.contains(x));
    }
    assert forall|x: int| oi.to_set().contains(x) implies r.contains(x) by {
        let t = choose|t: int| 0 <= t < oi.len() && #[trigger] oi[t] == x;
        assert(out[t] as int == x);
    }
    assert(oi.to_set() =~= r);
    vstd::set_lib::lemma_int_range(0, n);
}

/// Reading a complete post-order back as a sequence of apps yields a
/// dependency-first arrangement of the same apps.
proof fn lemma_order_correct(
    av: Seq<AppView>,
    adj: Seq<Vec<usize>>,
    visited: Seq<bool>,
    out: Seq<usize>,
    odv: Seq<AppView>,
)
    requires
        adj_ok(av, adj),
        out_ok(av, adj, visited, out),
        forall|k: int| 0 <= k < av.len() ==> visited[k],
        out.len() == av.len(),
        odv.len() == out.len(),
        forall|s: int| 0 <= s < out.len() ==> #[trigger] odv[s] == av[out[s] as int],
    ensures
        same_apps(odv, av),
        dependency_ordered(odv),
{
    assert forall|j: int| 0 <= j < av.len() implies odv.contains(#[trigger] av[j]) by {
        assert(visited[j]);
        let k = choose|k: int| 0 <= k < out.len() && (#[trigger] out[k]) as int == j;
        assert(odv[k] == av[j]);
    }
    assert forall|k: int| 0 <= k < odv.len() implies av.contains(#[trigger] odv[k]) by {
        assert(odv[k] == av[out[k] as int]);
    }
    assert(same_apps(odv, av));
    assert forall|k: int, d: Seq<char>|
        0 <= k < odv.len() && #[trigger] odv[k].depends_on.contains(d) implies exists|j: int|
        0 <= j < k && #[trigger] odv[j].name == d by {
        let x = out[k] as int;
        assert(odv[k] == av[x]);
        let s = choose|s: int| 0 <= s < av[x].depends_on.len() && av[x].depends_on[s] == d;
        assert(0 <= s < adj[out[k] as int]@.len());
        assert(appears_before(out, k, adj[out[k] as int]@[s]));
        let u = choose|u: int| 0 <= u < k && (#[trigger] out[u]) == adj[out[k] as int]@[s];
        assert(av[adj[x]@[s] as int].name == d);
        assert(odv[u] == av[out[u] as int]);
        assert(odv[u].name == d);
    }
    assert(dependency_ordered(odv));
}

impl App {
    /// Orders `apps` so that every app comes strictly after all apps it
    /// depends on, or reports a dependency cycle naming an app on it.
    ///
    /// Succeeds exactly on acyclic dependency graphs: a returned order
    /// holds the same apps, dependency-first, and its existence shows
    /// the graph is acyclic; an error is returned exactly when a cycle
    /// of some length exists.
    pub fn topological_sort_by_dependenceis(apps: &Vec<App>) -> (r: Result<
        Vec<App>,
        ValidationError,
    >)
        requires
            deps_closed(apps.deep_view()),
            names_unique(apps.deep_view()),
        ensures
            r matches Ok(order) ==> {
                &&& same_apps(order.deep_view(), apps.deep_view())
                &&& dependency_ordered(order.deep_view())
                &&& !has_cycle(apps.deep_view())
            },
            r matches Err(e) ==> {
                &&& has_cycle(apps.deep_view())
                &&& e matches ValidationError::CircularDependency(nm)
                &&& exists|p: Seq<int>|
                    is_cycle(apps.deep_view(), p) && apps.deep_view()[#[trigger] p[0]].name
                        == nm@
            },
    {
        let ghost av = apps.deep_view();
        let n = apps.len();
        let adj = build_adjacency(apps);
        let mut visited: Vec<bool> = Vec::new();
        let mut in_proc: Vec<bool> = Vec::new();
        let mut out: Vec<usize> = Vec::new();
        let mut i: usize = 0;
        while i < n
            invariant
                n == apps@.len(),
                i <= n,
                visited@.len() == i,
                in_proc@.len() == i,
                forall|k: int| 0 <= k < i ==> !#[trigger] visited@[k],
                forall|k: int| 0 <= k < i ==> !#[trigger] in_proc@[k],
            decreases n - i,
        {
            visited.push(false);
            in_proc.push(false);
            i = i + 1;
        }
        let mut i: usize = 0;
        while i < n
            invariant
                n == apps@.len(),
                av == apps.deep_view(),
                adj_ok(av, adj@),
                names_unique(av),
                visited@.len() == n,
                in_proc@.len() == n,
                forall|k: int| 0 <= k < n ==> !#[trigger] in_proc@[k],
                out_ok(av, adj@, visited@, out@),
                forall|k: int| 0 <= k < i ==> #[trigger] visited@[k],
            decreases n - i,
        {
            if !visited[i] {
                proof {
                    assert forall|k: int| 0 <= k < av.len() implies (in_proc@[k]
                        <==> Seq::<int>::empty().contains(k)) by {
                        if Seq::<int>::empty().contains(k) {
                            let t = choose|t: int|
                                0 <= t < Seq::<int>::empty().len() && Seq::<int>::empty()[t] == k;
                            assert(false);
                        }
                    }
                    assert(path_closed(av, Seq::empty(), in_proc@));
                    assert(vis_disjoint(visited@, in_proc@));
                }
                let r = dfs(apps, &adj, i, &mut visited, &mut in_proc, &mut out, Ghost(
                    Seq::empty(),
                ));
                match r {
                    Ok(_) => {},
                    Err(c) => {
                        proof {
                            let p = choose|p: Seq<int>|
                                is_cycle(apps.deep_view(), p) && #[trigger] p[0] == c as int;
                            assert(is_cycle(av, p));
                            assert(av[p[0]].name == apps.deep_view()[c as int].name);
                        }
                        return Err(ValidationError::CircularDependency(apps[c].name.clone()));
                    },
                }
            }
            i = i + 1;
        }
        proof {
            assert forall|k: int| 0 <= k < av.len() implies visited@[k] by {}
            lemma_no_cycle(av, adj@, visited@, out@);
            assert forall|k: int| 0 <= k < n implies #[trigger] out_has(out@, k) by {
                assert(visited@[k]);
            }
            lemma_out_len(out@, n as int);
        }
        // read the post-order back as apps
        let mut order: Vec<App> = Vec::new();
        let mut t: usize = 0;
        while t < out.len()
            invariant
                av == apps.deep_view(),
                out_ok(av, adj@, visited@, out@),
                n == apps@.len(),
                out@.len() == n,
                t <= n,
                order@.len() == t,
                forall|s: int|
                    0 <= s < t ==> #[trigger] order.deep_view()[s] == av[out@[s] as int],
            decreases out@.len() - t,
        {
            let ghost order0 = order;
            let a = apps[out[t]].clone();
            let ghost ga = a;
            order.push(a);
            proof {
                lemma_deep_view_push(order0, order, ga);
            }
            t = t + 1;
        }
        proof {
            lemma_order_correct(av, adj@, visited@, out@, order.deep_view());
        }
        Ok(order)
    }
}

} // verus!
