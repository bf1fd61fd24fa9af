//! Project-level command decisions.
//!
//! Removing projects partitions the registry into the projects to tear
//! down and the projects to keep; a full reset gathers the networks and
//! volumes to delete without naming any twice.

use vstd::prelude::*;

use crate::errors::ValidationError;
use crate::models::{App, Project, ProjectView};
use crate::resolve::{dependency_ordered, has_cycle, same_apps};
use crate::state::{spec_add_or_update, AppState};
use crate::topology::no_dups;
use crate::validate::{contains_name, valid_apps};

verus! {

/// Admits a project into the registry: validates its app set, resolves
/// the dependency order, and registers the project. On any failure the
/// registry is untouched — validation is fatal before any engine call,
/// with no side effects to roll back. The caller persists the state and
/// rolls the returned order out, app by app.
pub fn prepare_deploy(state: &mut AppState, project: &Project) -> (r: Result<
    Vec<App>,
    ValidationError,
>)
    ensures
        r matches Ok(order) ==> {
            &&& valid_apps(project@.apps)
            &&& !has_cycle(project@.apps)
            &&& same_apps(order.deep_view(), project@.apps)
            &&& dependency_ordered(order.deep_view())
            &&& final(state)@.projects == spec_add_or_update(old(state)@.projects, project@)
            &&& final(state)@.container_prefix == old(state)@.container_prefix
            &&& final(state)@.image_prefix == old(state)@.image_prefix
            &&& final(state)@.network_prefix == old(state)@.network_prefix
        },
        r is Err ==> final(state)@ == old(state)@ && (!valid_apps(project@.apps) || has_cycle(
            project@.apps,
        )),
{
    if let Err(e) = App::validate(&project.apps) {
        return Err(e);
    }
    let order = match App::topological_sort_by_dependenceis(&project.apps) {
        Ok(order) => order,
        Err(e) => {
            return Err(e);
        },
    };
    state.add_or_update_project(project);
    Ok(order)
}

/// Splits the registry by name: projects named in `names` are torn
/// down, the rest stay, both in their original order.
pub fn split_projects(projects: &Vec<Project>, names: &Vec<String>) -> (r: (
    Vec<Project>,
    Vec<Project>,
))
    ensures
        r.0.deep_view() == projects.deep_view().filter(
            |p: ProjectView| names.deep_view().contains(p.name),
        ),
        r.1.deep_view() == projects.deep_view().filter(
            |p: ProjectView| !names.deep_view().contains(p.name),
        ),
{
    let ghost pv = projects.deep_view();
    let ghost pred = |p: ProjectView| names.deep_view().contains(p.name);
    let ghost npred = |p: ProjectView| !names.deep_view().contains(p.name);
    let mut remove: Vec<Project> = Vec::new();
    let mut keep: Vec<Project> = Vec::new();
    let mut i: usize = 0;
    while i < projects.len()
        invariant
            i <= projects@.len(),
            pv == projects.deep_view(),
            pred == (|p: ProjectView| names.deep_view().contains(p.name)),
            npred == (|p: ProjectView| !names.deep_view().contains(p.name)),
            remove.deep_view() == pv.take(i as int).filter(pred),
            keep.deep_view() == pv.take(i as int).filter(npred),
        decreases projects@.len() - i,
    {
        proof {
            reveal(Seq::filter);
            assert(pv.take(i as int + 1).drop_last() =~= pv.take(i as int));
            assert(pv.take(i as int + 1).last() == pv[i as int]);
        }
        if contains_name(names, &projects[i].name) {
            proof {
                assert(pred(pv[i as int]));
                assert(!npred(pv[i as int]));
            }
            let ghost r0 = remove;
            let p = projects[i].clone();
            let ghost gp = p;
            remove.push(p);
            proof {
                reveal(Seq::filter);
                crate::vecs::lemma_deep_view_push(r0, remove, gp);
                assert(remove.deep_view() =~= pv.take(i as int + 1).filter(pred));
                assert(keep.deep_view() =~= pv.take(i as int + 1).filter(npred));
            }
        } else {
            proof {
                assert(!pred(pv[i as int]));
                assert(npred(pv[i as int]));
            }
            let ghost k0 = keep;
            let p = projects[i].clone();
            let ghost gp = p;
            keep.push(p);
            proof {
                reveal(Seq::filter);
                crate::vecs::lemma_deep_view_push(k0, keep, gp);
                assert(keep.deep_view() =~= pv.take(i as int + 1).filter(npred));
                assert(remove.deep_view() =~= pv.take(i as int + 1).filter(pred));
            }
        }
        i = i + 1;
    }
    proof {
        assert(pv.take(projects@.len() as int) =~= pv);
    }
    (remove, keep)
}

/// `s` begins with `p`.
pub open spec fn spec_starts_with(s: Seq<char>, p: Seq<char>) -> bool {
    s.len() >= p.len() && s.take(p.len() as int) == p
}

/// Whether `s` begins with `p`.
pub fn starts_with_str(s: &str, p: &str) -> (r: bool)
    ensures
        r == spec_starts_with(s@, p@),
{
    let n = s.unicode_len();
    let m = p.unicode_len();
    if n < m {
        proof {
            assert(!spec_starts_with(s@, p@));
        }
        return false;
    }
    let mut i: usize = 0;
    while i < m
        invariant
            i <= m,
            m <= n,
            n == s@.len(),
            m == p@.len(),
            forall|j: int| 0 <= j < i ==> s@[j] == p@[j],
        decreases m - i,
    {
        if s.get_char(i) != p.get_char(i) {
            proof {
                assert(s@.take(p@.len() as int)[i as int] == s@[i as int]);
                assert(s@.take(p@.len() as int) != p@);
            }
            return false;
        }
        i = i + 1;
    }
    proof {
        assert(s@.take(p@.len() as int) =~= p@);
    }
    true
}

/// Picks, from engine-reported (network name, network id) pairs, the
/// ids of the networks whose names carry this installation's prefix: a
/// reset deletes only networks it created.
pub fn filter_prefixed_ids(pairs: &Vec<(String, String)>, prefix: &String) -> (r: Vec<String>)
    ensures
        r.deep_view() == pairs.deep_view().filter(
            |p: (Seq<char>, Seq<char>)| spec_starts_with(p.0, prefix@),
        ).map_values(|p: (Seq<char>, Seq<char>)| p.1),
{
    let ghost pv = pairs.deep_view();
    let ghost pred = |p: (Seq<char>, Seq<char>)| spec_starts_with(p.0, prefix@);
    let ghost f = |p: (Seq<char>, Seq<char>)| p.1;
    let mut r: Vec<String> = Vec::new();
    let mut i: usize = 0;
    while i < pairs.len()
        invariant
            i <= pairs@.len(),
            pv == pairs.deep_view(),
            pred == (|p: (Seq<char>, Seq<char>)| spec_starts_with(p.0, prefix@)),
            f == (|p: (Seq<char>, Seq<char>)| p.1),
            r.deep_view() == pv.take(i as int).filter(pred).map_values(f),
        decreases pairs@.len() - i,
    {
        proof {
            reveal(Seq::filter);
            assert(pv.take(i as int + 1).drop_last() =~= pv.take(i as int));
            assert(pv.take(i as int + 1).last() == pv[i as int]);
        }
        if starts_with_str(pairs[i].0.as_str(), prefix.as_str()) {
            proof {
                assert(pred(pv[i as int]));
            }
            let ghost r0 = r;
            let id = pairs[i].1.clone();
            let ghost gid = id;
            r.push(id);
            proof {
                crate::vecs::lemma_deep_view_push(r0, r, gid);
                assert(pv.take(i as int + 1).filter(pred) == pv.take(i as int).filter(pred).push(
                    pv[i as int],
                ));
                assert(r.deep_view() =~= pv.take(i as int + 1).filter(pred).map_values(f));
            }
        } else {
            proof {
                reveal(Seq::filter);
                assert(!pred(pv[i as int]));
                assert(pv.take(i as int + 1).filter(pred) == pv.take(i as int).filter(pred));
            }
        }
        i = i + 1;
    }
    proof {
        assert(pv.take(pairs@.len() as int) =~= pv);
    }
    r
}

/// `s` with later repetitions dropped: each value keeps its first
/// occurrence only.
pub open spec fn spec_dedup<T>(s: Seq<T>) -> Seq<T>
    decreases s.len(),
{
    if s.len() == 0 {
        s
    } else if s.drop_last().contains(s.last()) {
        spec_dedup(s.drop_last())
    } else {
        spec_dedup(s.drop_last()).push(s.last())
    }
}

/// Deduplicates a list of names, keeping first occurrences in order: a
/// full reset must delete each gathered network and volume exactly
/// once.
pub fn dedup_strings(items: &Vec<String>) -> (r: Vec<String>)
    ensures
        r.deep_view() == spec_dedup(items.deep_view()),
        no_dups(r.deep_view()),
        forall|i: int|
            0 <= i < items.deep_view().len() ==> r.deep_view().contains(
                #[trigger] items.deep_view()[i],
            ),
        forall|i: int|
            0 <= i < r.deep_view().len() ==> items.deep_view().contains(
                #[trigger] r.deep_view()[i],
            ),
{
    let ghost iv = items.deep_view();
    let mut r: Vec<String> = Vec::new();
    let mut i: usize = 0;
    while i < items.len()
        invariant
            i <= items@.len(),
            iv == items.deep_view(),
            r.deep_view() == spec_dedup(iv.take(i as int)),
            no_dups(r.deep_view()),
            forall|j: int| 0 <= j < i ==> r.deep_view().contains(#[trigger] iv[j]),
            forall|j: int|
                0 <= j < r.deep_view().len() ==> iv.take(i as int).contains(
                    #[trigger] r.deep_view()[j],
                ),
        decreases items@.len() - i,
    {
        proof {
            assert(iv.take(i as int + 1).drop_last() =~= iv.take(i as int));
            assert(iv.take(i as int + 1).last() == iv[i as int]);
        }
        if !contains_name(&r, &items[i]) {
            proof {
                // the scanned prefix cannot hold this value either
                if iv.take(i as int).contains(iv[i as int]) {
                    let j = choose|j: int|
                        0 <= j < i && #[trigger] iv.take(i as int)[j] == iv[i as int];
                    assert(iv[j] == iv[i as int]);
                    assert(r.deep_view().contains(iv[j]));
                }
            }
            let ghost r0 = r;
            let s = items[i].clone();
            let ghost gs = s;
            r.push(s);
            proof {
                crate::vecs::lemma_deep_view_push(r0, r, gs);
                assert(r.deep_view() == spec_dedup(iv.take(i as int + 1)));
                assert(r.deep_view().last() == iv[i as int]);
                assert forall|j1: int, j2: int| 0 <= j1 < j2 < r.deep_view().len() implies r
                    .deep_view()[j1] != r.deep_view()[j2] by {
                    if j2 == r.deep_view().len() - 1 {
                        if r.deep_view()[j1] == iv[i as int] {
                            assert(r0.deep_view().contains(iv[i as int]));
                        }
                    }
                }
                assert forall|j: int| 0 <= j < i + 1 implies r.deep_view().contains(
                    #[trigger] iv[j],
                ) by {
                    if j < i as int {
                        let x = choose|x: int|
                            0 <= x < r0.deep_view().len() && #[trigger] r0.deep_view()[x] == iv[j];
                        assert(r.deep_view()[x] == iv[j]);
                    } else {
                        assert(r.deep_view().last() == iv[j]);
                    }
                }
                assert forall|j: int| 0 <= j < r.deep_view().len() implies iv.take(
                    i as int + 1,
                ).contains(#[trigger] r.deep_view()[j]) by {
                    if j < r0.deep_view().len() {
                        assert(r.deep_view()[j] == r0.deep_view()[j]);
                        let x = choose|x: int|
                            0 <= x < i && #[trigger] iv.take(i as int)[x] == r0.deep_view()[j];
                        assert(iv.take(i as int + 1)[x] == r.deep_view()[j]);
                    } else {
                        assert(iv.take(i as int + 1)[i as int] == r.deep_view()[j]);
                    }
                }
            }
        } else {
            proof {
                // the value sits in the accumulator, hence in the prefix
                let j = choose|j: int|
                    0 <= j < r.deep_view().len() && #[trigger] r.deep_view()[j] == iv[i as int];
                assert(iv.take(i as int).contains(iv[i as int]));
                assert(r.deep_view() == spec_dedup(iv.take(i as int + 1)));
                assert forall|k: int| 0 <= k < i + 1 implies r.deep_view().contains(
                    #[trigger] iv[k],
                ) by {}
                assert forall|k: int| 0 <= k < r.deep_view().len() implies iv.take(
                    i as int + 1,
                ).contains(#[trigger] r.deep_view()[k]) by {
                    let x = choose|x: int|
                        0 <= x < i && #[trigger] iv.take(i as int)[x] == r.deep_view()[k];
                    assert(iv.take(i as int + 1)[x] == r.deep_view()[k]);
                }
            }
        }
        i = i + 1;
    }
    proof {
        assert(iv.take(items@.len() as int) =~= iv);
        assert forall|j: int| 0 <= j < r.deep_view().len() implies iv.contains(
            #[trigger] r.deep_view()[j],
        ) by {
            let x = choose|x: int|
                0 <= x < iv.take(items@.len() as int).len() && #[trigger] iv.take(
                    items@.len() as int,
                )[x] == r.deep_view()[j];
            assert(iv[x] == r.deep_view()[j]);
        }
    }
    r
}

} // verus!
