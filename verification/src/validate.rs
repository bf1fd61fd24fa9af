//! App-set validation.
//!
//! All conditions that make a project undeployable are rejected here,
//! before any engine command is issued: duplicate app names, apps
//! depending on themselves or on each other directly, dependencies on
//! absent apps, and exposed apps without a contact email. Self and
//! mutual dependencies are rejected separately from the general cycle
//! check in the resolver to give clearer diagnostics.

use vstd::prelude::*;

use crate::errors::ValidationError;
use crate::models::{App, AppView};
use crate::resolve::{deps_closed, names_unique};

verus! {

/// No app depends on itself.
pub open spec fn no_self_dep(apps: Seq<AppView>) -> bool {
    forall|i: int|
        0 <= i < apps.len() ==> !(#[trigger] apps[i].depends_on.contains(apps[i].name))
}

/// No two distinct apps depend directly on each other.
pub open spec fn no_mutual_dep(apps: Seq<AppView>) -> bool {
    forall|i: int, j: int|
        0 <= i < apps.len() && 0 <= j < apps.len() && i != j ==> !((
        #[trigger] apps[i].depends_on.contains(apps[j].name)) && (
        #[trigger] apps[j].depends_on.contains(apps[i].name)))
}

/// Every app that declares domains also carries a contact email. This
/// is enforced unconditionally, independent of the certificate method:
/// it binds even apps on the self-signed path, which needs no contact
/// address. Deliberately kept as stated — callers that find it too
/// strict should take it up here rather than relax issuance.
pub open spec fn emails_present(apps: Seq<AppView>) -> bool {
    forall|i: int|
        0 <= i < apps.len() && (#[trigger] apps[i].domains) is Some ==> apps[i].email is Some
}

/// The whole validation contract: what must hold of an app set before
/// the engine sees it.
pub open spec fn valid_apps(apps: Seq<AppView>) -> bool {
    &&& names_unique(apps)
    &&& no_self_dep(apps)
    &&& deps_closed(apps)
    &&& no_mutual_dep(apps)
    &&& emails_present(apps)
}

/// Whether `names` holds an entry whose view is `name@`.
pub fn contains_name(names: &Vec<String>, name: &String) -> (r: bool)
    ensures
        r == names.deep_view().contains(name@),
{
    let mut i: usize = 0;
    while i < names.len()
        invariant
            i <= names@.len(),
            forall|j: int| 0 <= j < i ==> #[trigger] names.deep_view()[j] != name@,
        decreases names@.len() - i,
    {
        if names[i].eq(name) {
            proof {
                assert(names.deep_view()[i as int] == name@);
            }
            return true;
        }
        i = i + 1;
    }
    proof {
        if names.deep_view().contains(name@) {
            let j = choose|j: int|
                0 <= j < names.deep_view().len() && #[trigger] names.deep_view()[j] == name@;
            assert(false);
        }
    }
    false
}

/// Whether some app in the set is named `name@`.
fn app_name_exists(apps: &Vec<App>, name: &String) -> (r: bool)
    ensures
        r == exists|j: int|
            0 <= j < apps.deep_view().len() && #[trigger] apps.deep_view()[j].name == name@,
{
    let mut i: usize = 0;
    while i < apps.len()
        invariant
            i <= apps@.len(),
            forall|j: int| 0 <= j < i ==> #[trigger] apps.deep_view()[j].name != name@,
        decreases apps@.len() - i,
    {
        if apps[i].name.eq(name) {
            proof {
                assert(apps.deep_view()[i as int].name == name@);
            }
            return true;
        }
        i = i + 1;
    }
    false
}

/// First pair of apps sharing a name, if any.
fn check_duplicates(apps: &Vec<App>) -> (r: Option<String>)
    ensures
        r matches Some(n) ==> !names_unique(apps.deep_view()) && exists|i: int, j: int|
            0 <= i < j < apps.deep_view().len() && #[trigger] apps.deep_view()[i].name == n@
                && #[trigger] apps.deep_view()[j].name == n@,
        r is None ==> names_unique(apps.deep_view()),
{
    let ghost av = apps.deep_view();
    let mut i: usize = 0;
    while i < apps.len()
        invariant
            i <= apps@.len(),
            av == apps.deep_view(),
            forall|x: int, y: int| 0 <= x < i && x < y < av.len() ==> #[trigger] av[x].name
                != #[trigger] av[y].name,
        decreases apps@.len() - i,
    {
        let mut j: usize = i + 1;
        while j < apps.len()
            invariant
                i < j,
                i < apps@.len(),
                j <= apps@.len(),
                av == apps.deep_view(),
                forall|y: int| i < y < j ==> #[trigger] av[y].name != av[i as int].name,
            decreases apps@.len() - j,
        {
            if apps[i].name.eq(&apps[j].name) {
                proof {
                    assert(av[i as int].name == av[j as int].name);
                }
                return Some(apps[i].name.clone());
            }
            j = j + 1;
        }
        proof {
            assert forall|y: int| i < y < av.len() implies #[trigger] av[y].name
                != av[i as int].name by {}
        }
        i = i + 1;
    }
    None
}

/// First app depending on itself, if any.
fn check_self_deps(apps: &Vec<App>) -> (r: Option<String>)
    ensures
        r matches Some(n) ==> !no_self_dep(apps.deep_view()) && exists|i: int|
            0 <= i < apps.deep_view().len() && #[trigger] apps.deep_view()[i].name == n@
                && apps.deep_view()[i].depends_on.contains(n@),
        r is None ==> no_self_dep(apps.deep_view()),
{
    let ghost av = apps.deep_view();
    let mut i: usize = 0;
    while i < apps.len()
        invariant
            i <= apps@.len(),
            av == apps.deep_view(),
            forall|x: int| 0 <= x < i ==> !(#[trigger] av[x].depends_on.contains(av[x].name)),
        decreases apps@.len() - i,
    {
        if contains_name(&apps[i].depends_on, &apps[i].name) {
            proof {
                assert(av[i as int].depends_on.contains(av[i as int].name));
            }
            return Some(apps[i].name.clone());
        }
        i = i + 1;
    }
    None
}

/// First dependency that names no app in the set, if any, as the pair
/// (depending app, missing name).
fn check_missing_deps(apps: &Vec<App>) -> (r: Option<(String, String)>)
    ensures
        r matches Some(p) ==> !deps_closed(apps.deep_view()) && (exists|i: int|
            0 <= i < apps.deep_view().len() && #[trigger] apps.deep_view()[i].name == p.0@
                && apps.deep_view()[i].depends_on.contains(p.1@)) && !(exists|j: int|
            0 <= j < apps.deep_view().len() && #[trigger] apps.deep_view()[j].name == p.1@),
        r is None ==> deps_closed(apps.deep_view()),
{
    let ghost av = apps.deep_view();
    let mut i: usize = 0;
    while i < apps.len()
        invariant
            i <= apps@.len(),
            av == apps.deep_view(),
            forall|x: int, d: Seq<char>|
                0 <= x < i && #[trigger] av[x].depends_on.contains(d) ==> exists|j: int|
                    0 <= j < av.len() && #[trigger] av[j].name == d,
        decreases apps@.len() - i,
    {
        let deps_len = apps[i].depends_on.len();
        let mut t: usize = 0;
        while t < deps_len
            invariant
                t <= deps_len,
                i < apps@.len(),
                av == apps.deep_view(),
                deps_len == av[i as int].depends_on.len(),
                forall|s: int|
                    0 <= s < t ==> exists|j: int| 0 <= j < av.len() && #[trigger] av[j].name
                        == (#[trigger] av[i as int].depends_on[s]),
            decreases deps_len - t,
        {
            if !app_name_exists(apps, &apps[i].depends_on[t]) {
                let a_name = apps[i].name.clone();
                let d_name = apps[i].depends_on[t].clone();
                proof {
                    let ii = i as int;
                    assert(av[ii].name == a_name@);
                    assert(av[ii].depends_on[t as int] == d_name@);
                    assert(av[ii].depends_on.contains(d_name@));
                    assert(!(exists|j: int|
                        0 <= j < av.len() && #[trigger] av[j].name == d_name@));
                    assert(!deps_closed(av));
                    assert(exists|x: int|
                        0 <= x < av.len() && #[trigger] av[x].name == a_name@
                            && av[x].depends_on.contains(d_name@));
                }
                return Some((a_name, d_name));
            }
            t = t + 1;
        }
        proof {
            assert forall|d: Seq<char>| #[trigger] av[i as int].depends_on.contains(d)
                implies exists|j: int| 0 <= j < av.len() && #[trigger] av[j].name == d by {
                let s = choose|s: int|
                    0 <= s < av[i as int].depends_on.len() && av[i as int].depends_on[s] == d;
            }
        }
        i = i + 1;
    }
    None
}

/// First pair of apps depending directly on each other, if any.
fn check_mutual_deps(apps: &Vec<App>) -> (r: Option<(String, String)>)
    ensures
        r matches Some(p) ==> !no_mutual_dep(apps.deep_view()) && exists|i: int, j: int|
            0 <= i < apps.deep_view().len() && 0 <= j < apps.deep_view().len() && i != j && (
            #[trigger] apps.deep_view()[i]).name == p.0@ && (#[trigger] apps.deep_view()[j]).name
                == p.1@ && apps.deep_view()[i].depends_on.contains(p.1@)
                && apps.deep_view()[j].depends_on.contains(p.0@),
        r is None ==> no_mutual_dep(apps.deep_view()),
{
    let ghost av = apps.deep_view();
    let mut i: usize = 0;
    while i < apps.len()
        invariant
            i <= apps@.len(),
            av == apps.deep_view(),
            forall|x: int, y: int|
                0 <= x < i && 0 <= y < av.len() && x != y ==> !((
                #[trigger] av[x].depends_on.contains(av[y].name)) && (
                #[trigger] av[y].depends_on.contains(av[x].name))),
        decreases apps@.len() - i,
    {
        let mut j: usize = 0;
        while j < apps.len()
            invariant
                i < apps@.len(),
                j <= apps@.len(),
                av == apps.deep_view(),
                forall|y: int|
                    0 <= y < j && i as int != y ==> !((
                    #[trigger] av[i as int].depends_on.contains(av[y].name)) && (
                    #[trigger] av[y].depends_on.contains(av[i as int].name))),
            decreases apps@.len() - j,
        {
            if j != i {
                if contains_name(&apps[i].depends_on, &apps[j].name) && contains_name(
                    &apps[j].depends_on,
                    &apps[i].name,
                ) {
                    proof {
                        assert(av[i as int].depends_on.contains(av[j as int].name));
                        assert(av[j as int].depends_on.contains(av[i as int].name));
                        assert(!no_mutual_dep(av));
                    }
                    return Some((apps[i].name.clone(), apps[j].name.clone()));
                }
            }
            j = j + 1;
        }
        i = i + 1;
    }
    None
}

/// First exposed app without a contact email, if any.
fn check_emails(apps: &Vec<App>) -> (r: Option<String>)
    ensures
        r matches Some(n) ==> !emails_present(apps.deep_view()) && exists|i: int|
            0 <= i < apps.deep_view().len() && (#[trigger] apps.deep_view()[i]).name == n@
                && apps.deep_view()[i].domains is Some && apps.deep_view()[i].email is None,
        r is None ==> emails_present(apps.deep_view()),
{
    let ghost av = apps.deep_view();
    let mut i: usize = 0;
    while i < apps.len()
        invariant
            i <= apps@.len(),
            av == apps.deep_view(),
            forall|x: int| 0 <= x < i && (#[trigger] av[x].domains) is Some ==> av[x].email
                is Some,
        decreases apps@.len() - i,
    {
        if apps[i].domains.is_some() && apps[i].email.is_none() {
            proof {
                assert(av[i as int].domains is Some);
                assert(av[i as int].email is None);
                assert(!emails_present(av));
            }
            return Some(apps[i].name.clone());
        }
        i = i + 1;
    }
    None
}

impl App {
    /// Validates an app set ahead of deployment.
    ///
    /// Returns `Ok` exactly when the set satisfies [`valid_apps`]; each
    /// error variant reports the offending apps. Checks run in phases
    /// (duplicates, self-dependencies, missing targets, mutual
    /// dependencies, emails), so an error of a later phase implies the
    /// earlier phases passed. Cycles of length three or more are
    /// reported by resolution, not here.
    pub fn validate(apps: &Vec<App>) -> (r: Result<(), ValidationError>)
        ensures
            r matches Ok(_) <==> valid_apps(apps.deep_view()),
            r matches Err(e) ==> match e {
                ValidationError::DuplicateName(n) => !names_unique(apps.deep_view())
                    && exists|i: int, j: int|
                    0 <= i < j < apps.deep_view().len() && #[trigger] apps.deep_view()[i].name
                        == n@ && #[trigger] apps.deep_view()[j].name == n@,
                ValidationError::SelfDependency(n) => names_unique(apps.deep_view())
                    && !no_self_dep(apps.deep_view()) && exists|i: int|
                    0 <= i < apps.deep_view().len() && #[trigger] apps.deep_view()[i].name == n@
                        && apps.deep_view()[i].depends_on.contains(n@),
                ValidationError::MissingDependency(a, d) => names_unique(apps.deep_view())
                    && no_self_dep(apps.deep_view()) && !deps_closed(apps.deep_view())
                    && exists|i: int|
                    0 <= i < apps.deep_view().len() && #[trigger] apps.deep_view()[i].name == a@
                        && apps.deep_view()[i].depends_on.contains(d@),
                ValidationError::MutualDependency(a, b) => names_unique(apps.deep_view())
                    && no_self_dep(apps.deep_view()) && deps_closed(apps.deep_view())
                    && !no_mutual_dep(apps.deep_view()) && exists|i: int, j: int|
                    0 <= i < apps.deep_view().len() && 0 <= j < apps.deep_view().len() && i != j
                        && (#[trigger] apps.deep_view()[i]).name == a@ && (
                    #[trigger] apps.deep_view()[j]).name == b@
                        && apps.deep_view()[i].depends_on.contains(b@)
                        && apps.deep_view()[j].depends_on.contains(a@),
                ValidationError::MissingEmail(n) => names_unique(apps.deep_view())
                    && no_self_dep(apps.deep_view()) && deps_closed(apps.deep_view())
                    && no_mutual_dep(apps.deep_view()) && !emails_present(apps.deep_view())
                    && exists|i: int|
                    0 <= i < apps.deep_view().len() && (#[trigger] apps.deep_view()[i]).name
                        == n@ && apps.deep_view()[i].domains is Some && apps.deep_view()[i].email
                        is None,
                ValidationError::CircularDependency(_) => false,
            },
    {
        if let Some(n) = check_duplicates(apps) {
            return Err(ValidationError::DuplicateName(n));
        }
        if let Some(n) = check_self_deps(apps) {
            return Err(ValidationError::SelfDependency(n));
        }
        if let Some(p) = check_missing_deps(apps) {
            return Err(ValidationError::MissingDependency(p.0, p.1));
        }
        if let Some(p) = check_mutual_deps(apps) {
            return Err(ValidationError::MutualDependency(p.0, p.1));
        }
        if let Some(n) = check_emails(apps) {
            return Err(ValidationError::MissingEmail(n));
        }
        Ok(())
    }
}

} // verus!
