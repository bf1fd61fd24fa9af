//! Deterministic naming.
//!
//! Container and network names are pure functions of the naming prefix
//! and the project/app names; no engine-assigned identifier is ever
//! load-bearing for identity. The lemmas at the bottom state when the
//! derivations are collision-free: distinct inputs give distinct names
//! as long as project names contain no underscore (an underscore in a
//! project name can make two derivations collide, e.g. the project
//! `a_b` with app `c` against the project `a` with app `b_c`).

use vstd::prelude::*;

verus! {

/// Container name: `{prefix}{project}_{app}`.
pub open spec fn container_name_of(prefix: Seq<char>, project: Seq<char>, app: Seq<char>) -> Seq<
    char,
> {
    prefix + project + seq!['_'] + app
}

/// Internal (per-project) network name: `{prefix}{project}_net`.
pub open spec fn internal_net_of(prefix: Seq<char>, project: Seq<char>) -> Seq<char> {
    prefix + project + seq!['_', 'n', 'e', 't']
}

/// Proxy-facing network name: `{prefix}proxy_{project}_net`.
pub open spec fn proxy_net_of(prefix: Seq<char>, project: Seq<char>) -> Seq<char> {
    prefix + seq!['p', 'r', 'o', 'x', 'y', '_'] + project + seq!['_', 'n', 'e', 't']
}

/// Name of the reverse-proxy container itself: `{prefix}nginx`.
pub open spec fn proxy_container_name_of(prefix: Seq<char>) -> Seq<char> {
    prefix + seq!['n', 'g', 'i', 'n', 'x']
}

/// Derives the engine-level container name of an app.
pub fn container_name(prefix: &String, project: &String, app: &String) -> (r: String)
    ensures
        r@ == container_name_of(prefix@, project@, app@),
{
    proof {
        reveal_strlit("_");
        assert("_"@ =~= seq!['_']);
    }
    let mut r = prefix.clone();
    r.append(project.as_str());
    r.append("_");
    r.append(app.as_str());
    proof {
        assert(r@ =~= container_name_of(prefix@, project@, app@));
    }
    r
}

/// Derives the name of the reverse-proxy container.
pub fn proxy_container_name(prefix: &String) -> (r: String)
    ensures
        r@ == proxy_container_name_of(prefix@),
{
    proof {
        reveal_strlit("nginx");
        assert("nginx"@ =~= seq!['n', 'g', 'i', 'n', 'x']);
    }
    let mut r = prefix.clone();
    r.append("nginx");
    proof {
        assert(r@ =~= proxy_container_name_of(prefix@));
    }
    r
}

/// One of the two per-project networks.
pub enum Network {
    /// Joined by every app of the project; inter-app addressing happens
    /// here, by container name.
    Internal(String),
    /// Joined only by the reverse-proxy container and by apps that
    /// declare domains.
    Nginx(String),
}

impl Network {
    /// The engine-level network name.
    pub fn name(&self) -> (r: &String)
        ensures
            r@ == self.spec_name(),
    {
        match self {
            Network::Internal(n) => n,
            Network::Nginx(n) => n,
        }
    }

    /// The engine-level network name, in specifications.
    pub open spec fn spec_name(self) -> Seq<char> {
        match self {
            Network::Internal(n) => n@,
            Network::Nginx(n) => n@,
        }
    }

    /// Derives a project's internal network.
    pub fn internal_from_project(prefix: &String, project_name: &String) -> (r: Network)
        ensures
            r matches Network::Internal(n) && n@ == internal_net_of(prefix@, project_name@),
    {
        proof {
            reveal_strlit("_net");
            assert("_net"@ =~= seq!['_', 'n', 'e', 't']);
        }
        let mut n = prefix.clone();
        n.append(project_name.as_str());
        n.append("_net");
        proof {
            assert(n@ =~= internal_net_of(prefix@, project_name@));
        }
        Network::Internal(n)
    }

    /// Derives a project's proxy-facing network.
    pub fn nginx_from_project(prefix: &String, project_name: &String) -> (r: Network)
        ensures
            r matches Network::Nginx(n) && n@ == proxy_net_of(prefix@, project_name@),
    {
        proof {
            reveal_strlit("proxy_");
            reveal_strlit("_net");
            assert("proxy_"@ =~= seq!['p', 'r', 'o', 'x', 'y', '_']);
            assert("_net"@ =~= seq!['_', 'n', 'e', 't']);
        }
        let mut n = prefix.clone();
        n.append("proxy_");
        n.append(project_name.as_str());
        n.append("_net");
        proof {
            assert(n@ =~= proxy_net_of(prefix@, project_name@));
        }
        Network::Nginx(n)
    }
}

/// Appending the same sequence on the left preserves distinctness.
proof fn lemma_prefix_cancel(s: Seq<char>, a: Seq<char>, b: Seq<char>)
    requires
        s + a == s + b,
    ensures
        a == b,
{
    assert((s + a).len() == s.len() + a.len());
    assert((s + b).len() == s.len() + b.len());
    assert(a.len() == b.len());
    assert forall|i: int| 0 <= i < a.len() implies a[i] == b[i] by {
        assert((s + a)[s.len() + i] == a[i]);
        assert((s + b)[s.len() + i] == b[i]);
    }
    assert(a =~= b);
}

/// Appending the same sequence on the right preserves distinctness.
proof fn lemma_suffix_cancel(a: Seq<char>, b: Seq<char>, s: Seq<char>)
    requires
        a + s == b + s,
    ensures
        a == b,
{
    assert((a + s).len() == a.len() + s.len());
    assert((b + s).len() == b.len() + s.len());
    assert(a.len() == b.len());
    assert forall|i: int| 0 <= i < a.len() implies a[i] == b[i] by {
        assert((a + s)[i] == a[i]);
        assert((b + s)[i] == b[i]);
    }
    assert(a =~= b);
}

/// Container names are injective in (project, app) under a fixed
/// prefix, for underscore-free project names: the first underscore
/// after the prefix always sits right after the project part.
pub proof fn lemma_container_names_injective(
    prefix: Seq<char>,
    project1: Seq<char>,
    app1: Seq<char>,
    project2: Seq<char>,
    app2: Seq<char>,
)
    requires
        !project1.contains('_'),
        !project2.contains('_'),
        container_name_of(prefix, project1, app1) == container_name_of(prefix, project2, app2),
    ensures
        project1 == project2,
        app1 == app2,
{
    let t1 = project1 + seq!['_'] + app1;
    let t2 = project2 + seq!['_'] + app2;
    assert((prefix + project1 + seq!['_'] + app1) =~= prefix + t1);
    assert((prefix + project2 + seq!['_'] + app2) =~= prefix + t2);
    lemma_prefix_cancel(prefix, t1, t2);
    if project1.len() < project2.len() {
        assert(t1[project1.len() as int] == '_');
        assert(t2[project1.len() as int] == project2[project1.len() as int]);
        assert(project2.contains('_'));
    } else if project2.len() < project1.len() {
        assert(t2[project2.len() as int] == '_');
        assert(t1[project2.len() as int] == project1[project2.len() as int]);
        assert(project1.contains('_'));
    }
    assert(project1.len() == project2.len());
    assert forall|i: int| 0 <= i < project1.len() implies project1[i] == project2[i] by {
        assert(t1[i] == project1[i]);
        assert(t2[i] == project2[i]);
    }
    assert(project1 =~= project2);
    assert forall|i: int| 0 <= i < app1.len() implies app1[i] == app2[i] by {
        assert(t1[project1.len() + 1 + i] == app1[i]);
        assert(t2[project2.len() + 1 + i] == app2[i]);
    }
    assert(app1 =~= app2);
}

/// Internal network names are injective in the project name under a
/// fixed prefix.
pub proof fn lemma_internal_net_injective(prefix: Seq<char>, project1: Seq<char>, project2: Seq<char>)
    requires
        internal_net_of(prefix, project1) == internal_net_of(prefix, project2),
    ensures
        project1 == project2,
{
    assert(internal_net_of(prefix, project1) =~= prefix + (project1 + seq!['_', 'n', 'e', 't']));
    assert(internal_net_of(prefix, project2) =~= prefix + (project2 + seq!['_', 'n', 'e', 't']));
    lemma_prefix_cancel(prefix, project1 + seq!['_', 'n', 'e', 't'], project2 + seq!['_', 'n', 'e', 't']);
    lemma_suffix_cancel(project1, project2, seq!['_', 'n', 'e', 't']);
}

/// Proxy-facing network names are injective in the project name under
/// a fixed prefix.
pub proof fn lemma_proxy_net_injective(prefix: Seq<char>, project1: Seq<char>, project2: Seq<char>)
    requires
        proxy_net_of(prefix, project1) == proxy_net_of(prefix, project2),
    ensures
        project1 == project2,
{
    let head = prefix + seq!['p', 'r', 'o', 'x', 'y', '_'];
    assert(proxy_net_of(prefix, project1) =~= head + (project1 + seq!['_', 'n', 'e', 't']));
    assert(proxy_net_of(prefix, project2) =~= head + (project2 + seq!['_', 'n', 'e', 't']));
    lemma_prefix_cancel(head, project1 + seq!['_', 'n', 'e', 't'], project2 + seq!['_', 'n', 'e', 't']);
    lemma_suffix_cancel(project1, project2, seq!['_', 'n', 'e', 't']);
}

/// An internal network name never collides with a proxy-facing network
/// name, for non-empty underscore-free project names.
pub proof fn lemma_internal_proxy_distinct(
    prefix: Seq<char>,
    project1: Seq<char>,
    project2: Seq<char>,
)
    requires
        !project1.contains('_'),
        project1.len() > 0,
    ensures
        internal_net_of(prefix, project1) != proxy_net_of(prefix, project2),
{
    if internal_net_of(prefix, project1) == proxy_net_of(prefix, project2) {
        let t1 = project1 + seq!['_', 'n', 'e', 't'];
        let t2 = seq!['p', 'r', 'o', 'x', 'y', '_'] + project2 + seq!['_', 'n', 'e', 't'];
        assert(internal_net_of(prefix, project1) =~= prefix + t1);
        assert(proxy_net_of(prefix, project2) =~= prefix + t2);
        lemma_prefix_cancel(prefix, t1, t2);
        if project1.len() < 6 {
            // the underscore closing `proxy_` falls inside `_net`'s
            // position range only at the very first slot
            assert(t2[5] == '_');
            assert(t1[5] == if 5 < project1.len() {
                project1[5]
            } else {
                seq!['_', 'n', 'e', 't'][5 - project1.len()]
            });
            if project1.len() == 5 {
                assert(t1[5] == '_');
                assert(t1[6] == 'n');
                assert(t2[6] == project2[0] || t2[6] == '_');
                // lengths: t1.len() == 9, t2.len() == 10 + project2.len()
                assert(t1.len() == 9);
                assert(t2.len() == 10 + project2.len());
                assert(false);
            } else {
                // t1.len() == project1.len() + 4 <= 9 and lengths match
                assert(t1.len() == project1.len() + 4);
                assert(t2.len() == 10 + project2.len());
                assert(project1.len() == 6 + project2.len());
                assert(false);
            }
        } else {
            assert(t2[5] == '_');
            assert(t1[5] == project1[5]);
            assert(project1.contains('_'));
            assert(false);
        }
    }
}

} // verus!
