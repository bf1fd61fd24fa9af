//! The project/app data model.
//!
//! An `App` is one deployable unit (one container) inside a `Project`;
//! a `Project` is a named group of apps deployed and torn down
//! together. Both are plain-value records; their mathematical views
//! (`AppView`, `ProjectView`) are what every contract in this crate
//! speaks about.

use vstd::prelude::*;

verus! {

/// Mathematical view of an [`App`]: every field as a sequence value.
pub ghost struct AppView {
    pub name: Seq<char>,
    pub image: Seq<char>,
    pub container_name: Seq<char>,
    pub port: Option<Seq<char>>,
    pub env_vars: Seq<Seq<char>>,
    pub volumes: Seq<Seq<char>>,
    pub depends_on: Seq<Seq<char>>,
    pub domains: Option<Seq<Seq<char>>>,
    pub email: Option<Seq<char>>,
    pub openssl: Option<bool>,
    pub privileged: bool,
    pub network_aliases: Seq<Seq<char>>,
}

impl AppView {
    /// The app is externally exposed: it declares at least one domain.
    pub open spec fn exposed(self) -> bool {
        self.domains matches Some(ds) && ds.len() > 0
    }
}

/// One deployable unit (one container) within a project.
pub struct App {
    /// Name, unique within its project.
    pub name: String,
    /// Image reference the container is created from.
    pub image: String,
    /// Derived engine-level container name (`{prefix}{project}_{name}`).
    pub container_name: String,
    /// The single served port; when used implicitly it defaults to 80.
    pub port: Option<String>,
    /// Environment variable list (`KEY=value` entries).
    pub env_vars: Vec<String>,
    /// Volume bind list.
    pub volumes: Vec<String>,
    /// Names of apps in the same project that must start first.
    pub depends_on: Vec<String>,
    /// Domains served by this app; a non-empty list means the app is
    /// externally exposed through the proxy.
    pub domains: Option<Vec<String>>,
    /// Contact address for certificate issuance; required whenever
    /// `domains` is set, independent of the certificate method.
    pub email: Option<String>,
    /// Selects self-signed issuance instead of ACME.
    pub openssl: Option<bool>,
    /// Run the container privileged.
    pub privileged: bool,
    /// Extra DNS aliases registered on the container's networks.
    pub network_aliases: Vec<String>,
}

impl View for App {
    type V = AppView;

    open spec fn view(&self) -> AppView {
        AppView {
            name: self.name@,
            image: self.image@,
            container_name: self.container_name@,
            port: self.port.deep_view(),
            env_vars: self.env_vars.deep_view(),
            volumes: self.volumes.deep_view(),
            depends_on: self.depends_on.deep_view(),
            domains: self.domains.deep_view(),
            email: self.email.deep_view(),
            openssl: self.openssl,
            privileged: self.privileged,
            network_aliases: self.network_aliases.deep_view(),
        }
    }
}

impl DeepView for App {
    type V = AppView;

    open spec fn deep_view(&self) -> AppView {
        self.view()
    }
}

impl Clone for App {
    fn clone(&self) -> (r: Self)
        ensures
            r@ == self@,
    {
        let r = App {
            name: self.name.clone(),
            image: self.image.clone(),
            container_name: self.container_name.clone(),
            port: self.port.clone(),
            env_vars: self.env_vars.clone(),
            volumes: self.volumes.clone(),
            depends_on: self.depends_on.clone(),
            domains: self.domains.clone(),
            email: self.email.clone(),
            openssl: self.openssl,
            privileged: self.privileged,
            network_aliases: self.network_aliases.clone(),
        };
        proof {
            assert(r@.port =~~= self@.port);
            assert(r@.env_vars =~~= self@.env_vars);
            assert(r@.volumes =~~= self@.volumes);
            assert(r@.depends_on =~~= self@.depends_on);
            assert(r@.domains =~~= self@.domains);
            assert(r@.email =~~= self@.email);
            assert(r@.network_aliases =~~= self@.network_aliases);
            assert(r@ =~~= self@);
        }
        r
    }
}

/// Mathematical view of a [`Project`].
pub ghost struct ProjectView {
    pub name: Seq<char>,
    pub apps: Seq<AppView>,
}

/// A named group of apps deployed and torn down together.
pub struct Project {
    pub name: String,
    pub apps: Vec<App>,
}

impl View for Project {
    type V = ProjectView;

    open spec fn view(&self) -> ProjectView {
        ProjectView { name: self.name@, apps: self.apps.deep_view() }
    }
}

impl DeepView for Project {
    type V = ProjectView;

    open spec fn deep_view(&self) -> ProjectView {
        self.view()
    }
}

impl Clone for Project {
    fn clone(&self) -> (r: Self)
        ensures
            r@ == self@,
    {
        let r = Project { name: self.name.clone(), apps: clone_apps(&self.apps) };
        proof {
            assert(r@ =~~= self@);
        }
        r
    }
}

/// Clones a list of apps, preserving its view element for element.
pub fn clone_apps(apps: &Vec<App>) -> (r: Vec<App>)
    ensures
        r.deep_view() == apps.deep_view(),
{
    let mut r: Vec<App> = Vec::new();
    let mut i: usize = 0;
    while i < apps.len()
        invariant
            i <= apps.len(),
            r.deep_view() =~= apps.deep_view().take(i as int),
        decreases apps.len() - i,
    {
        let ghost r0 = r.deep_view();
        let ghost rv0 = r@;
        let a = apps[i].clone();
        proof {
            assert(a@ == apps.deep_view()[i as int]);
        }
        r.push(a);
        proof {
            assert(r0.len() == i as int);
            assert(rv0.len() == i as int);
            assert forall|j: int| 0 <= j < r@.len() implies r.deep_view()[j]
                == apps.deep_view().take(i as int + 1)[j] by {
                assert(r@ == rv0.push(a));
                if j < i as int {
                    assert(r@[j] == rv0[j]);
                    assert(r.deep_view()[j] == r@[j].deep_view());
                    assert(r0[j] == rv0[j].deep_view());
                } else {
                    assert(r@[j] == a);
                }
            }
            assert(r.deep_view() =~= apps.deep_view().take(i as int + 1));
        }
        i = i + 1;
    }
    proof {
        assert(r.deep_view() =~= apps.deep_view());
    }
    r
}

} // verus!
