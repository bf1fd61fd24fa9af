//! The durable project/app registry.
//!
//! The state holds the three naming prefixes and the project list. It
//! is loaded once at process start and rewritten in full after every
//! mutation; the persistence itself (one structured file) lives outside
//! the library, which only defines the mutations.

use vstd::prelude::*;

use crate::models::{clone_apps, Project, ProjectView};
use crate::DEFAULT_PREFIX;
use crate::vecs::lemma_deep_view_push;

verus! {

/// Mathematical view of an [`AppState`].
pub ghost struct AppStateView {
    pub container_prefix: Seq<char>,
    pub image_prefix: Seq<char>,
    pub network_prefix: Seq<char>,
    pub projects: Seq<ProjectView>,
}

/// The persisted registry: naming prefixes and all known projects.
pub struct AppState {
    pub container_prefix: String,
    pub image_prefix: String,
    pub network_prefix: String,
    pub projects: Vec<Project>,
}

impl View for AppState {
    type V = AppStateView;

    open spec fn view(&self) -> AppStateView {
        AppStateView {
            container_prefix: self.container_prefix@,
            image_prefix: self.image_prefix@,
            network_prefix: self.network_prefix@,
            projects: self.projects.deep_view(),
        }
    }
}

/// Some project in `projects` is named `name`.
pub open spec fn has_project(projects: Seq<ProjectView>, name: Seq<char>) -> bool {
    exists|i: int| 0 <= i < projects.len() && (#[trigger] projects[i]).name == name
}

/// Index of the first project named `name` (meaningful only when one
/// exists).
pub open spec fn first_with_name(projects: Seq<ProjectView>, name: Seq<char>) -> int
    decreases projects.len(),
{
    if projects.len() == 0 {
        0
    } else if projects[0].name == name {
        0
    } else {
        1 + first_with_name(projects.drop_first(), name)
    }
}

/// When a project named `name` exists, `first_with_name` points at the
/// first one.
pub proof fn lemma_first_with_name(projects: Seq<ProjectView>, name: Seq<char>)
    requires
        has_project(projects, name),
    ensures
        0 <= first_with_name(projects, name) < projects.len(),
        projects[first_with_name(projects, name)].name == name,
        forall|j: int| 0 <= j < first_with_name(projects, name) ==> (#[trigger] projects[j]).name
            != name,
    decreases projects.len(),
{
    if projects.len() > 0 && projects[0].name != name {
        let rest = projects.drop_first();
        assert forall|i: int| 0 <= i < projects.len() && (#[trigger] projects[i]).name == name
            implies exists|k: int| 0 <= k < rest.len() && (#[trigger] rest[k]).name == name by {
            assert(i > 0);
            assert(rest[i - 1] == projects[i]);
        }
        lemma_first_with_name(rest, name);
        let f = first_with_name(rest, name);
        assert(projects[1 + f] == rest[f]);
        assert forall|j: int| 0 <= j < 1 + f implies (#[trigger] projects[j]).name != name by {
            if j > 0 {
                assert(rest[j - 1] == projects[j]);
            }
        }
    }
}

/// The effect of adding or replacing one project in the list: the first
/// project of the same name is replaced wholesale, or the project is
/// appended when the name is new.
pub open spec fn spec_add_or_update(projects: Seq<ProjectView>, p: ProjectView) -> Seq<
    ProjectView,
> {
    if has_project(projects, p.name) {
        projects.update(first_with_name(projects, p.name), p)
    } else {
        projects.push(p)
    }
}

/// Re-applying the same project is a no-op on the already-updated list:
/// deploying an unchanged project leaves the persisted state
/// content-identical.
pub proof fn lemma_add_or_update_idempotent(projects: Seq<ProjectView>, p: ProjectView)
    ensures
        spec_add_or_update(spec_add_or_update(projects, p), p) == spec_add_or_update(projects, p),
{
    let s1 = spec_add_or_update(projects, p);
    if has_project(projects, p.name) {
        lemma_first_with_name(projects, p.name);
        let i = first_with_name(projects, p.name);
        assert(s1 == projects.update(i, p));
        assert(s1[i].name == p.name);
        assert(has_project(s1, p.name));
        lemma_first_with_name(s1, p.name);
        let i2 = first_with_name(s1, p.name);
        assert forall|j: int| 0 <= j < i implies (#[trigger] s1[j]).name != p.name by {
            assert(s1[j] == projects[j]);
        }
        if i2 < i {
            assert(s1[i2].name == p.name);
            assert(false);
        }
        if i2 > i {
            assert(s1[i].name != p.name);
            assert(false);
        }
        assert(spec_add_or_update(s1, p) == s1.update(i, p));
        assert(s1.update(i, p) =~= s1);
    } else {
        assert(s1 == projects.push(p));
        assert(s1[projects.len() as int] == p);
        assert(has_project(s1, p.name));
        lemma_first_with_name(s1, p.name);
        let i2 = first_with_name(s1, p.name);
        assert forall|j: int| 0 <= j < projects.len() implies (#[trigger] s1[j]).name != p.name by {
            assert(s1[j] == projects[j]);
        }
        assert(i2 == projects.len());
        assert(spec_add_or_update(s1, p) == s1.update(i2, p));
        assert(s1.update(i2, p) =~= s1);
    }
}

impl AppState {
    /// A fresh registry with the default naming prefixes and no
    /// projects.
    pub fn default() -> (r: Self)
        ensures
            r@.container_prefix == DEFAULT_PREFIX@,
            r@.image_prefix == DEFAULT_PREFIX@,
            r@.network_prefix == DEFAULT_PREFIX@,
            r@.projects == Seq::<ProjectView>::empty(),
    {
        let r = AppState {
            container_prefix: String::from_str(DEFAULT_PREFIX),
            image_prefix: String::from_str(DEFAULT_PREFIX),
            network_prefix: String::from_str(DEFAULT_PREFIX),
            projects: Vec::new(),
        };
        proof {
            assert(r@.projects =~= Seq::<ProjectView>::empty());
        }
        r
    }

    /// Whether a project of this name is registered.
    pub fn project_exists(&self, project_name: &str) -> (r: bool)
        ensures
            r == has_project(self@.projects, project_name@),
    {
        let owned: String = project_name.to_owned();
        let ghost ps = self@.projects;
        let mut i: usize = 0;
        while i < self.projects.len()
            invariant
                i <= self.projects@.len(),
                ps == self@.projects,
                owned@ == project_name@,
                forall|j: int| 0 <= j < i ==> (#[trigger] ps[j]).name != project_name@,
            decreases self.projects@.len() - i,
        {
            if self.projects[i].name.eq(&owned) {
                proof {
                    assert(ps[i as int].name == project_name@);
                }
                return true;
            }
            i = i + 1;
        }
        false
    }

    /// Registers `project`, replacing the app list of an existing
    /// project of the same name wholesale, or appending a new entry.
    /// The caller persists the whole state afterwards.
    pub fn add_or_update_project(&mut self, project: &Project)
        ensures
            final(self)@.projects == spec_add_or_update(old(self)@.projects, project@),
            final(self)@.container_prefix == old(self)@.container_prefix,
            final(self)@.image_prefix == old(self)@.image_prefix,
            final(self)@.network_prefix == old(self)@.network_prefix,
    {
        let ghost ps = self@.projects;
        let mut i: usize = 0;
        while i < self.projects.len()
            invariant
                i <= self.projects@.len(),
                self@ == old(self)@,
                ps == self@.projects,
                forall|j: int| 0 <= j < i ==> (#[trigger] ps[j]).name != project@.name,
            decreases self.projects@.len() - i,
        {
            if self.projects[i].name.eq(&project.name) {
                proof {
                    assert(ps[i as int].name == project@.name);
                    assert(has_project(ps, project@.name));
                    lemma_first_with_name(ps, project@.name);
                    assert(first_with_name(ps, project@.name) == i as int);
                }
                let replacement = Project {
                    name: project.name.clone(),
                    apps: clone_apps(&project.apps),
                };
                proof {
                    assert(replacement@ =~~= project@);
                }
                self.projects.set(i, replacement);
                proof {
                    assert(self@.projects =~= ps.update(i as int, project@));
                }
                return ;
            }
            i = i + 1;
        }
        proof {
            if has_project(ps, project@.name) {
                let j = choose|j: int| 0 <= j < ps.len() && (#[trigger] ps[j]).name
                    == project@.name;
                assert(false);
            }
        }
        let ghost before = self.projects;
        let added = project.clone();
        self.projects.push(added);
        proof {
            lemma_deep_view_push(before, self.projects, added);
            assert(self@.projects =~= ps.push(project@));
        }
    }
}

} // verus!
