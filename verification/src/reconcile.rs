//! Container lifecycle reconciliation.
//!
//! Brings a container in line with its app spec. A container is reused
//! exactly when it exists, is running, and its image matches the
//! currently resolved image reference by content identity; otherwise it
//! is stopped, removed and created afresh from the app spec, with its
//! port published on the identical host port, an init process, and the
//! declared aliases.

use vstd::prelude::*;

use crate::models::App;
use crate::vecs::clone_strings;

verus! {

/// What the engine shows about an app's container and image before
/// reconciliation.
pub struct ContainerObservation {
    /// A container of the app's container name exists.
    pub exists: bool,
    /// That container is in the running state.
    pub running: bool,
    /// Content identity of the existing container's image, when known.
    pub container_image_id: Option<String>,
    /// Content identity the app's image reference currently resolves
    /// to, when the image could be found.
    pub resolved_image_id: Option<String>,
}

/// The observed container runs the currently resolved image: both
/// identities are known and equal.
pub open spec fn image_current(o: ContainerObservation) -> bool {
    &&& o.container_image_id matches Some(ci) && o.resolved_image_id matches Some(ri) && ci@
        == ri@
}

/// A container can be reused exactly when it exists, runs, and its
/// image is current.
pub open spec fn can_reuse(o: ContainerObservation) -> bool {
    o.exists && o.running && image_current(o)
}

/// Everything the engine needs to create an app's container.
pub struct CreateSpec {
    /// The derived container name.
    pub name: String,
    /// The image reference to create from.
    pub image: String,
    /// Container port published on the identical host port, when the
    /// app declares one.
    pub port_binding: Option<(String, String)>,
    /// Environment variable list.
    pub env_vars: Vec<String>,
    /// Volume bind list.
    pub volumes: Vec<String>,
    /// Run an init process inside the container; always on.
    pub init: bool,
    /// Run privileged, per the app's flag.
    pub privileged: bool,
    /// DNS aliases registered for the container.
    pub network_aliases: Vec<String>,
}

/// The creation values are exactly the app's values.
pub open spec fn create_spec_matches(cs: CreateSpec, app: crate::models::AppView) -> bool {
    &&& cs.name@ == app.container_name
    &&& cs.image@ == app.image
    &&& (app.port matches Some(p) ==> cs.port_binding matches Some(pb) && pb.0@ == p && pb.1@
        == p)
    &&& (app.port is None ==> cs.port_binding is None)
    &&& cs.env_vars.deep_view() == app.env_vars
    &&& cs.volumes.deep_view() == app.volumes
    &&& cs.init
    &&& cs.privileged == app.privileged
    &&& cs.network_aliases.deep_view() == app.network_aliases
}

/// The reconciliation decision for one app.
pub enum ReconcilePlan {
    /// The existing container serves as is; no engine mutation runs.
    Reuse,
    /// Stop (ignoring "not running"), remove (ignoring "not found"),
    /// create from the spec, join the required networks, start.
    Recreate(CreateSpec),
}

/// What to do to start an existing app without re-deploying it.
pub enum StartPlan {
    /// The container already runs; nothing to do.
    AlreadyRunning,
    /// The container exists but is stopped; start it.
    Start,
    /// No container exists; create it from the spec, then start it.
    CreateAndStart(CreateSpec),
}

impl App {
    /// Translates the app spec into the engine-level creation values.
    pub fn create_spec(&self) -> (r: CreateSpec)
        ensures
            create_spec_matches(r, self@),
    {
        let port_binding = match &self.port {
            Some(p) => Some((p.clone(), p.clone())),
            None => None,
        };
        CreateSpec {
            name: self.container_name.clone(),
            image: self.image.clone(),
            port_binding,
            env_vars: clone_strings(&self.env_vars),
            volumes: clone_strings(&self.volumes),
            init: true,
            privileged: self.privileged,
            network_aliases: clone_strings(&self.network_aliases),
        }
    }

    /// Decides between reusing the observed container and recreating it
    /// from the app spec.
    pub fn reconcile(&self, obs: &ContainerObservation) -> (r: ReconcilePlan)
        ensures
            r is Reuse <==> can_reuse(*obs),
            r matches ReconcilePlan::Recreate(cs) ==> create_spec_matches(cs, self@),
    {
        if obs.exists && obs.running {
            let current = match (&obs.container_image_id, &obs.resolved_image_id) {
                (Some(ci), Some(ri)) => ci.eq(ri),
                _ => false,
            };
            if current {
                return ReconcilePlan::Reuse;
            }
        }
        ReconcilePlan::Recreate(self.create_spec())
    }

    /// Decides how to start the app's container without re-deploying:
    /// reuse a running container, start a stopped one, or create one
    /// first.
    pub fn start_plan(&self, found: bool, running: bool) -> (r: StartPlan)
        ensures
            r is AlreadyRunning <==> found && running,
            r is Start <==> found && !running,
            r matches StartPlan::CreateAndStart(cs) ==> !found && create_spec_matches(cs, self@),
            !found ==> r is CreateAndStart,
    {
        if found {
            if running {
                StartPlan::AlreadyRunning
            } else {
                StartPlan::Start
            }
        } else {
            StartPlan::CreateAndStart(self.create_spec())
        }
    }
}

} // verus!
