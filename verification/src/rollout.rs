//! Per-app rollout: reconcile, start, probe readiness, then publish.
//!
//! One `Rollout` drives one app from observation to a recorded outcome.
//! The engine glue performs each returned action and feeds the result
//! back as the next event; every decision in between is made here.
//!
//! Readiness gates exposure: an exposed app is probed over HTTP from
//! inside the proxy's network namespace on an increasing backoff
//! schedule (never immediately after start, which is known to crash
//! fresh containers), and only a successful probe lets certificate
//! issuance and proxy publication run. On exhaustion the app's
//! container is stopped, the last observed output is recorded as the
//! failure reason, and the app is done — a failed app never aborts its
//! siblings. Apps without domains get a lighter bounded running-state
//! poll.

use vstd::prelude::*;

use crate::certs::{vhost_conf, vhost_matches, VhostConf};
use crate::models::App;
use crate::reconcile::{can_reuse, create_spec_matches, ContainerObservation, CreateSpec};

verus! {

/// Bounded attempts of the HTTP readiness probe; attempt `k` waits
/// `k + 1` seconds first.
pub const PROBE_ATTEMPTS: usize = 14;

/// Bounded attempts of the running-state poll for unexposed apps.
pub const CHECK_ATTEMPTS: usize = 2;

/// Where one app's rollout stands.
pub enum Phase {
    /// Awaiting the container/image observation.
    Observe,
    /// The container is being recreated.
    Creating,
    /// Networks are being joined and the container started.
    Starting,
    /// HTTP readiness probing, at the given attempt.
    Probing(usize),
    /// Running-state polling, at the given attempt.
    Checking(usize),
    /// Certificate handling for the domain at the given index.
    Certifying(usize),
    /// Virtual-host publication for the domain at the given index.
    Publishing(usize),
    /// Finished: success flag and failure reason.
    Done(bool, String),
}

/// What the engine glue reports back after performing an action.
pub enum RolloutEvent {
    /// The container/image observation.
    Observed(ContainerObservation),
    /// Whether creation succeeded.
    Created(bool),
    /// Whether the start succeeded.
    Started(bool),
    /// Probe result: success, and the probe's output or error text.
    Probe(bool, String),
    /// Whether the container was running at the poll.
    RunningCheck(bool),
    /// The certificate step for the current domain was carried out
    /// (issued, skipped, or its failure logged).
    CertHandled,
    /// The virtual-host file for the current domain was written.
    ConfWritten,
}

/// What the engine glue must do next.
pub enum RolloutAction {
    /// Stop (ignoring "not running"), remove (ignoring "not found"),
    /// and create the container from the spec.
    Recreate(CreateSpec),
    /// Connect the container to its required networks, then start it.
    JoinNetworksAndStart,
    /// Wait the given seconds, then probe `http://{container}[:port]`
    /// from inside the proxy container.
    WaitProbe(u64),
    /// Wait the given seconds, then poll the container's running state.
    WaitRunningCheck(u64),
    /// Check the certificate store for this domain, decide with
    /// [`App::certificate_action`], and run the issuance it picks.
    CertifyDomain(String),
    /// Write the virtual-host file (create-or-replace).
    WriteConf(VhostConf),
    /// Probing is exhausted: stop the app's container; the rollout is
    /// done and failed.
    StopAndFail,
    /// Nothing to do; the rollout is done.
    Complete,
}

/// One app's rollout.
pub struct Rollout {
    pub app: App,
    pub phase: Phase,
}

impl Rollout {
    /// Number of domains the app declares.
    pub open spec fn domains_len(self) -> int {
        match self.app@.domains {
            Some(ds) => ds.len() as int,
            None => 0,
        }
    }

    /// The domain at index `k`, in specifications.
    pub open spec fn spec_domain(self, k: int) -> Seq<char> {
        self.app@.domains->Some_0[k]
    }

    /// Phase indices stay in range, and an exposed app carries the
    /// email that issuance needs.
    pub open spec fn wf(self) -> bool {
        &&& (self.app@.domains is Some ==> self.app@.email is Some)
        &&& (self.phase matches Phase::Probing(k) ==> self.app@.exposed() && (k as int)
            < PROBE_ATTEMPTS as int)
        &&& (self.phase matches Phase::Checking(k) ==> (k as int) < CHECK_ATTEMPTS as int)
        &&& (self.phase matches Phase::Certifying(k) ==> self.app@.exposed() && (k as int)
            < self.domains_len())
        &&& (self.phase matches Phase::Publishing(k) ==> self.app@.exposed() && (k as int)
            < self.domains_len())
    }

    /// Which event each phase is waiting for.
    pub open spec fn expects(self, event: RolloutEvent) -> bool {
        match self.phase {
            Phase::Observe => event is Observed,
            Phase::Creating => event is Created,
            Phase::Starting => event is Started,
            Phase::Probing(_) => event is Probe,
            Phase::Checking(_) => event is RunningCheck,
            Phase::Certifying(_) => event is CertHandled,
            Phase::Publishing(_) => event is ConfWritten,
            Phase::Done(_, _) => false,
        }
    }

    /// Begins the rollout of one app.
    pub fn new(app: App) -> (r: Rollout)
        requires
            app@.domains is Some ==> app@.email is Some,
        ensures
            r.app@ == app@,
            r.phase is Observe,
            r.wf(),
    {
        Rollout { app, phase: Phase::Observe }
    }

    /// Whether the app declares at least one domain.
    fn exposed(&self) -> (r: bool)
        ensures
            r == self.app@.exposed(),
    {
        match &self.app.domains {
            Some(ds) => ds.len() > 0,
            None => false,
        }
    }

    /// The domain at index `k`.
    fn domain_at(&self, k: usize) -> (r: String)
        requires
            (k as int) < self.domains_len(),
        ensures
            r@ == self.spec_domain(k as int),
    {
        match &self.app.domains {
            Some(ds) => ds[k].clone(),
            None => {
                proof {
                    assert(false);
                }
                String::new()
            },
        }
    }

    /// The phase an app enters once its container runs: HTTP probing
    /// for exposed apps, running-state polling otherwise. The first
    /// wait is one second — probing a container the instant it starts
    /// is known to crash it.
    fn enter_readiness(&mut self) -> (a: RolloutAction)
        requires
            old(self).wf(),
        ensures
            final(self).app == old(self).app,
            final(self).wf(),
            readiness_entered(*old(self), *final(self), a),
    {
        if self.exposed() {
            self.phase = Phase::Probing(0);
            RolloutAction::WaitProbe(1)
        } else {
            self.phase = Phase::Checking(0);
            RolloutAction::WaitRunningCheck(1)
        }
    }

    /// Drives the rollout one step: consumes the result of the previous
    /// action and decides the next one.
    pub fn step(&mut self, event: RolloutEvent) -> (a: RolloutAction)
        requires
            old(self).wf(),
            old(self).expects(event),
        ensures
            final(self).wf(),
            final(self).app == old(self).app,
            // reconcile: reuse the container or recreate it
            old(self).phase is Observe ==> (event matches RolloutEvent::Observed(obs) ==> ({
                &&& can_reuse(obs) ==> readiness_entered(*old(self), *final(self), a)
                &&& !can_reuse(obs) ==> final(self).phase is Creating && (a matches
                    RolloutAction::Recreate(cs) && create_spec_matches(cs, old(self).app@))
            })),
            // creation result
            old(self).phase is Creating ==> (event matches RolloutEvent::Created(ok) ==> ({
                &&& ok ==> final(self).phase is Starting && a is JoinNetworksAndStart
                &&& !ok ==> (final(self).phase matches Phase::Done(s, _) && !s) && a is Complete
            })),
            // start result
            old(self).phase is Starting ==> (event matches RolloutEvent::Started(ok) ==> ({
                &&& ok ==> readiness_entered(*old(self), *final(self), a)
                &&& !ok ==> (final(self).phase matches Phase::Done(s, _) && !s) && a is Complete
            })),
            // probe loop: success gates certification; failures back
            // off; exhaustion stops the container and records the last
            // output as the reason
            old(self).phase matches Phase::Probing(k) ==> (event matches RolloutEvent::Probe(
                ok,
                out,
            ) ==> ({
                &&& ok ==> (final(self).phase matches Phase::Certifying(c) && c == 0) && (a matches
                    RolloutAction::CertifyDomain(d) && d@ == old(self).spec_domain(0))
                &&& !ok && k + 1 < PROBE_ATTEMPTS ==> (final(self).phase matches Phase::Probing(k2)
                    && k2 == k + 1) && (a matches RolloutAction::WaitProbe(w) && w == k + 2)
                &&& !ok && k + 1 >= PROBE_ATTEMPTS ==> (final(self).phase matches Phase::Done(
                    s,
                    reason,
                ) && !s && reason@ == out@) && a is StopAndFail
            })),
            // running-state poll for unexposed apps
            old(self).phase matches Phase::Checking(k) ==> (event matches
                RolloutEvent::RunningCheck(run) ==> ({
                &&& run ==> (final(self).phase matches Phase::Done(s, _) && s) && a is Complete
                &&& !run && k + 1 < CHECK_ATTEMPTS ==> (final(self).phase matches Phase::Checking(
                    k2,
                ) && k2 == k + 1) && (a matches RolloutAction::WaitRunningCheck(w) && w == k + 2)
                &&& !run && k + 1 >= CHECK_ATTEMPTS ==> (final(self).phase matches Phase::Done(
                    s,
                    _,
                ) && !s) && a is Complete
            })),
            // per-domain certificate handling, then publication
            old(self).phase matches Phase::Certifying(k) ==> (event is CertHandled ==> (final(self).phase matches Phase::Publishing(p) && p == k) && (a matches RolloutAction::WriteConf(
                vc,
            ) && vhost_matches(vc, old(self).app@, old(self).spec_domain(k as int)))),
            old(self).phase matches Phase::Publishing(k) ==> (event is ConfWritten ==> ({
                &&& k + 1 < old(self).domains_len() ==> (final(self).phase matches
                    Phase::Certifying(c) && c == k + 1) && (a matches RolloutAction::CertifyDomain(
                    d,
                ) && d@ == old(self).spec_domain(k + 1))
                &&& k + 1 >= old(self).domains_len() ==> (final(self).phase matches Phase::Done(
                    s,
                    _,
                ) && s) && a is Complete
            })),
    {
        match event {
            RolloutEvent::Observed(obs) => {
                let plan = self.app.reconcile(&obs);
                match plan {
                    crate::reconcile::ReconcilePlan::Reuse => self.enter_readiness(),
                    crate::reconcile::ReconcilePlan::Recreate(cs) => {
                        self.phase = Phase::Creating;
                        RolloutAction::Recreate(cs)
                    },
                }
            },
            RolloutEvent::Created(ok) => {
                if ok {
                    self.phase = Phase::Starting;
                    RolloutAction::JoinNetworksAndStart
                } else {
                    self.phase = Phase::Done(false, String::from_str("container create failed"));
                    RolloutAction::Complete
                }
            },
            RolloutEvent::Started(ok) => {
                if ok {
                    self.enter_readiness()
                } else {
                    self.phase = Phase::Done(false, String::from_str("container start failed"));
                    RolloutAction::Complete
                }
            },
            RolloutEvent::Probe(ok, out) => {
                let k = match self.phase {
                    Phase::Probing(k) => k,
                    _ => {
                        proof {
                            assert(false);
                        }
                        0
                    },
                };
                if ok {
                    let d = self.domain_at(0);
                    self.phase = Phase::Certifying(0);
                    RolloutAction::CertifyDomain(d)
                } else if k + 1 < PROBE_ATTEMPTS {
                    self.phase = Phase::Probing(k + 1);
                    RolloutAction::WaitProbe((k as u64) + 2)
                } else {
                    self.phase = Phase::Done(false, out);
                    RolloutAction::StopAndFail
                }
            },
            RolloutEvent::RunningCheck(run) => {
                let k = match self.phase {
                    Phase::Checking(k) => k,
                    _ => {
                        proof {
                            assert(false);
                        }
                        0
                    },
                };
                if run {
                    self.phase = Phase::Done(true, String::new());
                    RolloutAction::Complete
                } else if k + 1 < CHECK_ATTEMPTS {
                    self.phase = Phase::Checking(k + 1);
                    RolloutAction::WaitRunningCheck((k as u64) + 2)
                } else {
                    self.phase = Phase::Done(
                        false,
                        String::from_str("container did not reach running state"),
                    );
                    RolloutAction::Complete
                }
            },
            RolloutEvent::CertHandled => {
                let k = match self.phase {
                    Phase::Certifying(k) => k,
                    _ => {
                        proof {
                            assert(false);
                        }
                        0
                    },
                };
                let d = self.domain_at(k);
                let vc = vhost_conf(&self.app, &d);
                self.phase = Phase::Publishing(k);
                RolloutAction::WriteConf(vc)
            },
            RolloutEvent::ConfWritten => {
                let k = match self.phase {
                    Phase::Publishing(k) => k,
                    _ => {
                        proof {
                            assert(false);
                        }
                        0
                    },
                };
                let more = match &self.app.domains {
                    Some(ds) => {
                        let n = ds.len();
                        proof {
                            assert(self.domains_len() == ds.deep_view().len());
                            assert((k as int) < self.domains_len());
                            assert(ds.deep_view().len() == ds@.len());
                            assert(k < n);
                        }
                        k + 1 < n
                    },
                    None => {
                        proof {
                            assert(false);
                        }
                        false
                    },
                };
                if more {
                    let d = self.domain_at(k + 1);
                    self.phase = Phase::Certifying(k + 1);
                    RolloutAction::CertifyDomain(d)
                } else {
                    self.phase = Phase::Done(true, String::new());
                    RolloutAction::Complete
                }
            },
        }
    }
}

/// Whether a probe run counts as a success: the probing command exited
/// cleanly, which covers any 2xx/3xx-class response.
pub fn probe_success(exit_code: i64) -> (r: bool)
    ensures
        r == (exit_code == 0),
{
    exit_code == 0
}

/// The rollout moved from a started container into its readiness phase:
/// probing for exposed apps, running-state polling otherwise, with a
/// one-second first wait.
pub open spec fn readiness_entered(pre: Rollout, post: Rollout, a: RolloutAction) -> bool {
    &&& (pre.app@.exposed() ==> (post.phase matches Phase::Probing(k) && k == 0) && (a matches
        RolloutAction::WaitProbe(w) && w == 1))
    &&& (!pre.app@.exposed() ==> (post.phase matches Phase::Checking(k) && k == 0) && (a matches
        RolloutAction::WaitRunningCheck(w) && w == 1))
}

} // verus!
