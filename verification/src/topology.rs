//! Two-tier network topology.
//!
//! Every app joins its project's internal network; apps that declare
//! domains additionally join the project's proxy-facing network, which
//! the reverse-proxy container joins lazily (only once the project has
//! something to expose). All operations are idempotent: the engine
//! state is mirrored here, existence and membership are checked first,
//! and a mutating engine command is emitted only when needed.

use vstd::prelude::*;

use crate::models::{App, Project, ProjectView};
use crate::names::{proxy_net_of, Network};

verus! {

/// A mutating engine command the topology manager asks for. The engine
/// glue runs it; the model already reflects its effect.
pub enum NetworkCommand {
    /// Create the named network.
    Create(String),
    /// Connect container (first) to network (second).
    Connect(String, String),
    /// Disconnect container (first) from network (second).
    Disconnect(String, String),
    /// Remove the named network.
    Remove(String),
}

/// Mathematical view of [`EngineNetworks`].
pub ghost struct EngineNetworksView {
    pub networks: Seq<Seq<char>>,
    pub connections: Seq<(Seq<char>, Seq<char>)>,
}

/// Mirror of the engine's network state, fed from observations: which
/// networks exist, and which (container, network) memberships hold.
pub struct EngineNetworks {
    pub networks: Vec<String>,
    pub connections: Vec<(String, String)>,
}

impl View for EngineNetworks {
    type V = EngineNetworksView;

    open spec fn view(&self) -> EngineNetworksView {
        EngineNetworksView {
            networks: self.networks.deep_view(),
            connections: self.connections.deep_view(),
        }
    }
}

/// No entry occurs twice.
pub open spec fn no_dups<T>(s: Seq<T>) -> bool {
    forall|i: int, j: int| 0 <= i < j < s.len() ==> s[i] != s[j]
}

/// How many entries equal `v`.
pub open spec fn count_val<T>(s: Seq<T>, v: T) -> nat
    decreases s.len(),
{
    if s.len() == 0 {
        0
    } else {
        count_val(s.drop_last(), v) + if s.last() == v {
            1nat
        } else {
            0nat
        }
    }
}

/// The one network-ensuring step on the model: a no-op when the network
/// exists, an append when it does not.
pub open spec fn spec_ensure_network(nets: Seq<Seq<char>>, name: Seq<char>) -> Seq<Seq<char>> {
    if nets.contains(name) {
        nets
    } else {
        nets.push(name)
    }
}

/// The one connection-ensuring step on the model.
pub open spec fn spec_ensure_connected(
    conns: Seq<(Seq<char>, Seq<char>)>,
    container: Seq<char>,
    network: Seq<char>,
) -> Seq<(Seq<char>, Seq<char>)> {
    if conns.contains((container, network)) {
        conns
    } else {
        conns.push((container, network))
    }
}

/// In a duplicate-free sequence, a contained value occurs exactly once.
pub proof fn lemma_count_in_no_dups<T>(s: Seq<T>, v: T)
    requires
        no_dups(s),
        s.contains(v),
    ensures
        count_val(s, v) == 1,
    decreases s.len(),
{
    let head = s.drop_last();
    if s.last() == v {
        assert(!head.contains(v)) by {
            if head.contains(v) {
                let i = choose|i: int| 0 <= i < head.len() && head[i] == v;
                assert(s[i] == v);
                assert(s[s.len() - 1] == v);
            }
        }
        lemma_count_not_in(head, v);
    } else {
        assert(head.contains(v)) by {
            let i = choose|i: int| 0 <= i < s.len() && s[i] == v;
            assert(i < s.len() - 1);
            assert(head[i] == v);
        }
        assert(no_dups(head)) by {
            assert forall|i: int, j: int| 0 <= i < j < head.len() implies head[i] != head[j] by {
                assert(s[i] == head[i] && s[j] == head[j]);
            }
        }
        lemma_count_in_no_dups(head, v);
    }
}

/// A value not contained occurs zero times.
pub proof fn lemma_count_not_in<T>(s: Seq<T>, v: T)
    requires
        !s.contains(v),
    ensures
        count_val(s, v) == 0,
    decreases s.len(),
{
    if s.len() > 0 {
        let head = s.drop_last();
        assert(!head.contains(v)) by {
            if head.contains(v) {
                let i = choose|i: int| 0 <= i < head.len() && head[i] == v;
                assert(s[i] == v);
            }
        }
        lemma_count_not_in(head, v);
        assert(s[s.len() - 1] != v);
    }
}

/// Ensuring a network twice is the same as ensuring it once: the second
/// step changes nothing, and on a duplicate-free state the network then
/// exists exactly once.
pub proof fn lemma_ensure_network_idempotent(nets: Seq<Seq<char>>, name: Seq<char>)
    ensures
        spec_ensure_network(nets, name).contains(name),
        spec_ensure_network(spec_ensure_network(nets, name), name) == spec_ensure_network(
            nets,
            name,
        ),
        no_dups(nets) ==> no_dups(spec_ensure_network(nets, name)) && count_val(
            spec_ensure_network(nets, name),
            name,
        ) == 1,
{
    let s1 = spec_ensure_network(nets, name);
    if !nets.contains(name) {
        assert(s1[s1.len() - 1] == name);
        assert(s1.contains(name));
        if no_dups(nets) {
            assert forall|i: int, j: int| 0 <= i < j < s1.len() implies s1[i] != s1[j] by {
                if j == s1.len() - 1 {
                    assert(s1[i] == nets[i]);
                    if nets[i] == name {
                        assert(nets.contains(name));
                    }
                }
            }
        }
    }
    if no_dups(nets) {
        lemma_count_in_no_dups(s1, name);
    }
}

impl EngineNetworks {
    /// Both mirrors are duplicate-free.
    pub open spec fn wf(self) -> bool {
        no_dups(self@.networks) && no_dups(self@.connections)
    }

    /// Whether the named network exists.
    pub fn has_network(&self, name: &String) -> (r: bool)
        ensures
            r == self@.networks.contains(name@),
    {
        let mut i: usize = 0;
        while i < self.networks.len()
            invariant
                i <= self.networks@.len(),
                forall|j: int| 0 <= j < i ==> #[trigger] self@.networks[j] != name@,
            decreases self.networks@.len() - i,
        {
            if self.networks[i].eq(name) {
                proof {
                    assert(self@.networks[i as int] == name@);
                }
                return true;
            }
            i = i + 1;
        }
        proof {
            if self@.networks.contains(name@) {
                let j = choose|j: int|
                    0 <= j < self@.networks.len() && #[trigger] self@.networks[j] == name@;
                assert(false);
            }
        }
        false
    }

    /// Whether the container is connected to the network.
    pub fn is_connected(&self, container: &String, network: &String) -> (r: bool)
        ensures
            r == self@.connections.contains((container@, network@)),
    {
        let mut i: usize = 0;
        while i < self.connections.len()
            invariant
                i <= self.connections@.len(),
                forall|j: int|
                    0 <= j < i ==> #[trigger] self@.connections[j] != (container@, network@),
            decreases self.connections@.len() - i,
        {
            if self.connections[i].0.eq(container) && self.connections[i].1.eq(network) {
                proof {
                    assert(self@.connections[i as int] == (container@, network@));
                }
                return true;
            }
            i = i + 1;
        }
        proof {
            if self@.connections.contains((container@, network@)) {
                let j = choose|j: int|
                    0 <= j < self@.connections.len() && #[trigger] self@.connections[j] == (
                    container@,
                    network@,
                );
                assert(false);
            }
        }
        false
    }

    /// Makes the named network exist, asking the engine to create it
    /// only when it is missing. Idempotent: a second call returns no
    /// command and leaves the state unchanged.
    pub fn ensure_network(&mut self, name: &String) -> (cmd: Option<NetworkCommand>)
        requires
            old(self).wf(),
        ensures
            final(self).wf(),
            final(self)@.networks == spec_ensure_network(old(self)@.networks, name@),
            final(self)@.connections == old(self)@.connections,
            cmd is Some <==> !old(self)@.networks.contains(name@),
            cmd matches Some(c) ==> c matches NetworkCommand::Create(n) && n@ == name@,
    {
        proof {
            lemma_ensure_network_idempotent(self@.networks, name@);
        }
        if self.has_network(name) {
            None
        } else {
            let ghost before = self.networks;
            let owned = name.clone();
            let ghost gowned = owned;
            self.networks.push(owned);
            proof {
                crate::vecs::lemma_deep_view_push(before, self.networks, gowned);
                assert(self@.networks =~= spec_ensure_network(before.deep_view(), name@));
            }
            Some(NetworkCommand::Create(name.clone()))
        }
    }

    /// Makes the container a member of the network, asking the engine to
    /// connect it only when it is not one yet. Idempotent.
    pub fn ensure_connected(&mut self, container: &String, network: &String) -> (cmd: Option<
        NetworkCommand,
    >)
        requires
            old(self).wf(),
        ensures
            final(self).wf(),
            final(self)@.connections == spec_ensure_connected(
                old(self)@.connections,
                container@,
                network@,
            ),
            final(self)@.networks == old(self)@.networks,
            cmd is Some <==> !old(self)@.connections.contains((container@, network@)),
            cmd matches Some(c) ==> c matches NetworkCommand::Connect(cc, nn) && cc@ == container@
                && nn@ == network@,
    {
        if self.is_connected(container, network) {
            None
        } else {
            let ghost before = self.connections;
            let pair = (container.clone(), network.clone());
            let ghost gpair = pair;
            self.connections.push(pair);
            proof {
                crate::vecs::lemma_deep_view_push(before, self.connections, gpair);
                assert(self@.connections =~= spec_ensure_connected(
                    before.deep_view(),
                    container@,
                    network@,
                ));
                let s1 = self@.connections;
                assert forall|i: int, j: int| 0 <= i < j < s1.len() implies s1[i] != s1[j] by {
                    if j == s1.len() - 1 {
                        if before.deep_view()[i] == (container@, network@) {
                            assert(before.deep_view().contains((container@, network@)));
                        }
                    }
                }
            }
            Some(NetworkCommand::Connect(container.clone(), network.clone()))
        }
    }

    /// Removes the named network, asking the engine only when it
    /// exists. Idempotent.
    pub fn remove_network(&mut self, name: &String) -> (cmd: Option<NetworkCommand>)
        requires
            old(self).wf(),
        ensures
            final(self).wf(),
            final(self)@.connections == old(self)@.connections,
            !final(self)@.networks.contains(name@),
            forall|n: Seq<char>|
                n != name@ ==> (#[trigger] final(self)@.networks.contains(n) <==> old(
                    self,
                )@.networks.contains(n)),
            cmd is Some <==> old(self)@.networks.contains(name@),
            cmd matches Some(c) ==> c matches NetworkCommand::Remove(n) && n@ == name@,
    {
        let ghost nets0 = self@.networks;
        let mut i: usize = 0;
        while i < self.networks.len()
            invariant
                i <= self.networks@.len(),
                self@.networks == nets0,
                nets0 == old(self)@.networks,
                self@.connections == old(self)@.connections,
                no_dups(nets0),
                no_dups(self@.connections),
                forall|j: int| 0 <= j < i ==> #[trigger] nets0[j] != name@,
            decreases self.networks@.len() - i,
        {
            if self.networks[i].eq(name) {
                proof {
                    assert(nets0[i as int] == name@);
                }
                self.networks.remove(i);
                proof {
                    let s1 = self@.networks;
                    assert forall|k: int| 0 <= k < s1.len() implies s1[k] == (if k < i as int {
                        nets0[k]
                    } else {
                        nets0[k + 1]
                    }) by {}
                    assert forall|k1: int, k2: int| 0 <= k1 < k2 < s1.len() implies s1[k1]
                        != s1[k2] by {
                        let m1 = if k1 < i as int {
                            k1
                        } else {
                            k1 + 1
                        };
                        let m2 = if k2 < i as int {
                            k2
                        } else {
                            k2 + 1
                        };
                        assert(s1[k1] == nets0[m1]);
                        assert(s1[k2] == nets0[m2]);
                    }
                    assert(!s1.contains(name@)) by {
                        if s1.contains(name@) {
                            let k = choose|k: int| 0 <= k < s1.len() && s1[k] == name@;
                            let m = if k < i as int {
                                k
                            } else {
                                k + 1
                            };
                            assert(nets0[m] == name@);
                            if m != i as int {
                                if m < i as int {
                                    assert(nets0[m] != nets0[i as int]);
                                } else {
                                    assert(nets0[i as int] != nets0[m]);
                                }
                            }
                        }
                    }
                    assert forall|n: Seq<char>| n != name@ implies (#[trigger] s1.contains(n)
                        <==> nets0.contains(n)) by {
                        if s1.contains(n) {
                            let k = choose|k: int| 0 <= k < s1.len() && s1[k] == n;
                            let m = if k < i as int {
                                k
                            } else {
                                k + 1
                            };
                            assert(nets0[m] == n);
                        }
                        if nets0.contains(n) {
                            let m = choose|m: int| 0 <= m < nets0.len() && nets0[m] == n;
                            assert(m != i as int);
                            let k = if m < i as int {
                                m
                            } else {
                                m - 1
                            };
                            assert(s1[k] == n);
                        }
                    }
                }
                return Some(NetworkCommand::Remove(name.clone()));
            }
            i = i + 1;
        }
        proof {
            if nets0.contains(name@) {
                let j = choose|j: int| 0 <= j < nets0.len() && nets0[j] == name@;
                assert(false);
            }
        }
        None
    }

    /// Removes the container's membership of the network, asking the
    /// engine to disconnect only when the membership exists. Idempotent.
    pub fn disconnect(&mut self, container: &String, network: &String) -> (cmd: Option<
        NetworkCommand,
    >)
        requires
            old(self).wf(),
        ensures
            final(self).wf(),
            final(self)@.networks == old(self)@.networks,
            !final(self)@.connections.contains((container@, network@)),
            forall|p: (Seq<char>, Seq<char>)|
                p != (container@, network@) ==> (#[trigger] final(self)@.connections.contains(p)
                    <==> old(self)@.connections.contains(p)),
            cmd is Some <==> old(self)@.connections.contains((container@, network@)),
            cmd matches Some(c) ==> c matches NetworkCommand::Disconnect(cc, nn) && cc@
                == container@ && nn@ == network@,
    {
        let ghost conns0 = self@.connections;
        let mut i: usize = 0;
        while i < self.connections.len()
            invariant
                i <= self.connections@.len(),
                self@.connections == conns0,
                conns0 == old(self)@.connections,
                self@.networks == old(self)@.networks,
                no_dups(conns0),
                no_dups(self@.networks),
                forall|j: int| 0 <= j < i ==> #[trigger] conns0[j] != (container@, network@),
            decreases self.connections@.len() - i,
        {
            if self.connections[i].0.eq(container) && self.connections[i].1.eq(network) {
                proof {
                    assert(conns0[i as int] == (container@, network@));
                }
                self.connections.remove(i);
                proof {
                    let s1 = self@.connections;
                    assert(s1 =~= conns0.subrange(0, i as int) + conns0.subrange(
                        i as int + 1,
                        conns0.len() as int,
                    )) by {
                        assert forall|k: int| 0 <= k < s1.len() implies s1[k] == (conns0.subrange(
                            0,
                            i as int,
                        ) + conns0.subrange(i as int + 1, conns0.len() as int))[k] by {
                            if k < i as int {
                                assert(s1[k] == conns0[k]);
                            } else {
                                assert(s1[k] == conns0[k + 1]);
                            }
                        }
                    }
                    assert forall|k1: int, k2: int| 0 <= k1 < k2 < s1.len() implies s1[k1]
                        != s1[k2] by {
                        let m1 = if k1 < i as int {
                            k1
                        } else {
                            k1 + 1
                        };
                        let m2 = if k2 < i as int {
                            k2
                        } else {
                            k2 + 1
                        };
                        assert(s1[k1] == conns0[m1]);
                        assert(s1[k2] == conns0[m2]);
                    }
                    assert(!s1.contains((container@, network@))) by {
                        if s1.contains((container@, network@)) {
                            let k = choose|k: int|
                                0 <= k < s1.len() && s1[k] == (container@, network@);
                            let m = if k < i as int {
                                k
                            } else {
                                k + 1
                            };
                            assert(conns0[m] == (container@, network@));
                            if m != i as int {
                                if m < i as int {
                                    assert(conns0[m] != conns0[i as int]);
                                } else {
                                    assert(conns0[i as int] != conns0[m]);
                                }
                            }
                        }
                    }
                    assert forall|p: (Seq<char>, Seq<char>)|
                        p != (container@, network@) implies (#[trigger] s1.contains(p)
                        <==> conns0.contains(p)) by {
                        if s1.contains(p) {
                            let k = choose|k: int| 0 <= k < s1.len() && s1[k] == p;
                            let m = if k < i as int {
                                k
                            } else {
                                k + 1
                            };
                            assert(conns0[m] == p);
                        }
                        if conns0.contains(p) {
                            let m = choose|m: int| 0 <= m < conns0.len() && conns0[m] == p;
                            assert(m != i as int);
                            let k = if m < i as int {
                                m
                            } else {
                                m - 1
                            };
                            assert(s1[k] == p);
                        }
                    }
                }
                return Some(NetworkCommand::Disconnect(container.clone(), network.clone()));
            }
            i = i + 1;
        }
        proof {
            if conns0.contains((container@, network@)) {
                let j = choose|j: int| 0 <= j < conns0.len() && conns0[j] == (container@, network@);
                assert(false);
            }
        }
        None
    }
}

/// Whether `network` is one an app must join: the internal network
/// always, the proxy-facing network only for apps declaring domains.
pub fn should_connect(app: &App, network: &Network) -> (r: bool)
    ensures
        r == match network {
            Network::Internal(_) => true,
            Network::Nginx(_) => app@.domains is Some,
        },
{
    match network {
        Network::Internal(_) => true,
        Network::Nginx(_) => app.domains.is_some(),
    }
}

/// A project with at least one app that declares domains.
pub open spec fn project_exposed(p: ProjectView) -> bool {
    exists|k: int| 0 <= k < p.apps.len() && (#[trigger] p.apps[k]).domains is Some
}

/// Whether some app of the project declares domains.
pub fn has_exposed_app(project: &Project) -> (r: bool)
    ensures
        r == project_exposed(project@),
{
    let mut i: usize = 0;
    while i < project.apps.len()
        invariant
            i <= project.apps@.len(),
            forall|j: int| 0 <= j < i ==> !((#[trigger] project@.apps[j]).domains is Some),
        decreases project.apps@.len() - i,
    {
        if project.apps[i].domains.is_some() {
            proof {
                assert(project@.apps[i as int].domains is Some);
            }
            return true;
        }
        i = i + 1;
    }
    false
}

/// Every name in `rs` is the proxy-facing network of some exposed
/// project of `pv`.
pub open spec fn proxy_nets_sound(prefix: Seq<char>, pv: Seq<ProjectView>, rs: Seq<Seq<char>>) -> bool {
    forall|x: int|
        0 <= x < rs.len() ==> exists|j: int|
            0 <= j < pv.len() && project_exposed(#[trigger] pv[j]) && #[trigger] rs[x]
                == proxy_net_of(prefix, pv[j].name)
}

/// Every exposed project of `pv` has its proxy-facing network in `rs`.
pub open spec fn proxy_nets_complete(prefix: Seq<char>, pv: Seq<ProjectView>, rs: Seq<Seq<char>>) -> bool {
    forall|j: int|
        0 <= j < pv.len() && project_exposed(#[trigger] pv[j]) ==> rs.contains(
            proxy_net_of(prefix, pv[j].name),
        )
}

/// Names of the proxy-facing networks the reverse proxy must join: one
/// per project that exposes at least one app. The proxy is connected
/// lazily, so projects with nothing to expose contribute nothing.
pub fn proxy_networks_to_join(prefix: &String, projects: &Vec<Project>) -> (r: Vec<String>)
    ensures
        proxy_nets_sound(prefix@, projects.deep_view(), r.deep_view()),
        proxy_nets_complete(prefix@, projects.deep_view(), r.deep_view()),
{
    let ghost pv = projects.deep_view();
    let mut r: Vec<String> = Vec::new();
    let mut i: usize = 0;
    while i < projects.len()
        invariant
            i <= projects@.len(),
            pv == projects.deep_view(),
            proxy_nets_sound(prefix@, pv, r.deep_view()),
            forall|j: int|
                0 <= j < i && project_exposed(#[trigger] pv[j]) ==> r.deep_view().contains(
                    proxy_net_of(prefix@, pv[j].name),
                ),
        decreases projects@.len() - i,
    {
        if has_exposed_app(&projects[i]) {
            let ghost r0 = r;
            let net = Network::nginx_from_project(prefix, &projects[i].name);
            let name = match net {
                Network::Nginx(n) => n,
                Network::Internal(n) => n,
            };
            let ghost gname = name;
            r.push(name);
            proof {
                crate::vecs::lemma_deep_view_push(r0, r, gname);
                assert(gname@ == proxy_net_of(prefix@, pv[i as int].name));
                assert(r.deep_view()[r.deep_view().len() - 1] == proxy_net_of(
                    prefix@,
                    pv[i as int].name,
                ));
                assert(project_exposed(pv[i as int]));
                assert forall|x: int| 0 <= x < r.deep_view().len() implies exists|j: int|
                    0 <= j < pv.len() && project_exposed(#[trigger] pv[j])
                        && #[trigger] r.deep_view()[x] == proxy_net_of(prefix@, pv[j].name) by {
                    if x < r0.deep_view().len() {
                        assert(r.deep_view()[x] == r0.deep_view()[x]);
                        assert(proxy_nets_sound(prefix@, pv, r0.deep_view()));
                    } else {
                        assert(r.deep_view()[x] == proxy_net_of(prefix@, pv[i as int].name));
                    }
                }
                assert(proxy_nets_sound(prefix@, pv, r.deep_view()));
                assert forall|j: int|
                    0 <= j < i + 1 && project_exposed(#[trigger] pv[j]) implies r.deep_view()
                    .contains(proxy_net_of(prefix@, pv[j].name)) by {
                    if j < i as int {
                        let x = choose|x: int|
                            0 <= x < r0.deep_view().len() && #[trigger] r0.deep_view()[x]
                                == proxy_net_of(prefix@, pv[j].name);
                        assert(r.deep_view()[x] == proxy_net_of(prefix@, pv[j].name));
                    }
                }
            }
        }
        i = i + 1;
    }
    r
}

} // verus!
