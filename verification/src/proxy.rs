//! Reverse-proxy coordination.
//!
//! The proxy is one nginx container that serves every exposed app. The
//! functions here derive the exact commands run inside it (publishing
//! and removing virtual-host files, issuing certificates, readiness
//! probes), the values its own container is created from, and the
//! decision how to bring it up.

use vstd::prelude::*;

use crate::models::App;
use crate::names::Network;
use crate::vecs::push_string;

verus! {

/// Volume binds the proxy container is created with.
pub const NGINX_CERT_VOLUME: &'static str = "nbot_certs:/etc/letsencrypt:rw";

pub const NGINX_CONFD_VOLUME: &'static str = "nbot_confd:/etc/nginx/conf.d";

pub const NGINX_HTML_VOLUME: &'static str = "nbot_html:/usr/share/nginx/html";

pub const NGINX_STATIC_VOLUME: &'static str = "nbot_static:/static/";

pub const NGINX_MEDIA_VOLUME: &'static str = "nbot_media:/media/";

/// Unprefixed name of the proxy container.
pub const NGINX_CONTAINER_NAME: &'static str = "nginx";

/// Image reference the proxy container runs.
pub const NGINX_IMAGE_NAME: &'static str = "nbot/nginx";

/// The reverse-proxy coordinator.
pub struct Nginx;

/// The values the proxy's own container is created from: ports 80 and
/// 443 published on the identical host ports, and the five standard
/// volumes.
pub struct ProxySpec {
    pub name: String,
    pub image: String,
    pub ports: Vec<(String, String)>,
    pub volumes: Vec<String>,
}

/// How to bring the proxy up, given what the engine shows: whether its
/// image exists, how many containers run that image, and whether that
/// container is running.
pub enum ProxyStart {
    /// No proxy image exists yet; it must be built (or the container
    /// run fresh).
    NoImage,
    /// No container of the proxy image exists; run one.
    NoContainer,
    /// More than one container of the proxy image exists; this is fatal
    /// ambiguity.
    Multiple,
    /// The proxy container already runs; nothing to do.
    AlreadyRunning,
    /// The proxy container exists but is stopped; start it.
    StartExisting,
}

impl Nginx {
    /// Decides how to bring the proxy container up.
    pub fn start_decision(image_found: bool, container_count: usize, running: bool) -> (r:
        ProxyStart)
        ensures
            r is NoImage <==> !image_found,
            r is NoContainer <==> image_found && container_count == 0,
            r is Multiple <==> image_found && container_count > 1,
            r is AlreadyRunning <==> image_found && container_count == 1 && running,
            r is StartExisting <==> image_found && container_count == 1 && !running,
    {
        if !image_found {
            ProxyStart::NoImage
        } else if container_count == 0 {
            ProxyStart::NoContainer
        } else if container_count > 1 {
            ProxyStart::Multiple
        } else if running {
            ProxyStart::AlreadyRunning
        } else {
            ProxyStart::StartExisting
        }
    }

    /// The creation values of the proxy's own container.
    pub fn create_spec(prefix: &String, image_id: &String) -> (r: ProxySpec)
        ensures
            r.name@ == crate::names::proxy_container_name_of(prefix@),
            r.image@ == image_id@,
            r.ports.deep_view() == seq![("80"@, "80"@), ("443"@, "443"@)],
            r.volumes.deep_view() == seq![
                NGINX_CERT_VOLUME@,
                NGINX_CONFD_VOLUME@,
                NGINX_HTML_VOLUME@,
                NGINX_STATIC_VOLUME@,
                NGINX_MEDIA_VOLUME@,
            ],
    {
        let mut ports: Vec<(String, String)> = Vec::new();
        let ghost p0 = ports;
        let pair80 = (String::from_str("80"), String::from_str("80"));
        let ghost g80 = pair80;
        ports.push(pair80);
        proof {
            crate::vecs::lemma_deep_view_push(p0, ports, g80);
        }
        let ghost p1 = ports;
        let pair443 = (String::from_str("443"), String::from_str("443"));
        let ghost g443 = pair443;
        ports.push(pair443);
        proof {
            crate::vecs::lemma_deep_view_push(p1, ports, g443);
            assert(ports.deep_view() =~= seq![("80"@, "80"@), ("443"@, "443"@)]);
        }
        let mut volumes: Vec<String> = Vec::new();
        push_string(&mut volumes, String::from_str(NGINX_CERT_VOLUME));
        push_string(&mut volumes, String::from_str(NGINX_CONFD_VOLUME));
        push_string(&mut volumes, String::from_str(NGINX_HTML_VOLUME));
        push_string(&mut volumes, String::from_str(NGINX_STATIC_VOLUME));
        push_string(&mut volumes, String::from_str(NGINX_MEDIA_VOLUME));
        proof {
            assert(volumes.deep_view() =~= seq![
                NGINX_CERT_VOLUME@,
                NGINX_CONFD_VOLUME@,
                NGINX_HTML_VOLUME@,
                NGINX_STATIC_VOLUME@,
                NGINX_MEDIA_VOLUME@,
            ]);
        }
        ProxySpec {
            name: crate::names::proxy_container_name(prefix),
            image: image_id.clone(),
            ports,
            volumes,
        }
    }

    /// A proxy joins only proxy-facing networks; internal networks are
    /// none of its business.
    pub fn joins_network(network: &Network) -> (r: bool)
        ensures
            r == network is Nginx,
    {
        match network {
            Network::Internal(_) => false,
            Network::Nginx(_) => true,
        }
    }

    /// The command publishing an app's virtual-host file inside the
    /// proxy container, for apps that declare domains: the file is
    /// keyed by the first domain, the backend is the app's container on
    /// its port (default 80), and every declared domain is served.
    pub fn add_conf(app: &App) -> (r: Option<Vec<String>>)
        ensures
            r is Some <==> app@.exposed(),
            r matches Some(cmd) ==> cmd.deep_view() == seq![
                "sh"@,
                "/functions.sh"@,
                "add_conf"@,
                app@.domains->Some_0[0],
                app@.container_name,
                match app@.port {
                    Some(p) => p,
                    None => "80"@,
                },
            ] + app@.domains->Some_0,
    {
        let domains = match &app.domains {
            Some(ds) => ds,
            None => {
                return None;
            },
        };
        if domains.len() == 0 {
            return None;
        }
        let port = match &app.port {
            Some(p) => p.clone(),
            None => String::from_str("80"),
        };
        let mut cmd: Vec<String> = Vec::new();
        push_string(&mut cmd, String::from_str("sh"));
        push_string(&mut cmd, String::from_str("/functions.sh"));
        push_string(&mut cmd, String::from_str("add_conf"));
        push_string(&mut cmd, domains[0].clone());
        push_string(&mut cmd, app.container_name.clone());
        push_string(&mut cmd, port);
        let ghost head = cmd.deep_view();
        let mut i: usize = 0;
        while i < domains.len()
            invariant
                i <= domains@.len(),
                cmd.deep_view() =~= head + domains.deep_view().take(i as int),
            decreases domains@.len() - i,
        {
            push_string(&mut cmd, domains[i].clone());
            proof {
                assert(cmd.deep_view() =~= head + domains.deep_view().take(i as int + 1));
            }
            i = i + 1;
        }
        proof {
            assert(cmd.deep_view() =~= head + domains.deep_view());
            assert(cmd.deep_view() =~= seq![
                "sh"@,
                "/functions.sh"@,
                "add_conf"@,
                app@.domains->Some_0[0],
                app@.container_name,
                match app@.port {
                    Some(p) => p,
                    None => "80"@,
                },
            ] + app@.domains->Some_0);
        }
        Some(cmd)
    }

    /// The command removing an app's virtual-host file (keyed by its
    /// first domain); a no-op command set for apps without domains.
    pub fn remove_conf(app: &App) -> (r: Option<Vec<String>>)
        ensures
            r is Some <==> app@.exposed(),
            r matches Some(cmd) ==> cmd.deep_view() == seq![
                "sh"@,
                "/functions.sh"@,
                "remove_conf"@,
                app@.domains->Some_0[0],
            ],
    {
        let domains = match &app.domains {
            Some(ds) => ds,
            None => {
                return None;
            },
        };
        if domains.len() == 0 {
            return None;
        }
        let mut cmd: Vec<String> = Vec::new();
        push_string(&mut cmd, String::from_str("sh"));
        push_string(&mut cmd, String::from_str("/functions.sh"));
        push_string(&mut cmd, String::from_str("remove_conf"));
        push_string(&mut cmd, domains[0].clone());
        proof {
            assert(cmd.deep_view() =~= seq![
                "sh"@,
                "/functions.sh"@,
                "remove_conf"@,
                app@.domains->Some_0[0],
            ]);
        }
        Some(cmd)
    }

    /// The issuance command for an app's domains: the self-signed path
    /// covers the first domain, the ACME path carries the contact email
    /// and covers every domain.
    pub fn generate_certificates(app: &App) -> (r: Option<Vec<String>>)
        requires
            app@.domains is Some ==> app@.email is Some,
        ensures
            r is Some <==> app@.exposed(),
            r matches Some(cmd) ==> ({
                &&& app@.openssl == Some(true) ==> cmd.deep_view() == seq![
                    "sh"@,
                    "/functions.sh"@,
                    "generate_certs_openssl"@,
                    app@.domains->Some_0[0],
                ]
                &&& app@.openssl != Some(true) ==> cmd.deep_view() == seq![
                    "sh"@,
                    "/functions.sh"@,
                    "generate_certs_certbot"@,
                    app@.email->Some_0,
                ] + app@.domains->Some_0
            }),
    {
        let domains = match &app.domains {
            Some(ds) => ds,
            None => {
                return None;
            },
        };
        if domains.len() == 0 {
            return None;
        }
        let use_openssl = match app.openssl {
            Some(b) => b,
            None => false,
        };
        let mut cmd: Vec<String> = Vec::new();
        push_string(&mut cmd, String::from_str("sh"));
        push_string(&mut cmd, String::from_str("/functions.sh"));
        if use_openssl {
            push_string(&mut cmd, String::from_str("generate_certs_openssl"));
            push_string(&mut cmd, domains[0].clone());
            proof {
                assert(cmd.deep_view() =~= seq![
                    "sh"@,
                    "/functions.sh"@,
                    "generate_certs_openssl"@,
                    app@.domains->Some_0[0],
                ]);
            }
            return Some(cmd);
        }
        push_string(&mut cmd, String::from_str("generate_certs_certbot"));
        let email = match &app.email {
            Some(e) => e.clone(),
            None => {
                proof {
                    assert(false);
                }
                String::new()
            },
        };
        push_string(&mut cmd, email);
        let ghost head = cmd.deep_view();
        let mut i: usize = 0;
        while i < domains.len()
            invariant
                i <= domains@.len(),
                cmd.deep_view() =~= head + domains.deep_view().take(i as int),
            decreases domains@.len() - i,
        {
            push_string(&mut cmd, domains[i].clone());
            proof {
                assert(cmd.deep_view() =~= head + domains.deep_view().take(i as int + 1));
            }
            i = i + 1;
        }
        proof {
            assert(cmd.deep_view() =~= head + domains.deep_view());
            assert(cmd.deep_view() =~= seq![
                "sh"@,
                "/functions.sh"@,
                "generate_certs_certbot"@,
                app@.email->Some_0,
            ] + app@.domains->Some_0);
        }
        Some(cmd)
    }
}

impl App {
    /// The URL the readiness probe targets, resolved by container name
    /// inside the proxy's network namespace.
    pub fn probe_url(&self) -> (r: String)
        ensures
            self@.port matches Some(p) ==> r@ == "http://"@ + self@.container_name + ":"@ + p,
            self@.port is None ==> r@ == "http://"@ + self@.container_name,
    {
        let mut r = String::from_str("http://");
        r.append(self.container_name.as_str());
        match &self.port {
            Some(p) => {
                r.append(":");
                r.append(p.as_str());
                proof {
                    assert(r@ =~= "http://"@ + self@.container_name + ":"@ + self@.port->Some_0);
                }
            },
            None => {},
        }
        r
    }

    /// The probe command run inside the proxy container.
    pub fn probe_command(&self) -> (r: Vec<String>)
        ensures
            r.deep_view() == seq![
                "curl"@,
                "-I"@,
                match self@.port {
                    Some(p) => "http://"@ + self@.container_name + ":"@ + p,
                    None => "http://"@ + self@.container_name,
                },
            ],
    {
        let mut cmd: Vec<String> = Vec::new();
        push_string(&mut cmd, String::from_str("curl"));
        push_string(&mut cmd, String::from_str("-I"));
        push_string(&mut cmd, self.probe_url());
        proof {
            assert(cmd.deep_view() =~= seq![
                "curl"@,
                "-I"@,
                match self@.port {
                    Some(p) => "http://"@ + self@.container_name + ":"@ + p,
                    None => "http://"@ + self@.container_name,
                },
            ]);
        }
        cmd
    }
}

} // verus!
