use nbot::certs::{vhost_conf, CertAction, CertObservation};
use nbot::dirs::Dirs;
use nbot::images::{parse_image_ref, select_image, ImageInfo};
use nbot::models::App;
use nbot::proxy::{Nginx, ProxyStart};
use nbot::reconcile::{ContainerObservation, ReconcilePlan, StartPlan};
use nbot::rollout::{Phase, Rollout, RolloutAction, RolloutEvent, PROBE_ATTEMPTS};
use nbot::status::{short_id, AppStatus, Status};

fn publish_app(
    name: &str,
    port: Option<&str>,
    domains: Option<Vec<&str>>,
    openssl: Option<bool>,
) -> App {
    App {
        name: name.to_string(),
        image: format!("img/{}", name),
        container_name: format!("nbot_blog_{}", name),
        port: port.map(|p| p.to_string()),
        env_vars: vec!["K=V".to_string()],
        volumes: vec!["data:/data".to_string()],
        depends_on: vec![],
        domains: domains.map(|ds| ds.into_iter().map(|d| d.to_string()).collect()),
        email: Some("a@b.com".to_string()),
        openssl,
        privileged: false,
        network_aliases: vec!["alias1".to_string()],
    }
}

#[test]
fn bare_second_level_domain_gets_www_alias() {
    // example.com has one label before the top-level domain
    let app = publish_app("web", None, Some(vec!["example.com"]), None);
    let conf = vhost_conf(&app, &"example.com".to_string());
    assert_eq!(conf.file_name, "example.com");
    assert_eq!(conf.primary, "example.com");
    assert_eq!(conf.backend, "nbot_blog_web");
    assert_eq!(conf.port, "80");
    assert_eq!(conf.www_alias, Some("www.example.com".to_string()));
}

#[test]
fn subdomain_gets_no_www_alias() {
    let app = publish_app("web", Some("3000"), Some(vec!["api.example.com"]), None);
    let conf = vhost_conf(&app, &"api.example.com".to_string());
    assert_eq!(conf.file_name, "api.example.com");
    assert_eq!(conf.port, "3000");
    assert_eq!(conf.www_alias, None);
}

#[test]
fn usable_certificate_skips_issuance() {
    // a valid, non-expiring certificate means no issuance command runs
    let app = publish_app("web", None, Some(vec!["example.com"]), None);
    let usable = CertObservation {
        present: true,
        expires_within_day: false,
    };
    let action = app.certificate_action(&"example.com".to_string(), &usable);
    assert!(matches!(action, CertAction::Skip));
}

#[test]
fn missing_certificate_issues_acme_with_email() {
    let app = publish_app("web", None, Some(vec!["example.com"]), None);
    let missing = CertObservation {
        present: false,
        expires_within_day: false,
    };
    match app.certificate_action(&"example.com".to_string(), &missing) {
        CertAction::IssueAcme(email, domain) => {
            assert_eq!(email, "a@b.com");
            assert_eq!(domain, "example.com");
        }
        _ => panic!("expected an acme issuance"),
    }
}

#[test]
fn expiring_certificate_is_reissued_self_signed() {
    let app = publish_app("web", None, Some(vec!["example.com"]), Some(true));
    let expiring = CertObservation {
        present: true,
        expires_within_day: true,
    };
    match app.certificate_action(&"example.com".to_string(), &expiring) {
        CertAction::IssueSelfSigned(domain) => assert_eq!(domain, "example.com"),
        _ => panic!("expected a self-signed issuance"),
    }
}

fn fresh_observation() -> ContainerObservation {
    ContainerObservation {
        exists: false,
        running: false,
        container_image_id: None,
        resolved_image_id: Some("sha256:abc".to_string()),
    }
}

#[test]
fn reconcile_reuses_current_running_container() {
    let app = publish_app("web", None, None, None);
    let obs = ContainerObservation {
        exists: true,
        running: true,
        container_image_id: Some("sha256:abc".to_string()),
        resolved_image_id: Some("sha256:abc".to_string()),
    };
    assert!(matches!(app.reconcile(&obs), ReconcilePlan::Reuse));
}

#[test]
fn reconcile_recreates_on_stale_image() {
    let app = publish_app("web", Some("3000"), None, None);
    let obs = ContainerObservation {
        exists: true,
        running: true,
        container_image_id: Some("sha256:old".to_string()),
        resolved_image_id: Some("sha256:new".to_string()),
    };
    match app.reconcile(&obs) {
        ReconcilePlan::Recreate(cs) => {
            assert_eq!(cs.name, "nbot_blog_web");
            assert_eq!(cs.image, "img/web");
            assert_eq!(
                cs.port_binding,
                Some(("3000".to_string(), "3000".to_string()))
            );
            assert!(cs.init);
            assert!(!cs.privileged);
            assert_eq!(cs.env_vars, vec!["K=V".to_string()]);
            assert_eq!(cs.volumes, vec!["data:/data".to_string()]);
            assert_eq!(cs.network_aliases, vec!["alias1".to_string()]);
        }
        _ => panic!("expected a recreate plan"),
    }
}

#[test]
fn start_plan_covers_all_states() {
    let app = publish_app("web", None, None, None);
    assert!(matches!(app.start_plan(true, true), StartPlan::AlreadyRunning));
    assert!(matches!(app.start_plan(true, false), StartPlan::Start));
    assert!(matches!(
        app.start_plan(false, false),
        StartPlan::CreateAndStart(_)
    ));
}

#[test]
fn exhausted_probing_stops_the_container_and_records_the_reason() {
    // the backoff schedule runs out without a success: the container is
    // stopped, the last output becomes the failure reason, and no
    // certificate or config action was ever emitted
    let app = publish_app("web", None, Some(vec!["blog.example.com"]), None);
    let mut rollout = Rollout::new(app);
    let a = rollout.step(RolloutEvent::Observed(fresh_observation()));
    assert!(matches!(a, RolloutAction::Recreate(_)));
    let a = rollout.step(RolloutEvent::Created(true));
    assert!(matches!(a, RolloutAction::JoinNetworksAndStart));
    let a = rollout.step(RolloutEvent::Started(true));
    assert!(matches!(a, RolloutAction::WaitProbe(1)));
    for attempt in 0..PROBE_ATTEMPTS {
        let a = rollout.step(RolloutEvent::Probe(false, format!("refused {}", attempt)));
        if attempt + 1 < PROBE_ATTEMPTS {
            match a {
                RolloutAction::WaitProbe(w) => assert_eq!(w, attempt as u64 + 2),
                _ => panic!("expected another probe"),
            }
        } else {
            assert!(matches!(a, RolloutAction::StopAndFail));
        }
    }
    match &rollout.phase {
        Phase::Done(success, reason) => {
            assert!(!success);
            assert_eq!(reason, "refused 13");
        }
        _ => panic!("expected the rollout to be done"),
    }
}

#[test]
fn successful_probe_gates_certificates_and_publication() {
    let app = publish_app(
        "web",
        Some("8080"),
        Some(vec!["example.com", "api.example.com"]),
        None,
    );
    let mut rollout = Rollout::new(app);
    let obs = ContainerObservation {
        exists: true,
        running: true,
        container_image_id: Some("i".to_string()),
        resolved_image_id: Some("i".to_string()),
    };
    let a = rollout.step(RolloutEvent::Observed(obs));
    assert!(matches!(a, RolloutAction::WaitProbe(1)));
    let a = rollout.step(RolloutEvent::Probe(true, String::new()));
    match a {
        RolloutAction::CertifyDomain(d) => assert_eq!(d, "example.com"),
        _ => panic!("expected certificate handling"),
    }
    let a = rollout.step(RolloutEvent::CertHandled);
    match a {
        RolloutAction::WriteConf(vc) => {
            assert_eq!(vc.file_name, "example.com");
            assert_eq!(vc.backend, "nbot_blog_web");
            assert_eq!(vc.port, "8080");
            assert_eq!(vc.www_alias, Some("www.example.com".to_string()));
        }
        _ => panic!("expected a config write"),
    }
    let a = rollout.step(RolloutEvent::ConfWritten);
    match a {
        RolloutAction::CertifyDomain(d) => assert_eq!(d, "api.example.com"),
        _ => panic!("expected the second domain"),
    }
    let a = rollout.step(RolloutEvent::CertHandled);
    match a {
        RolloutAction::WriteConf(vc) => {
            assert_eq!(vc.file_name, "api.example.com");
            assert_eq!(vc.www_alias, None);
        }
        _ => panic!("expected a config write"),
    }
    let a = rollout.step(RolloutEvent::ConfWritten);
    assert!(matches!(a, RolloutAction::Complete));
    assert!(matches!(rollout.phase, Phase::Done(true, _)));
}

#[test]
fn unexposed_app_uses_the_light_running_check() {
    let app = publish_app("db", None, None, None);
    let mut rollout = Rollout::new(app);
    let a = rollout.step(RolloutEvent::Observed(fresh_observation()));
    assert!(matches!(a, RolloutAction::Recreate(_)));
    let a = rollout.step(RolloutEvent::Created(true));
    assert!(matches!(a, RolloutAction::JoinNetworksAndStart));
    let a = rollout.step(RolloutEvent::Started(true));
    assert!(matches!(a, RolloutAction::WaitRunningCheck(1)));
    let a = rollout.step(RolloutEvent::RunningCheck(false));
    assert!(matches!(a, RolloutAction::WaitRunningCheck(2)));
    let a = rollout.step(RolloutEvent::RunningCheck(true));
    assert!(matches!(a, RolloutAction::Complete));
    assert!(matches!(rollout.phase, Phase::Done(true, _)));
}

#[test]
fn failed_creation_fails_only_this_app() {
    let app = publish_app("web", None, Some(vec!["example.com"]), None);
    let mut rollout = Rollout::new(app);
    rollout.step(RolloutEvent::Observed(fresh_observation()));
    let a = rollout.step(RolloutEvent::Created(false));
    assert!(matches!(a, RolloutAction::Complete));
    assert!(matches!(rollout.phase, Phase::Done(false, _)));
}

#[test]
fn add_conf_command_lists_every_domain() {
    let app = publish_app(
        "web",
        Some("8080"),
        Some(vec!["example.com", "api.example.com"]),
        None,
    );
    let cmd = Nginx::add_conf(&app).unwrap();
    assert_eq!(
        cmd,
        vec![
            "sh",
            "/functions.sh",
            "add_conf",
            "example.com",
            "nbot_blog_web",
            "8080",
            "example.com",
            "api.example.com",
        ]
    );
    let internal = publish_app("db", None, None, None);
    assert!(Nginx::add_conf(&internal).is_none());
}

#[test]
fn remove_conf_command_is_keyed_by_the_first_domain() {
    let app = publish_app("web", None, Some(vec!["example.com", "b.example.com"]), None);
    let cmd = Nginx::remove_conf(&app).unwrap();
    assert_eq!(cmd, vec!["sh", "/functions.sh", "remove_conf", "example.com"]);
}

#[test]
fn certificate_commands_follow_the_issuance_path() {
    let acme = publish_app("web", None, Some(vec!["example.com", "b.example.com"]), None);
    let cmd = Nginx::generate_certificates(&acme).unwrap();
    assert_eq!(
        cmd,
        vec![
            "sh",
            "/functions.sh",
            "generate_certs_certbot",
            "a@b.com",
            "example.com",
            "b.example.com",
        ]
    );
    let selfsigned = publish_app("web", None, Some(vec!["example.com"]), Some(true));
    let cmd = Nginx::generate_certificates(&selfsigned).unwrap();
    assert_eq!(
        cmd,
        vec!["sh", "/functions.sh", "generate_certs_openssl", "example.com"]
    );
}

#[test]
fn probe_command_targets_the_container_by_name() {
    let with_port = publish_app("web", Some("8080"), Some(vec!["example.com"]), None);
    assert_eq!(
        with_port.probe_command(),
        vec!["curl", "-I", "http://nbot_blog_web:8080"]
    );
    let without = publish_app("web", None, Some(vec!["example.com"]), None);
    assert_eq!(
        without.probe_command(),
        vec!["curl", "-I", "http://nbot_blog_web"]
    );
}

#[test]
fn proxy_create_spec_publishes_http_and_https() {
    let spec = Nginx::create_spec(&"nbot_".to_string(), &"sha256:img".to_string());
    assert_eq!(spec.name, "nbot_nginx");
    assert_eq!(spec.image, "sha256:img");
    assert_eq!(
        spec.ports,
        vec![
            ("80".to_string(), "80".to_string()),
            ("443".to_string(), "443".to_string()),
        ]
    );
    assert_eq!(spec.volumes.len(), 5);
    assert_eq!(spec.volumes[0], "nbot_certs:/etc/letsencrypt:rw");
}

#[test]
fn proxy_start_decision_covers_all_states() {
    assert!(matches!(Nginx::start_decision(false, 0, false), ProxyStart::NoImage));
    assert!(matches!(Nginx::start_decision(true, 0, false), ProxyStart::NoContainer));
    assert!(matches!(Nginx::start_decision(true, 2, false), ProxyStart::Multiple));
    assert!(matches!(Nginx::start_decision(true, 1, true), ProxyStart::AlreadyRunning));
    assert!(matches!(Nginx::start_decision(true, 1, false), ProxyStart::StartExisting));
}

fn image(id: &str, created: i64, tags: Vec<&str>) -> ImageInfo {
    ImageInfo {
        id: id.to_string(),
        created,
        repo_tags: tags.into_iter().map(|t| t.to_string()).collect(),
    }
}

#[test]
fn image_selection_prefers_the_latest_tag() {
    let images = vec![
        image("a", 10, vec!["x:1"]),
        image("b", 5, vec!["x:latest"]),
        image("c", 20, vec!["x:2"]),
    ];
    let k = select_image(&images, &"x".to_string()).unwrap();
    assert_eq!(k, 1);
}

#[test]
fn image_selection_falls_back_to_newest() {
    let images = vec![
        image("a", 10, vec!["x:1"]),
        image("b", 30, vec!["x:2"]),
        image("c", 20, vec!["x:3"]),
    ];
    let k = select_image(&images, &"x".to_string()).unwrap();
    assert_eq!(k, 1);
    assert!(select_image(&Vec::new(), &"x".to_string()).is_none());
    let single = vec![image("only", 1, vec![])];
    assert_eq!(select_image(&single, &"x".to_string()).unwrap(), 0);
}

#[test]
fn image_refs_split_at_the_first_colon() {
    let (name, tag) = parse_image_ref("nginx:1.25");
    assert_eq!(name, "nginx");
    assert_eq!(tag, "1.25");
    let (name, tag) = parse_image_ref("nginx");
    assert_eq!(name, "nginx");
    assert_eq!(tag, "latest");
}

#[test]
fn status_rows_render_the_app() {
    let app = publish_app(
        "web",
        Some("8080"),
        Some(vec!["example.com", "api.example.com"]),
        Some(false),
    );
    let row = AppStatus::from_app(&app, &"blog".to_string(), "running".to_string());
    assert_eq!(row.project, "blog");
    assert_eq!(row.service, "web");
    assert_eq!(row.container_name, "nbot_blog_web");
    assert_eq!(row.port, "8080");
    assert_eq!(row.status, "running");
    assert_eq!(row.domains, "example.com\napi.example.com");
    assert_eq!(row.image, "img/web");
    assert_eq!(row.certificate, "letsencrypt");
    let bare = publish_app("db", None, None, None);
    let row = AppStatus::from_app(&bare, &"blog".to_string(), "exited".to_string());
    assert_eq!(row.port, "");
    assert_eq!(row.domains, "");
    assert_eq!(row.certificate, "");
}

#[test]
fn status_rows_pair_apps_with_their_states() {
    let apps = vec![
        publish_app("db", None, None, None),
        publish_app("web", None, None, Some(true)),
    ];
    let statuses = vec!["running".to_string(), "exited".to_string()];
    let rows = AppStatus::from_apps(&apps, &"blog".to_string(), &statuses);
    assert_eq!(rows.len(), 2);
    assert_eq!(rows[0].service, "db");
    assert_eq!(rows[0].status, "running");
    assert_eq!(rows[1].service, "web");
    assert_eq!(rows[1].certificate, "openssl");
}

#[test]
fn short_ids_are_truncated_with_an_ellipsis() {
    assert_eq!(short_id("0123456789abcdef"), "0123456789ab...");
    assert_eq!(short_id("short"), "short...");
}

#[test]
fn nginx_status_line_reports_the_state() {
    let s = "running".to_string();
    assert_eq!(Status::nginx_line(Some(&s)), "Nginx: running");
    assert_eq!(Status::nginx_line(None), "Nginx: not found");
}

#[test]
fn config_file_lives_in_the_config_dir() {
    assert_eq!(Dirs::_config_dir(), "/etc/nbot");
    assert_eq!(Dirs::config_file(), "/etc/nbot/config.json");
}
