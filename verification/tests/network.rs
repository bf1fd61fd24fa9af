use nbot::commands::{dedup_strings, split_projects};
use nbot::models::{App, Project};
use nbot::names::{container_name, proxy_container_name, Network};
use nbot::topology::{
    has_exposed_app, proxy_networks_to_join, should_connect, EngineNetworks, NetworkCommand,
};

fn network_app(name: &str, project: &str, domains: Option<Vec<&str>>) -> App {
    App {
        name: name.to_string(),
        image: format!("img/{}", name),
        container_name: format!("nbot_{}_{}", project, name),
        port: None,
        env_vars: vec![],
        volumes: vec![],
        depends_on: vec![],
        domains: domains.map(|ds| ds.into_iter().map(|d| d.to_string()).collect()),
        email: domains_email(&name),
        openssl: None,
        privileged: false,
        network_aliases: vec![],
    }
}

fn domains_email(_name: &str) -> Option<String> {
    Some("a@b.com".to_string())
}

#[test]
fn container_names_are_deterministic() {
    let prefix = "nbot_".to_string();
    let project = "blog".to_string();
    let app = "web".to_string();
    let first = container_name(&prefix, &project, &app);
    let second = container_name(&prefix, &project, &app);
    assert_eq!(first, second);
    assert_eq!(first, "nbot_blog_web");
}

#[test]
fn container_names_do_not_collide() {
    let prefix = "nbot_".to_string();
    let a = container_name(&prefix, &"blog".to_string(), &"web".to_string());
    let b = container_name(&prefix, &"blog".to_string(), &"db".to_string());
    let c = container_name(&prefix, &"shop".to_string(), &"web".to_string());
    assert_ne!(a, b);
    assert_ne!(a, c);
    assert_ne!(b, c);
}

#[test]
fn network_names_are_deterministic_and_distinct() {
    let prefix = "nbot_".to_string();
    let blog = "blog".to_string();
    let shop = "shop".to_string();
    let i1 = Network::internal_from_project(&prefix, &blog);
    let i2 = Network::internal_from_project(&prefix, &blog);
    assert_eq!(i1.name().as_str(), i2.name().as_str());
    assert_eq!(i1.name().as_str(), "nbot_blog_net");
    let p1 = Network::nginx_from_project(&prefix, &blog);
    assert_eq!(p1.name().as_str(), "nbot_proxy_blog_net");
    assert_ne!(i1.name().as_str(), p1.name().as_str());
    let i3 = Network::internal_from_project(&prefix, &shop);
    assert_ne!(i1.name().as_str(), i3.name().as_str());
    let p2 = Network::nginx_from_project(&prefix, &shop);
    assert_ne!(p1.name().as_str(), p2.name().as_str());
}

#[test]
fn proxy_container_name_is_prefixed() {
    assert_eq!(proxy_container_name(&"nbot_".to_string()), "nbot_nginx");
}

#[test]
fn ensure_network_is_idempotent() {
    // the first call creates the network; the second makes no mutating
    // engine call and the network exists exactly once
    let mut nets = EngineNetworks {
        networks: vec![],
        connections: vec![],
    };
    let name = "nbot_blog_net".to_string();
    let first = nets.ensure_network(&name);
    match first {
        Some(NetworkCommand::Create(n)) => assert_eq!(n, "nbot_blog_net"),
        _ => panic!("expected a create command"),
    }
    let second = nets.ensure_network(&name);
    assert!(second.is_none());
    assert_eq!(nets.networks.len(), 1);
    assert_eq!(nets.networks[0], "nbot_blog_net");
}

#[test]
fn ensure_connected_is_idempotent() {
    let mut nets = EngineNetworks {
        networks: vec!["nbot_blog_net".to_string()],
        connections: vec![],
    };
    let container = "nbot_blog_web".to_string();
    let net = "nbot_blog_net".to_string();
    let first = nets.ensure_connected(&container, &net);
    match first {
        Some(NetworkCommand::Connect(c, n)) => {
            assert_eq!(c, "nbot_blog_web");
            assert_eq!(n, "nbot_blog_net");
        }
        _ => panic!("expected a connect command"),
    }
    let second = nets.ensure_connected(&container, &net);
    assert!(second.is_none());
    assert_eq!(nets.connections.len(), 1);
}

#[test]
fn disconnect_is_idempotent() {
    let container = "nbot_blog_web".to_string();
    let net = "nbot_proxy_blog_net".to_string();
    let mut nets = EngineNetworks {
        networks: vec![],
        connections: vec![(container.clone(), net.clone())],
    };
    let first = nets.disconnect(&container, &net);
    match first {
        Some(NetworkCommand::Disconnect(c, n)) => {
            assert_eq!(c, "nbot_blog_web");
            assert_eq!(n, "nbot_proxy_blog_net");
        }
        _ => panic!("expected a disconnect command"),
    }
    let second = nets.disconnect(&container, &net);
    assert!(second.is_none());
    assert!(nets.connections.is_empty());
}

#[test]
fn remove_network_is_idempotent() {
    let mut nets = EngineNetworks {
        networks: vec!["nbot_blog_net".to_string(), "other".to_string()],
        connections: vec![],
    };
    let name = "nbot_blog_net".to_string();
    let first = nets.remove_network(&name);
    match first {
        Some(NetworkCommand::Remove(n)) => assert_eq!(n, "nbot_blog_net"),
        _ => panic!("expected a remove command"),
    }
    let second = nets.remove_network(&name);
    assert!(second.is_none());
    assert_eq!(nets.networks, vec!["other".to_string()]);
}

#[test]
fn exposed_apps_join_both_networks() {
    // the blog scenario: web declares a domain and joins both networks;
    // db joins only the internal one
    let prefix = "nbot_".to_string();
    let blog = "blog".to_string();
    let internal = Network::internal_from_project(&prefix, &blog);
    let proxy = Network::nginx_from_project(&prefix, &blog);
    let web = network_app("web", "blog", Some(vec!["blog.example.com"]));
    let db = network_app("db", "blog", None);
    assert!(should_connect(&web, &internal));
    assert!(should_connect(&web, &proxy));
    assert!(should_connect(&db, &internal));
    assert!(!should_connect(&db, &proxy));
}

#[test]
fn proxy_joins_only_projects_with_exposed_apps() {
    let prefix = "nbot_".to_string();
    let blog = Project {
        name: "blog".to_string(),
        apps: vec![
            network_app("db", "blog", None),
            network_app("web", "blog", Some(vec!["blog.example.com"])),
        ],
    };
    let quiet = Project {
        name: "quiet".to_string(),
        apps: vec![network_app("db", "quiet", None)],
    };
    assert!(has_exposed_app(&blog));
    assert!(!has_exposed_app(&quiet));
    let nets = proxy_networks_to_join(&prefix, &vec![blog, quiet]);
    assert_eq!(nets, vec!["nbot_proxy_blog_net".to_string()]);
}

#[test]
fn split_projects_partitions_by_name() {
    let projects = vec![
        Project {
            name: "one".to_string(),
            apps: vec![],
        },
        Project {
            name: "two".to_string(),
            apps: vec![],
        },
        Project {
            name: "three".to_string(),
            apps: vec![],
        },
    ];
    let names = vec!["two".to_string()];
    let (remove, keep) = split_projects(&projects, &names);
    assert_eq!(remove.len(), 1);
    assert_eq!(remove[0].name, "two");
    assert_eq!(keep.len(), 2);
    assert_eq!(keep[0].name, "one");
    assert_eq!(keep[1].name, "three");
}

#[test]
fn dedup_keeps_first_occurrences() {
    let items = vec![
        "a".to_string(),
        "b".to_string(),
        "a".to_string(),
        "c".to_string(),
        "b".to_string(),
    ];
    let r = dedup_strings(&items);
    assert_eq!(r, vec!["a".to_string(), "b".to_string(), "c".to_string()]);
}
