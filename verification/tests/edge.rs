use nbot::commands::filter_prefixed_ids;
use nbot::models::App;
use nbot::version::Version;

fn edge_app(name: &str, deps: Vec<&str>) -> App {
    App {
        name: name.to_string(),
        image: "img".to_string(),
        container_name: format!("nbot_p_{}", name),
        port: None,
        env_vars: vec![],
        volumes: vec![],
        depends_on: deps.into_iter().map(|d| d.to_string()).collect(),
        domains: None,
        email: None,
        openssl: None,
        privileged: false,
        network_aliases: vec![],
    }
}

#[test]
fn resolution_of_an_empty_set_is_empty() {
    let order = App::topological_sort_by_dependenceis(&vec![]).unwrap();
    assert!(order.is_empty());
    assert!(App::validate(&vec![]).is_ok());
}

#[test]
fn resolution_handles_a_long_chain() {
    // fifty apps, each depending on the next; the order must be fully
    // reversed
    let n = 50;
    let mut apps = vec![];
    for i in 0..n {
        let deps = if i + 1 < n {
            vec![format!("app{}", i + 1)]
        } else {
            vec![]
        };
        let mut app = edge_app(&format!("app{}", i), vec![]);
        app.depends_on = deps;
        apps.push(app);
    }
    let order = App::topological_sort_by_dependenceis(&apps).unwrap();
    for (k, app) in order.iter().enumerate() {
        assert_eq!(app.name, format!("app{}", n - 1 - k));
    }
}

#[test]
fn network_ids_are_filtered_by_prefix() {
    let pairs = vec![
        ("nbot_blog_net".to_string(), "id1".to_string()),
        ("bridge".to_string(), "id2".to_string()),
        ("nbot_proxy_blog_net".to_string(), "id3".to_string()),
        ("host".to_string(), "id4".to_string()),
    ];
    let ids = filter_prefixed_ids(&pairs, &"nbot_".to_string());
    assert_eq!(ids, vec!["id1".to_string(), "id3".to_string()]);
    let none = filter_prefixed_ids(&pairs, &"zzz_".to_string());
    assert!(none.is_empty());
}

#[test]
fn version_is_read_from_a_manifest() {
    let manifest = "[package]\nname = \"nbot\"\nversion = \"0.1.0\"\nedition = \"2021\"\n";
    assert_eq!(Version::get(manifest), Some("0.1.0".to_string()));
}

#[test]
fn version_line_may_use_odd_spacing() {
    let manifest = "name = \"x\"\nversion=   \"2.4.1\"  \n";
    assert_eq!(Version::get(manifest), Some("2.4.1".to_string()));
}

#[test]
fn missing_version_line_yields_none() {
    assert_eq!(Version::get("[package]\nname = \"x\"\n"), None);
    assert_eq!(Version::get(""), None);
}
