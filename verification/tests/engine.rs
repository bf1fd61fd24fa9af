use nbot::errors::ValidationError;
use nbot::models::{App, Project};
use nbot::state::AppState;

fn engine_app(
    name: &str,
    project: &str,
    deps: Vec<&str>,
    domains: Option<Vec<&str>>,
    email: Option<&str>,
) -> App {
    App {
        name: name.to_string(),
        image: format!("img/{}", name),
        container_name: format!("nbot_{}_{}", project, name),
        port: None,
        env_vars: vec![],
        volumes: vec![],
        depends_on: deps.into_iter().map(|d| d.to_string()).collect(),
        domains: domains.map(|ds| ds.into_iter().map(|d| d.to_string()).collect()),
        email: email.map(|e| e.to_string()),
        openssl: None,
        privileged: false,
        network_aliases: vec![],
    }
}

#[test]
fn resolution_puts_dependencies_first() {
    // the blog project: db has no dependencies, web depends on db
    let db = engine_app("db", "blog", vec![], None, None);
    let web = engine_app(
        "web",
        "blog",
        vec!["db"],
        Some(vec!["blog.example.com"]),
        Some("a@b.com"),
    );
    let apps = vec![web, db];
    let order = App::topological_sort_by_dependenceis(&apps).unwrap();
    let names: Vec<&str> = order.iter().map(|a| a.name.as_str()).collect();
    assert_eq!(names, vec!["db", "web"]);
}

#[test]
fn resolution_orders_a_chain() {
    let a = engine_app("a", "p", vec!["c"], None, None);
    let b = engine_app("b", "p", vec![], None, None);
    let c = engine_app("c", "p", vec!["b"], None, None);
    let apps = vec![a, b, c];
    let order = App::topological_sort_by_dependenceis(&apps).unwrap();
    let names: Vec<&str> = order.iter().map(|a| a.name.as_str()).collect();
    assert_eq!(names.len(), 3);
    let pos = |n: &str| names.iter().position(|x| *x == n).unwrap();
    assert!(pos("b") < pos("c"));
    assert!(pos("c") < pos("a"));
}

#[test]
fn resolution_keeps_independent_apps_in_input_order() {
    let apps = vec![
        engine_app("one", "p", vec![], None, None),
        engine_app("two", "p", vec![], None, None),
        engine_app("three", "p", vec![], None, None),
    ];
    let order = App::topological_sort_by_dependenceis(&apps).unwrap();
    let names: Vec<&str> = order.iter().map(|a| a.name.as_str()).collect();
    assert_eq!(names, vec!["one", "two", "three"]);
}

#[test]
fn resolution_rejects_a_direct_two_cycle() {
    let a = engine_app("a", "p", vec!["b"], None, None);
    let b = engine_app("b", "p", vec!["a"], None, None);
    let r = App::topological_sort_by_dependenceis(&vec![a, b]);
    match r {
        Err(ValidationError::CircularDependency(_)) => {}
        _ => panic!("expected a cycle error"),
    }
}

#[test]
fn resolution_rejects_a_longer_cycle() {
    let a = engine_app("a", "p", vec!["b"], None, None);
    let b = engine_app("b", "p", vec!["c"], None, None);
    let c = engine_app("c", "p", vec!["a"], None, None);
    let d = engine_app("d", "p", vec![], None, None);
    let r = App::topological_sort_by_dependenceis(&vec![a, b, c, d]);
    match r {
        Err(ValidationError::CircularDependency(name)) => {
            assert!(["a", "b", "c"].contains(&name.as_str()));
        }
        _ => panic!("expected a cycle error"),
    }
}

#[test]
fn validation_accepts_the_blog_project() {
    let db = engine_app("db", "blog", vec![], None, None);
    let web = engine_app(
        "web",
        "blog",
        vec!["db"],
        Some(vec!["blog.example.com"]),
        Some("a@b.com"),
    );
    assert!(App::validate(&vec![db, web]).is_ok());
}

#[test]
fn validation_rejects_domains_without_email() {
    // an exposed app without a contact email fails validation before
    // any engine call can be made
    let web = engine_app("web", "p", vec![], Some(vec!["x.example.com"]), None);
    match App::validate(&vec![web]) {
        Err(ValidationError::MissingEmail(name)) => assert_eq!(name, "web"),
        _ => panic!("expected a missing-email error"),
    }
}

#[test]
fn validation_rejects_duplicate_names() {
    let a1 = engine_app("a", "p", vec![], None, None);
    let a2 = engine_app("a", "p", vec![], None, None);
    match App::validate(&vec![a1, a2]) {
        Err(ValidationError::DuplicateName(name)) => assert_eq!(name, "a"),
        _ => panic!("expected a duplicate-name error"),
    }
}

#[test]
fn validation_rejects_self_dependency() {
    let a = engine_app("a", "p", vec!["a"], None, None);
    match App::validate(&vec![a]) {
        Err(ValidationError::SelfDependency(name)) => assert_eq!(name, "a"),
        _ => panic!("expected a self-dependency error"),
    }
}

#[test]
fn validation_rejects_missing_dependency_target() {
    let a = engine_app("a", "p", vec!["ghost"], None, None);
    match App::validate(&vec![a]) {
        Err(ValidationError::MissingDependency(app, dep)) => {
            assert_eq!(app, "a");
            assert_eq!(dep, "ghost");
        }
        _ => panic!("expected a missing-dependency error"),
    }
}

#[test]
fn validation_rejects_mutual_dependency() {
    let a = engine_app("a", "p", vec!["b"], None, None);
    let b = engine_app("b", "p", vec!["a"], None, None);
    match App::validate(&vec![a, b]) {
        Err(ValidationError::MutualDependency(x, y)) => {
            assert_eq!(x, "a");
            assert_eq!(y, "b");
        }
        _ => panic!("expected a mutual-dependency error"),
    }
}

#[test]
fn validation_errors_have_messages() {
    let e = ValidationError::DuplicateName("a".to_string());
    assert!(!e.message().is_empty());
    let e = ValidationError::CircularDependency("a".to_string());
    assert!(e.message().contains("a"));
}

fn project_of(name: &str, apps: Vec<App>) -> Project {
    Project {
        name: name.to_string(),
        apps,
    }
}

fn states_equal(a: &AppState, b: &AppState) -> bool {
    if a.projects.len() != b.projects.len() {
        return false;
    }
    for (p, q) in a.projects.iter().zip(b.projects.iter()) {
        if p.name != q.name || p.apps.len() != q.apps.len() {
            return false;
        }
        for (x, y) in p.apps.iter().zip(q.apps.iter()) {
            if x.name != y.name || x.image != y.image || x.container_name != y.container_name {
                return false;
            }
        }
    }
    true
}

#[test]
fn redeploying_an_identical_project_is_idempotent() {
    // registering the same project twice leaves the state
    // content-identical to registering it once
    let p = project_of(
        "blog",
        vec![engine_app("db", "blog", vec![], None, None)],
    );
    let mut once = AppState::default();
    once.add_or_update_project(&p);
    let mut twice = AppState::default();
    twice.add_or_update_project(&p);
    twice.add_or_update_project(&p);
    assert!(states_equal(&once, &twice));
    assert_eq!(once.projects.len(), 1);
}

#[test]
fn add_or_update_replaces_apps_wholesale() {
    let p1 = project_of("blog", vec![engine_app("db", "blog", vec![], None, None)]);
    let p2 = project_of(
        "blog",
        vec![
            engine_app("db", "blog", vec![], None, None),
            engine_app("web", "blog", vec!["db"], None, None),
        ],
    );
    let mut s = AppState::default();
    s.add_or_update_project(&p1);
    s.add_or_update_project(&p2);
    assert_eq!(s.projects.len(), 1);
    assert_eq!(s.projects[0].apps.len(), 2);
}

#[test]
fn add_or_update_appends_new_projects() {
    let mut s = AppState::default();
    s.add_or_update_project(&project_of("one", vec![]));
    s.add_or_update_project(&project_of("two", vec![]));
    assert_eq!(s.projects.len(), 2);
    assert_eq!(s.projects[0].name, "one");
    assert_eq!(s.projects[1].name, "two");
}

#[test]
fn project_existence_follows_registration() {
    let mut s = AppState::default();
    assert!(!s.project_exists("blog"));
    s.add_or_update_project(&project_of("blog", vec![]));
    assert!(s.project_exists("blog"));
    assert!(!s.project_exists("other"));
}

#[test]
fn failed_validation_leaves_the_registry_untouched() {
    // an invalid project is rejected before anything happens: the
    // registry keeps its old content
    let mut s = AppState::default();
    s.add_or_update_project(&project_of("old", vec![]));
    let bad = project_of(
        "new",
        vec![engine_app(
            "web",
            "new",
            vec![],
            Some(vec!["x.example.com"]),
            None,
        )],
    );
    let r = nbot::commands::prepare_deploy(&mut s, &bad);
    assert!(r.is_err());
    assert_eq!(s.projects.len(), 1);
    assert_eq!(s.projects[0].name, "old");
}

#[test]
fn successful_preparation_registers_and_orders() {
    let mut s = AppState::default();
    let p = project_of(
        "blog",
        vec![
            engine_app(
                "web",
                "blog",
                vec!["db"],
                Some(vec!["blog.example.com"]),
                Some("a@b.com"),
            ),
            engine_app("db", "blog", vec![], None, None),
        ],
    );
    let order = nbot::commands::prepare_deploy(&mut s, &p).unwrap();
    let names: Vec<&str> = order.iter().map(|a| a.name.as_str()).collect();
    assert_eq!(names, vec!["db", "web"]);
    assert!(s.project_exists("blog"));
}

#[test]
fn default_state_uses_the_standard_prefixes() {
    let s = AppState::default();
    assert_eq!(s.container_prefix, "nbot_");
    assert_eq!(s.image_prefix, "nbot_");
    assert_eq!(s.network_prefix, "nbot_");
    assert!(s.projects.is_empty());
}
