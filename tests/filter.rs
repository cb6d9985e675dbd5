use applauncher::application::Application;
use applauncher::filter::{filter_applications, select_sorted};

fn app(name: &str) -> Application {
    Application {
        name: name.to_string(),
        command: name.to_lowercase(),
        args: Vec::new(),
        icon: String::new(),
        terminal: false,
        id: format!("{}.desktop", name.to_lowercase()),
    }
}

fn names(v: &[Application]) -> Vec<String> {
    v.iter().map(|a| a.name.clone()).collect()
}

#[test]
fn fire_matches_only_firefox() {
    let cat = vec![app("Firefox"), app("Files"), app("Terminal")];
    let r = filter_applications(&cat, "fire");
    assert_eq!(names(&r), vec!["Firefox".to_string()]);
}

#[test]
fn empty_filter_returns_everything_sorted() {
    let cat = vec![app("terminal"), app("Firefox"), app("files"), app("Btop")];
    let r = filter_applications(&cat, "");
    assert_eq!(names(&r), vec!["Btop".to_string(), "files".to_string(), "Firefox".to_string(), "terminal".to_string()]);
}

#[test]
fn matching_ignores_case() {
    let cat = vec![app("Firefox"), app("Files"), app("Terminal")];
    let r = filter_applications(&cat, "FI");
    assert_eq!(names(&r), vec!["Files".to_string(), "Firefox".to_string()]);
    let r = filter_applications(&cat, "MiNa");
    assert_eq!(names(&r), vec!["Terminal".to_string()]);
}

#[test]
fn every_returned_name_contains_the_text() {
    let cat = vec![app("Alpha"), app("Beta"), app("Gamma"), app("Delta")];
    let r = filter_applications(&cat, "ta");
    assert_eq!(names(&r), vec!["Beta".to_string(), "Delta".to_string()]);
    for a in &r {
        assert!(a.name.to_lowercase().contains("ta"));
    }
}

#[test]
fn no_match_gives_empty_result() {
    let cat = vec![app("Alpha"), app("Beta")];
    assert!(filter_applications(&cat, "zz").is_empty());
}

#[test]
fn filtering_is_deterministic() {
    let cat = vec![app("b"), app("B"), app("a"), app("A")];
    let r1 = filter_applications(&cat, "");
    let r2 = filter_applications(&cat, "");
    assert_eq!(names(&r1), names(&r2));
}

#[test]
fn equal_keys_keep_catalog_order() {
    let cat = vec![app("b"), app("B"), app("a"), app("A")];
    let r = filter_applications(&cat, "");
    assert_eq!(names(&r), vec!["a".to_string(), "A".to_string(), "b".to_string(), "B".to_string()]);
}

#[test]
fn select_sorted_uses_the_given_keys() {
    let cat = vec![app("One"), app("Two"), app("Three")];
    let keys = vec!["z".to_string(), "xa".to_string(), "ya".to_string()];
    let r = select_sorted(&cat, &keys, "a");
    assert_eq!(names(&r), vec!["Two".to_string(), "Three".to_string()]);
}

#[test]
fn filter_leaves_the_catalog_alone() {
    let cat = vec![app("Zed"), app("Ant")];
    let _ = filter_applications(&cat, "");
    assert_eq!(names(&cat), vec!["Zed".to_string(), "Ant".to_string()]);
}
