use applauncher::catalog::{application_dirs, build_catalog, has_descriptor_extension, Descriptor};

fn desc(id: &str, content: &str) -> Descriptor {
    Descriptor { id: id.to_string(), content: content.to_string() }
}

fn entry(name: &str, exec: &str) -> String {
    format!("[Desktop Entry]\nName={}\nExec={}\n", name, exec)
}

#[test]
fn higher_priority_directory_wins() {
    let d1 = vec![desc("a.desktop", &entry("Alpha", "alpha"))];
    let d2 = vec![desc("a.desktop", &entry("Beta", "beta"))];
    let cat = build_catalog(&vec![d1, d2]);
    assert_eq!(cat.len(), 1);
    assert_eq!(cat[0].name, "Alpha");
    assert_eq!(cat[0].command, "alpha");
}

#[test]
fn dedup_is_independent_of_scan_order_within_directories() {
    let d1 = vec![desc("b.desktop", &entry("B1", "b")), desc("a.desktop", &entry("A1", "a"))];
    let d2 = vec![desc("a.desktop", &entry("A2", "a")), desc("c.desktop", &entry("C2", "c")), desc("b.desktop", &entry("B2", "b"))];
    let cat = build_catalog(&vec![d1, d2]);
    let mut names: Vec<String> = cat.iter().map(|a| a.name.clone()).collect();
    names.sort();
    assert_eq!(names, vec!["A1".to_string(), "B1".to_string(), "C2".to_string()]);
}

#[test]
fn descriptor_without_name_or_command_never_enters() {
    let d = vec![
        desc("a.desktop", "[Desktop Entry]\nExec=a\n"),
        desc("b.desktop", "[Desktop Entry]\nName=B\n"),
        desc("c.desktop", &entry("C", "c")),
    ];
    let cat = build_catalog(&vec![d]);
    assert_eq!(cat.len(), 1);
    assert_eq!(cat[0].name, "C");
    assert!(!cat[0].terminal);
}

#[test]
fn lower_priority_entry_stays_when_higher_one_fails_to_parse() {
    let d1 = vec![desc("a.desktop", "[Desktop Entry]\nExec=a\n")];
    let d2 = vec![desc("a.desktop", &entry("Beta", "beta"))];
    let cat = build_catalog(&vec![d1, d2]);
    assert_eq!(cat.len(), 1);
    assert_eq!(cat[0].name, "Beta");
}

#[test]
fn empty_directory_list_gives_empty_catalog() {
    let cat = build_catalog(&Vec::new());
    assert!(cat.is_empty());
}

#[test]
fn user_directory_comes_first() {
    let dirs = application_dirs("/home/ann");
    assert_eq!(dirs, vec!["/home/ann/.local/share/applications/".to_string(), "/usr/share/applications/".to_string()]);
}

#[test]
fn only_desktop_files_are_descriptors() {
    assert!(has_descriptor_extension("firefox.desktop"));
    assert!(!has_descriptor_extension(".desktop"));
    assert!(!has_descriptor_extension("firefox.desktop.bak"));
    assert!(!has_descriptor_extension("readme.txt"));
}
