use applauncher::application::Application;
use applauncher::application_list::{ApplicationList, ApplicationListState};
use applauncher::launcher::{Key, KeyOutcome, LauncherState};

fn app(name: &str) -> Application {
    Application {
        name: name.to_string(),
        command: name.to_lowercase(),
        args: Vec::new(),
        icon: "*".to_string(),
        terminal: false,
        id: format!("{}.desktop", name.to_lowercase()),
    }
}

#[test]
fn selection_starts_on_first_row_and_stays_in_range() {
    let mut st = ApplicationListState::new(vec![app("Files"), app("Firefox"), app("Terminal")]);
    assert_eq!(st.selected().unwrap().name, "Files");
    st.select_previous();
    assert_eq!(st.selected, Some(0));
    st.select_next();
    st.select_next();
    st.select_next();
    assert_eq!(st.selected, Some(2));
    assert_eq!(st.selected().unwrap().name, "Terminal");
}

#[test]
fn update_keeps_selection_on_a_row() {
    let mut st = ApplicationListState::new(vec![app("Files"), app("Firefox"), app("Terminal")]);
    st.select_next();
    st.select_next();
    st.update("fi");
    assert_eq!(st.filtered_applications.len(), 2);
    assert_eq!(st.selected, Some(1));
    st.update("zzz");
    assert_eq!(st.selected, None);
    assert!(st.selected().is_none());
}

#[test]
fn rows_show_glyph_and_name() {
    let st = ApplicationListState::new(vec![app("Files")]);
    assert_eq!(ApplicationList.rows(&st, true), vec![" * Files".to_string()]);
    assert_eq!(ApplicationList.rows(&st, false), vec![" Files".to_string()]);
    assert_eq!(ApplicationList.scrollable_range(10, 5), 8);
    assert_eq!(ApplicationList.scrollable_range(1, 20), 0);
}

#[test]
fn keys_edit_filter_and_launch() {
    let mut st = LauncherState::from_catalog(vec![app("Files"), app("Firefox"), app("Terminal")]);
    assert_eq!(st.handle_key(Key::Char('t')), KeyOutcome::Continue);
    assert_eq!(st.application_list.filtered_applications.len(), 1);
    assert_eq!(st.handle_key(Key::Enter), KeyOutcome::Launch);
    assert_eq!(st.application_list.selected().unwrap().name, "Terminal");
    st.handle_key(Key::Backspace);
    assert_eq!(st.application_list.filtered_applications.len(), 3);
    st.handle_key(Key::Char('q'));
    assert_eq!(st.handle_key(Key::Enter), KeyOutcome::Continue);
    assert_eq!(st.handle_key(Key::Esc), KeyOutcome::Exit);
}

#[test]
fn reload_replaces_the_catalog() {
    let mut st = LauncherState::from_catalog(vec![app("Files")]);
    st.handle_key(Key::Char('t'));
    st.reload_applications(vec![app("Terminal"), app("Top")]);
    assert_eq!(st.application_list.filtered_applications.len(), 2);
    assert_eq!(st.application_list.filtered_applications[0].name, "Terminal");
}
