use applauncher::ancestry::{terminal_from, AncestryError};
use applauncher::application::Application;
use applauncher::launch::{argv, launch_mode, Detach, DetachAction, LaunchMode, PollStatus, GRACE_POLLS};

fn app(terminal: bool) -> Application {
    Application {
        name: "Editor".to_string(),
        command: "editor".to_string(),
        args: vec!["--wait".to_string(), "file".to_string()],
        icon: String::new(),
        terminal,
        id: "editor.desktop".to_string(),
    }
}

#[test]
fn terminal_apps_replace_the_launcher() {
    assert_eq!(launch_mode(&app(true)), LaunchMode::ReplaceInPlace);
    assert_eq!(launch_mode(&app(false)), LaunchMode::Detach);
}

#[test]
fn argv_starts_with_the_program() {
    assert_eq!(argv(&app(false)), vec!["editor".to_string(), "--wait".to_string(), "file".to_string()]);
}

#[test]
fn child_that_exits_at_once_is_a_failure() {
    let mut d = Detach::new(Some(4242));
    let a = d.on_poll(PollStatus::Exited);
    assert_eq!(a, DetachAction::ReportFailure);
    assert!(d.is_finished());
}

#[test]
fn failed_status_check_is_a_failure() {
    let mut d = Detach::new(Some(4242));
    assert_eq!(d.on_poll(PollStatus::StillAlive), DetachAction::Wait);
    assert_eq!(d.on_poll(PollStatus::Failed), DetachAction::ReportFailure);
    assert!(d.is_finished());
}

#[test]
fn child_running_past_the_grace_window_kills_the_terminal_once() {
    let mut d = Detach::new(Some(4321));
    let mut actions = Vec::new();
    while !d.is_finished() {
        actions.push(d.on_poll(PollStatus::StillAlive));
    }
    assert_eq!(actions.len(), GRACE_POLLS as usize);
    let kills = actions.iter().filter(|a| **a == DetachAction::KillTerminalAndExit(4321)).count();
    assert_eq!(kills, 1);
    assert_eq!(*actions.last().unwrap(), DetachAction::KillTerminalAndExit(4321));
}

#[test]
fn chain_that_ends_early_is_an_ancestry_error() {
    assert_eq!(terminal_from(1, Some(0)), Err(AncestryError::MissingLink));
    assert_eq!(terminal_from(0, None), Err(AncestryError::MissingLink));
    assert_eq!(terminal_from(812, Some(1)), Err(AncestryError::MissingLink));
    assert_eq!(terminal_from(812, None), Err(AncestryError::Unreadable));
    assert_eq!(terminal_from(812, Some(640)), Ok(640));
}

#[test]
fn detach_without_terminal_sends_no_signal() {
    let resolved = terminal_from(1, Some(0)).ok();
    let mut d = Detach::new(resolved);
    let mut actions = Vec::new();
    while !d.is_finished() {
        actions.push(d.on_poll(PollStatus::StillAlive));
    }
    assert_eq!(*actions.last().unwrap(), DetachAction::ExitLauncher);
    assert!(actions.iter().all(|a| !matches!(a, DetachAction::KillTerminalAndExit(_))));
}
