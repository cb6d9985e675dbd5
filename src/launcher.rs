//! What the launcher does with each key press.
use vstd::prelude::*;
use crate::application::{Application, views};
use crate::application_list::{ApplicationListState, fit_selection};
use crate::filter::filtered;
use crate::input::InputState;

verus! {

/// A key press, as far as the launcher tells keys apart.
#[derive(Debug, Clone, Copy, PartialEq, Eq, Structural)]
pub enum Key {
    Char(char),
    Backspace,
    Delete,
    Left,
    Right,
    Enter,
    Down,
    Tab,
    Up,
    BackTab,
    Esc,
    Other,
}

/// What follows a key press.
#[derive(Debug, Clone, Copy, PartialEq, Eq, Structural)]
pub enum KeyOutcome {
    /// Keep reading keys.
    Continue,
    /// Leave the launcher.
    Exit,
    /// Start the selected application.
    Launch,
}

/// The launcher's state: the filter box and the application list.
pub struct LauncherState {
    pub input: InputState,
    pub application_list: ApplicationListState,
}

impl LauncherState {
    /// Both parts are well formed and the list shows the filter result for the box's text.
    pub open spec fn wf(&self) -> bool {
        &&& self.input.wf()
        &&& self.application_list.wf()
        &&& views(self.application_list.filtered_applications@) == filtered(
            views(self.application_list.applications@),
            self.input.filter@,
        )
    }

    /// The state for a catalog, with an empty filter box.
    pub fn from_catalog(applications: Vec<Application>) -> (r: LauncherState)
        ensures
            r.wf(),
            r.input.filter@.len() == 0,
            views(r.application_list.applications@) == views(applications@),
    {
        let input = InputState::new();
        let application_list = ApplicationListState::new(applications);
        proof {
            reveal_strlit("");
            assert(input.filter@ =~= ""@);
        }
        LauncherState { input, application_list }
    }

    /// Replaces the catalog with a newly built one, keeping the filter text.
    pub fn reload_applications(&mut self, applications: Vec<Application>)
        requires
            old(self).wf(),
        ensures
            final(self).wf(),
            final(self).input == old(self).input,
            views(final(self).application_list.applications@) == views(applications@),
    {
        self.application_list.applications = applications;
        self.application_list.update(self.input.filter.as_str());
    }

    fn refresh(&mut self)
        requires
            old(self).input.wf(),
        ensures
            final(self).wf(),
            final(self).input == old(self).input,
            views(final(self).application_list.applications@) == views(old(self).application_list.applications@),
            final(self).application_list.selected == fit_selection(
                old(self).application_list.selected,
                final(self).application_list.filtered_applications@.len() as int,
            ),
    {
        self.application_list.update(self.input.filter.as_str());
    }

    /// Applies one key press: text keys edit the filter box and recompute the list, arrow and
    /// tab keys move the selection, Enter asks to launch the selected application, Esc leaves.
    pub fn handle_key(&mut self, key: Key) -> (r: KeyOutcome)
        requires
            old(self).wf(),
        ensures
            final(self).wf(),
            views(final(self).application_list.applications@) == views(old(self).application_list.applications@),
            key == Key::Esc ==> r == KeyOutcome::Exit && *final(self) == *old(self),
            key == Key::Enter ==> *final(self) == *old(self) && r == (if old(self).application_list.selected is Some {
                KeyOutcome::Launch
            } else {
                KeyOutcome::Continue
            }),
            key != Key::Esc && key != Key::Enter ==> r == KeyOutcome::Continue,
            key == Key::Down || key == Key::Tab ==> final(self).input == old(self).input
                && final(self).application_list.selected == match old(self).application_list.selected {
                None => None,
                Some(i) => Some(if i + 1 < old(self).application_list.filtered_applications@.len() { (i + 1) as usize } else { i }),
            },
            key == Key::Up || key == Key::BackTab ==> final(self).input == old(self).input
                && final(self).application_list.selected == match old(self).application_list.selected {
                None => None,
                Some(i) => Some(if i > 0 { (i - 1) as usize } else { 0usize }),
            },
            key matches Key::Char(c) ==> final(self).input.filter@ == (if old(self).input.len() + 1 < usize::MAX {
                old(self).input.filter@.insert(old(self).input.position(), c)
            } else {
                old(self).input.filter@
            }),
            key == Key::Backspace ==> final(self).input.filter@ == (if old(self).input.position() > 0 {
                old(self).input.filter@.remove(old(self).input.position() - 1)
            } else {
                old(self).input.filter@
            }),
            key == Key::Delete ==> final(self).input.filter@ == (if old(self).input.position() < old(self).input.len() {
                old(self).input.filter@.remove(old(self).input.position())
            } else {
                old(self).input.filter@
            }),
            key == Key::Left || key == Key::Right ==> final(self).input.filter == old(self).input.filter,
            (key matches Key::Char(_) || key == Key::Backspace || key == Key::Delete || key == Key::Left
                || key == Key::Right) ==> final(self).application_list.selected == fit_selection(
                old(self).application_list.selected,
                final(self).application_list.filtered_applications@.len() as int,
            ),
    {
        match key {
            Key::Char(c) => {
                if self.input.filter.as_str().unicode_len() < usize::MAX - 1 {
                    self.input.enter_char(c);
                }
                self.refresh();
                KeyOutcome::Continue
            },
            Key::Backspace => {
                self.input.delete_char();
                self.refresh();
                KeyOutcome::Continue
            },
            Key::Delete => {
                self.input.right_delete_char();
                self.refresh();
                KeyOutcome::Continue
            },
            Key::Left => {
                self.input.move_cursor_left();
                self.refresh();
                KeyOutcome::Continue
            },
            Key::Right => {
                self.input.move_cursor_right();
                self.refresh();
                KeyOutcome::Continue
            },
            Key::Enter => {
                if self.application_list.selected.is_some() {
                    KeyOutcome::Launch
                } else {
                    KeyOutcome::Continue
                }
            },
            Key::Down | Key::Tab => {
                self.application_list.select_next();
                KeyOutcome::Continue
            },
            Key::Up | Key::BackTab => {
                self.application_list.select_previous();
                KeyOutcome::Continue
            },
            Key::Esc => KeyOutcome::Exit,
            Key::Other => KeyOutcome::Continue,
        }
    }
}

} // verus!
