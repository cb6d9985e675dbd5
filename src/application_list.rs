//! The list of matching applications and the selection in it.
use vstd::prelude::*;
use crate::application::{Application, views};
use crate::filter::{filter_applications, filtered};

verus! {

/// The widget that draws the application list.
pub struct ApplicationList;

impl ApplicationList {
    /// How far the list can scroll: rows beyond those that a list `height` rows high shows,
    /// counting three rows of frame and header.
    pub fn scrollable_range(&self, count: usize, height: u16) -> (r: usize)
        requires
            count + 3 <= usize::MAX,
        ensures
            r == (if count + 3 > height {
                count + 3 - height
            } else {
                0
            }),
    {
        let h = height as usize;
        if count + 3 > h {
            count + 3 - h
        } else {
            0
        }
    }

    /// The text of each row of the list: a space, then the glyph and a space when icons are
    /// shown, then the name.
    pub fn rows(&self, state: &ApplicationListState, show_icons: bool) -> (r: Vec<String>)
        ensures
            r@.len() == state.filtered_applications@.len(),
            forall|i: int|
                0 <= i < r@.len() ==> #[trigger] r@[i]@ == (if show_icons {
                    seq![' '] + state.filtered_applications@[i].icon@ + seq![' ']
                        + state.filtered_applications@[i].name@
                } else {
                    seq![' '] + state.filtered_applications@[i].name@
                }),
    {
        let apps = &state.filtered_applications;
        let mut r: Vec<String> = Vec::new();
        let mut i: usize = 0;
        while i < apps.len()
            invariant
                i <= apps@.len(),
                r@.len() == i,
                forall|j: int|
                    0 <= j < i ==> #[trigger] r@[j]@ == (if show_icons {
                        seq![' '] + apps@[j].icon@ + seq![' '] + apps@[j].name@
                    } else {
                        seq![' '] + apps@[j].name@
                    }),
            decreases apps@.len() - i,
        {
            let row = if show_icons {
                apps[i].row_label()
            } else {
                let mut s = String::from_str(" ");
                s.append(apps[i].name.as_str());
                proof {
                    reveal_strlit(" ");
                }
                s
            };
            r.push(row);
            i = i + 1;
        }
        r
    }
}

/// The catalog, the entries that match the filter text, and the selected row.
pub struct ApplicationListState {
    pub filtered_applications: Vec<Application>,
    pub applications: Vec<Application>,
    /// The selected row: none exactly when no entry matches.
    pub selected: Option<usize>,
}

/// The selection that a list of `len` rows shows for a wanted row `want`: the last row when
/// `want` is past the end, and none when the list is empty.
pub open spec fn fit_selection(want: Option<usize>, len: int) -> Option<usize> {
    if len == 0 {
        None
    } else {
        match want {
            None => Some(0usize),
            Some(i) => if i < len {
                Some(i)
            } else {
                Some((len - 1) as usize)
            },
        }
    }
}

fn fit(want: Option<usize>, len: usize) -> (r: Option<usize>)
    ensures
        r == fit_selection(want, len as int),
{
    if len == 0 {
        None
    } else {
        match want {
            None => Some(0),
            Some(i) => if i < len {
                Some(i)
            } else {
                Some(len - 1)
            },
        }
    }
}

impl ApplicationListState {
    /// The selection names a row of the list, and is none only when the list is empty.
    pub open spec fn wf(&self) -> bool {
        self.selected == fit_selection(self.selected, self.filtered_applications@.len() as int)
    }

    /// The list state for a catalog, with an empty filter text and the first row selected.
    pub fn new(applications: Vec<Application>) -> (r: ApplicationListState)
        ensures
            r.wf(),
            views(r.applications@) == views(applications@),
            views(r.filtered_applications@) == filtered(views(applications@), ""@),
            r.selected == fit_selection(None, r.filtered_applications@.len() as int),
    {
        let filtered_applications = filter_applications(&applications, "");
        let selected = fit(None, filtered_applications.len());
        ApplicationListState { filtered_applications, applications, selected }
    }

    /// Recomputes the matching entries for `filter` and keeps the selection on a row.
    pub fn update(&mut self, filter: &str)
        ensures
            final(self).wf(),
            views(final(self).applications@) == views(old(self).applications@),
            views(final(self).filtered_applications@) == filtered(views(old(self).applications@), filter@),
            final(self).selected == fit_selection(old(self).selected, final(self).filtered_applications@.len() as int),
    {
        let filtered_applications = filter_applications(&self.applications, filter);
        self.selected = fit(self.selected, filtered_applications.len());
        self.filtered_applications = filtered_applications;
    }

    /// The selected application, if any.
    pub fn selected(&self) -> (r: Option<&Application>)
        requires
            self.wf(),
        ensures
            match self.selected {
                None => r is None,
                Some(i) => r == Some(&self.filtered_applications@[i as int]),
            },
    {
        match self.selected {
            None => None,
            Some(i) => Some(&self.filtered_applications[i]),
        }
    }

    /// Selects the row above, staying on the first row.
    pub fn select_previous(&mut self)
        requires
            old(self).wf(),
        ensures
            final(self).wf(),
            final(self).filtered_applications == old(self).filtered_applications,
            final(self).applications == old(self).applications,
            final(self).selected == match old(self).selected {
                None => None,
                Some(i) => Some(if i > 0 { (i - 1) as usize } else { 0usize }),
            },
    {
        self.selected = match self.selected {
            None => None,
            Some(i) => Some(if i > 0 { i - 1 } else { 0 }),
        };
    }

    /// Selects the row below, staying on the last row.
    pub fn select_next(&mut self)
        requires
            old(self).wf(),
        ensures
            final(self).wf(),
            final(self).filtered_applications == old(self).filtered_applications,
            final(self).applications == old(self).applications,
            final(self).selected == match old(self).selected {
                None => None,
                Some(i) => Some(if i + 1 < old(self).filtered_applications@.len() { (i + 1) as usize } else { i }),
            },
    {
        let len = self.filtered_applications.len();
        self.selected = match self.selected {
            None => None,
            Some(i) => Some(if i + 1 < len { i + 1 } else { i }),
        };
    }

    /// A copy of the selected application, if any.
    pub fn selected_copy(&self) -> (r: Option<Application>)
        requires
            self.wf(),
        ensures
            match self.selected {
                None => r is None,
                Some(i) => r matches Some(a) && a@ == self.filtered_applications@[i as int]@,
            },
    {
        match self.selected {
            None => None,
            Some(i) => Some(self.filtered_applications[i].duplicate()),
        }
    }
}

} // verus!
