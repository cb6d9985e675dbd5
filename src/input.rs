//! The filter text box: its text, the cursor, and the window of the text that is shown.
use vstd::prelude::*;
use crate::text::{chars_of, string_of};

verus! {

/// Width of the shown window before the box is first laid out.
pub const DEFAULT_WIDTH: usize = 32;

/// The widget that draws the filter box.
pub struct Input;

/// State of the filter box. The cursor is a column within the shown window; the window
/// starts `overflow` characters into the text and is `width` characters wide, so the
/// cursor stands before character `cursor_index + overflow` of the text.
pub struct InputState {
    pub filter: String,
    pub cursor_index: usize,
    pub overflow: usize,
    pub width: usize,
}

pub open spec fn min_int(a: int, b: int) -> int {
    if a < b {
        a
    } else {
        b
    }
}

/// How far the window must be moved for its right edge to reach the end of a text of `len` characters.
pub open spec fn overflow_for(len: int, width: int) -> int {
    if len > width {
        len - width
    } else {
        0
    }
}

impl InputState {
    /// Number of characters of the text.
    pub open spec fn len(&self) -> int {
        self.filter@.len() as int
    }

    /// Rightmost column that the cursor can take.
    pub open spec fn max_cursor(&self) -> int {
        min_int(self.len(), self.width as int)
    }

    /// Character index of the text before which the cursor stands.
    pub open spec fn position(&self) -> int {
        self.cursor_index + self.overflow
    }

    /// The cursor lies within the text and the window, and the window does not pass the end of the text.
    pub open spec fn wf(&self) -> bool {
        &&& self.cursor_index <= self.max_cursor()
        &&& self.overflow <= overflow_for(self.len(), self.width as int)
        &&& self.len() < usize::MAX
    }

    /// An empty box.
    pub fn new() -> (r: InputState)
        ensures
            r.wf(),
            r.filter@.len() == 0,
            r.cursor_index == 0,
            r.overflow == 0,
            r.width == DEFAULT_WIDTH,
    {
        InputState { filter: String::new(), cursor_index: 0, overflow: 0, width: DEFAULT_WIDTH }
    }

    fn char_count(&self) -> (r: usize)
        ensures
            r == self.filter@.len(),
    {
        self.filter.as_str().unicode_len()
    }

    /// `new_cursor_pos` limited to the columns that the cursor can take.
    fn clamp_cursor(&self, new_cursor_pos: usize) -> (r: usize)
        ensures
            r == min_int(new_cursor_pos as int, self.max_cursor()),
    {
        let n = self.char_count();
        let max = if n < self.width {
            n
        } else {
            self.width
        };
        if new_cursor_pos < max {
            new_cursor_pos
        } else {
            max
        }
    }

    /// Moves the window so that its right edge is at the end of the text, or to the start when the text fits.
    fn set_overflow(&mut self)
        ensures
            final(self).filter == old(self).filter,
            final(self).cursor_index == old(self).cursor_index,
            final(self).width == old(self).width,
            final(self).overflow == overflow_for(old(self).len(), old(self).width as int),
    {
        let n = self.char_count();
        self.overflow = if n > self.width {
            n - self.width
        } else {
            0
        };
    }

    /// Moves the cursor one column left; at the left edge of the window, moves the window instead.
    pub fn move_cursor_left(&mut self)
        requires
            old(self).wf(),
        ensures
            final(self).wf(),
            final(self).filter == old(self).filter,
            final(self).width == old(self).width,
            final(self).overflow == (if old(self).cursor_index == 0 && old(self).overflow > 0 {
                old(self).overflow - 1
            } else {
                old(self).overflow as int
            }),
            final(self).cursor_index == (if old(self).cursor_index > 0 {
                old(self).cursor_index - 1
            } else {
                0
            }),
    {
        if self.cursor_index == 0 && self.overflow > 0 {
            self.overflow = self.overflow - 1;
        }
        let cursor_moved_left = if self.cursor_index > 0 {
            self.cursor_index - 1
        } else {
            0
        };
        self.cursor_index = self.clamp_cursor(cursor_moved_left);
    }

    /// Moves the cursor one column right, up to the end of the text; at the right edge of the
    /// window, moves the window one character instead while text lies beyond it.
    pub fn move_cursor_right(&mut self)
        requires
            old(self).wf(),
        ensures
            final(self).wf(),
            final(self).filter == old(self).filter,
            final(self).width == old(self).width,
            final(self).overflow == (if old(self).cursor_index == old(self).width && old(self).overflow
                < overflow_for(old(self).len(), old(self).width as int) {
                old(self).overflow + 1
            } else {
                old(self).overflow as int
            }),
            final(self).cursor_index == min_int(old(self).cursor_index + 1, old(self).max_cursor()),
    {
        let n = self.char_count();
        let max_overflow = if n > self.width {
            n - self.width
        } else {
            0
        };
        if self.cursor_index == self.width && self.overflow < max_overflow {
            self.overflow = self.overflow + 1;
        }
        let cursor_moved_right = if self.cursor_index < usize::MAX {
            self.cursor_index + 1
        } else {
            self.cursor_index
        };
        self.cursor_index = self.clamp_cursor(cursor_moved_right);
    }

    /// Inserts `new_char` at the cursor. When the text then fits the window the cursor moves
    /// past the new character; otherwise the window moves to the end of the text.
    pub fn enter_char(&mut self, new_char: char)
        requires
            old(self).wf(),
            old(self).len() + 1 < usize::MAX,
        ensures
            final(self).wf(),
            final(self).width == old(self).width,
            final(self).filter@ == old(self).filter@.insert(old(self).position(), new_char),
            final(self).overflow == overflow_for(old(self).len() + 1, old(self).width as int),
            final(self).cursor_index == (if final(self).overflow == 0 {
                min_int(old(self).cursor_index + 1, min_int(old(self).len() + 1, old(self).width as int))
            } else {
                old(self).cursor_index as int
            }),
    {
        let index = self.cursor_index + self.overflow;
        let mut chars = chars_of(self.filter.as_str());
        chars.insert(index, new_char);
        self.filter = string_of(&chars);
        self.set_overflow();
        if self.overflow == 0 {
            self.move_cursor_right();
        }
    }

    /// Deletes the character before the cursor. When the window is at the start of the text
    /// the cursor moves left with it; then the window moves to the end of the text.
    pub fn delete_char(&mut self)
        requires
            old(self).wf(),
        ensures
            final(self).wf(),
            final(self).width == old(self).width,
            old(self).position() == 0 ==> *final(self) == *old(self),
            old(self).position() > 0 ==> {
                &&& final(self).filter@ == old(self).filter@.remove(old(self).position() - 1)
                &&& final(self).overflow == overflow_for(old(self).len() - 1, old(self).width as int)
                &&& final(self).cursor_index == (if old(self).overflow == 0 {
                    old(self).cursor_index - 1
                } else {
                    old(self).cursor_index as int
                })
            },
    {
        let is_cursor_leftmost = self.cursor_index + self.overflow == 0;
        if is_cursor_leftmost {
            return ;
        }
        let current_index = self.cursor_index + self.overflow;
        let mut chars = chars_of(self.filter.as_str());
        chars.remove(current_index - 1);
        self.filter = string_of(&chars);
        if self.overflow == 0 {
            self.cursor_index = self.cursor_index - 1;
        }
        self.set_overflow();
    }

    /// Deletes the character after the cursor. When the window is not at the start of the text
    /// the cursor first moves right; then the window moves to the end of the text.
    pub fn right_delete_char(&mut self)
        requires
            old(self).wf(),
        ensures
            final(self).wf(),
            final(self).width == old(self).width,
            old(self).position() == old(self).len() ==> *final(self) == *old(self),
            old(self).position() < old(self).len() ==> {
                &&& final(self).filter@ == old(self).filter@.remove(old(self).position())
                &&& final(self).overflow == overflow_for(old(self).len() - 1, old(self).width as int)
                &&& final(self).cursor_index == (if old(self).overflow > 0 {
                    min_int(old(self).cursor_index + 1, old(self).max_cursor())
                } else {
                    old(self).cursor_index as int
                })
            },
    {
        let n = self.char_count();
        let is_cursor_rightmost = self.cursor_index + self.overflow == n;
        if is_cursor_rightmost {
            return ;
        }
        let index = self.cursor_index + self.overflow;
        if self.overflow > 0 {
            self.move_cursor_right();
        }
        let mut chars = chars_of(self.filter.as_str());
        chars.remove(index);
        self.filter = string_of(&chars);
        self.set_overflow();
    }

    /// Lays the box out `width` characters wide, keeping the cursor and the window within the text.
    pub fn set_width(&mut self, width: usize)
        requires
            old(self).wf(),
        ensures
            final(self).wf(),
            final(self).filter == old(self).filter,
            final(self).width == width,
            final(self).cursor_index == min_int(old(self).cursor_index as int, min_int(old(self).len(), width as int)),
            final(self).overflow == min_int(old(self).overflow as int, overflow_for(old(self).len(), width as int)),
    {
        self.width = width;
        self.cursor_index = self.clamp_cursor(self.cursor_index);
        let n = self.char_count();
        let max_overflow = if n > width {
            n - width
        } else {
            0
        };
        if self.overflow > max_overflow {
            self.overflow = max_overflow;
        }
    }
}

impl Input {
    /// The part of the text that the window shows.
    pub fn visible_text(&self, state: &InputState) -> (r: String)
        requires
            state.wf(),
        ensures
            r@ == state.filter@.subrange(state.overflow as int, min_int(state.len(), state.overflow + state.width)),
    {
        let n = state.filter.as_str().unicode_len();
        let end = if state.width <= n - state.overflow {
            state.overflow + state.width
        } else {
            n
        };
        String::from_str(state.filter.as_str().substring_char(state.overflow, end))
    }
}

} // verus!
