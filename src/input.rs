//! A single-line text field with a cursor counted in characters.
use vstd::prelude::*;
use vstd::string::{StrSliceExecFns, StringExecFns};
use crate::text::{push_char, trim, trim_chars};

verus! {

pub struct TextInput {
    pub text: String,
    pub cursor: usize,
    pub error: Option<String>,
}

/// The cursor, capped at the end of the text.
pub open spec fn cursor_at(t: &TextInput) -> int {
    if t.cursor <= t.text@.len() {
        t.cursor as int
    } else {
        t.text@.len() as int
    }
}

impl TextInput {
    /// A field holding `text`, with the cursor at its end.
    pub fn new(text: String) -> (r: TextInput)
        ensures
            r.text@ == text@,
            r.cursor == text@.len(),
            r.error is None,
    {
        let cursor = text.as_str().unicode_len();
        TextInput { text, cursor, error: None }
    }

    /// Inserts `c` at the cursor and moves the cursor past it.
    pub fn insert_char(&mut self, c: char)
        requires
            old(self).text@.len() < usize::MAX,
        ensures
            final(self).text@ == old(self).text@.insert(cursor_at(old(self)), c),
            final(self).cursor == cursor_at(old(self)) + 1,
            final(self).error == old(self).error,
    {
        let len = self.text.as_str().unicode_len();
        let at = if self.cursor <= len { self.cursor } else { len };
        let mut s = String::from_str(self.text.as_str().substring_char(0, at));
        push_char(&mut s, c);
        s.append(self.text.as_str().substring_char(at, len));
        assert(s@ =~= self.text@.insert(at as int, c));
        self.text = s;
        self.cursor = at + 1;
    }

    fn remove_at(&mut self, at: usize)
        requires
            at < old(self).text@.len(),
        ensures
            final(self).text@ == old(self).text@.remove(at as int),
            final(self).cursor == old(self).cursor,
            final(self).error == old(self).error,
    {
        let len = self.text.as_str().unicode_len();
        let mut s = String::from_str(self.text.as_str().substring_char(0, at));
        s.append(self.text.as_str().substring_char(at + 1, len));
        assert(s@ =~= self.text@.remove(at as int));
        self.text = s;
    }

    /// Deletes the character before the cursor, if any.
    pub fn delete_char_before_cursor(&mut self)
        ensures
            cursor_at(old(self)) > 0 ==> final(self).text@ == old(self).text@.remove(cursor_at(old(self)) - 1)
                && final(self).cursor == cursor_at(old(self)) - 1,
            cursor_at(old(self)) == 0 ==> final(self).text@ == old(self).text@ && final(self).cursor == old(self).cursor,
            final(self).error == old(self).error,
    {
        let len = self.text.as_str().unicode_len();
        let at = if self.cursor <= len { self.cursor } else { len };
        if at > 0 {
            self.remove_at(at - 1);
            self.cursor = at - 1;
        }
    }

    /// Deletes the character under the cursor, if any.
    pub fn delete_char_at_cursor(&mut self)
        ensures
            old(self).cursor < old(self).text@.len() ==> final(self).text@ == old(self).text@.remove(old(self).cursor as int),
            old(self).cursor >= old(self).text@.len() ==> final(self).text@ == old(self).text@,
            final(self).cursor == old(self).cursor,
            final(self).error == old(self).error,
    {
        let len = self.text.as_str().unicode_len();
        if self.cursor < len {
            let at = self.cursor;
            self.remove_at(at);
        }
    }

    pub fn move_cursor_left(&mut self)
        ensures
            final(self).cursor == if old(self).cursor > 0 { old(self).cursor - 1 } else { 0 },
            final(self).text == old(self).text,
            final(self).error == old(self).error,
    {
        self.cursor = self.cursor.saturating_sub(1);
    }

    pub fn move_cursor_right(&mut self)
        ensures
            final(self).cursor == if old(self).cursor < old(self).text@.len() {
                old(self).cursor + 1
            } else {
                old(self).cursor as int
            },
            final(self).text == old(self).text,
            final(self).error == old(self).error,
    {
        let len = self.text.as_str().unicode_len();
        if self.cursor < len {
            self.cursor = self.cursor + 1;
        }
    }

    pub fn move_cursor_to_start(&mut self)
        ensures
            final(self).cursor == 0,
            final(self).text == old(self).text,
            final(self).error == old(self).error,
    {
        self.cursor = 0;
    }

    pub fn move_cursor_to_end(&mut self)
        ensures
            final(self).cursor == old(self).text@.len(),
            final(self).text == old(self).text,
            final(self).error == old(self).error,
    {
        self.cursor = self.text.as_str().unicode_len();
    }

    /// Whether the field holds nothing but white space.
    pub fn is_empty(&self) -> (r: bool)
        ensures
            r == (trim_chars(self.text@).len() == 0),
    {
        let t = trim(self.text.as_str());
        t.as_str().unicode_len() == 0
    }

    pub fn set_error(&mut self, error: Option<String>)
        ensures
            final(self).error == error,
            final(self).text == old(self).text,
            final(self).cursor == old(self).cursor,
    {
        self.error = error;
    }

    pub fn clear_error(&mut self)
        ensures
            final(self).error is None,
            final(self).text == old(self).text,
            final(self).cursor == old(self).cursor,
    {
        self.error = None;
    }

    pub fn has_error(&self) -> (r: bool)
        ensures
            r == self.error is Some,
    {
        self.error.is_some()
    }
}

/// Which field the keyboard edits, if any.
#[derive(Clone, Copy, PartialEq, Eq, Structural, Debug)]
pub enum InputMode {
    Normal,
    HideEdit,
    FilterEdit,
    HighlightEdit,
}

/// The saved query strings and options.
pub struct AppState {
    pub hide_input: String,
    pub filter_input: String,
    pub highlight_input: String,
    pub wrap_lines: bool,
    pub line_start_regex: String,
}

impl AppState {
    /// Empty queries, no wrapping.
    pub fn new() -> (r: AppState)
        ensures
            r.hide_input@.len() == 0,
            r.filter_input@.len() == 0,
            r.highlight_input@.len() == 0,
            !r.wrap_lines,
            r.line_start_regex@.len() == 0,
    {
        AppState {
            hide_input: String::new(),
            filter_input: String::new(),
            highlight_input: String::new(),
            wrap_lines: false,
            line_start_regex: String::new(),
        }
    }
}

/// The three query fields.
pub struct InputFields {
    pub hide: TextInput,
    pub filter: TextInput,
    pub highlight: TextInput,
}

impl InputFields {
    /// Fields holding the saved query strings.
    pub fn from_state(state: &AppState) -> (r: InputFields)
        ensures
            r.hide.text@ == state.hide_input@ && r.hide.cursor == state.hide_input@.len() && r.hide.error is None,
            r.filter.text@ == state.filter_input@ && r.filter.cursor == state.filter_input@.len() && r.filter.error is None,
            r.highlight.text@ == state.highlight_input@ && r.highlight.cursor == state.highlight_input@.len()
                && r.highlight.error is None,
    {
        InputFields {
            hide: TextInput::new(state.hide_input.clone()),
            filter: TextInput::new(state.filter_input.clone()),
            highlight: TextInput::new(state.highlight_input.clone()),
        }
    }

    /// The field that `mode` edits.
    pub fn get_active_mut(&mut self, mode: InputMode) -> (r: Option<&mut TextInput>)
        ensures
            mode == InputMode::Normal ==> r is None && *final(self) == *old(self),
            mode == InputMode::HideEdit ==> r is Some && *r->0 == old(self).hide && final(self).hide == *final(r->0)
                && final(self).filter == old(self).filter && final(self).highlight == old(self).highlight,
            mode == InputMode::FilterEdit ==> r is Some && *r->0 == old(self).filter && final(self).filter == *final(r->0)
                && final(self).hide == old(self).hide && final(self).highlight == old(self).highlight,
            mode == InputMode::HighlightEdit ==> r is Some && *r->0 == old(self).highlight
                && final(self).highlight == *final(r->0) && final(self).hide == old(self).hide
                && final(self).filter == old(self).filter,
    {
        match mode {
            InputMode::HideEdit => Some(&mut self.hide),
            InputMode::FilterEdit => Some(&mut self.filter),
            InputMode::HighlightEdit => Some(&mut self.highlight),
            InputMode::Normal => None,
        }
    }
}

} // verus!
