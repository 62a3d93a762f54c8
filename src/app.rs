//! The controller: applies source events and query changes to the log state
//! and keeps the filtered index equal to the lines that pass.
use vstd::prelude::*;
use crate::filter::{FilterError, parse_filter, parse_spec};
use crate::input::{InputFields, InputMode, AppState, TextInput, cursor_at};
use crate::log_state::{FilterState, LogLine, LogState, QueryView, contents, display_of, passes, last_pos, scroll_up_spec, scroll_down_spec};
use crate::pattern::{compile_fancy, fancy_compiles};
use crate::source::SourceEvent;
use crate::text::{concat, decimal, trim_chars, trim_line_end, trim_newlines};

verus! {

/// Width of the line number column.
pub const LINE_NUMBER_WIDTH: usize = 9;

/// Width of the timestamp column.
pub const TIMESTAMP_WIDTH: usize = 9;

/// The indices among the first `n` lines that pass, in order.
pub open spec fn passing(q: QueryView, ls: Seq<Seq<char>>, n: int) -> Seq<usize>
    decreases n,
{
    if n <= 0 {
        Seq::empty()
    } else if passes(q, ls[n - 1]) {
        passing(q, ls, n - 1).push((n - 1) as usize)
    } else {
        passing(q, ls, n - 1)
    }
}

/// The queries after applying a hide string: none when it is blank, the new
/// regex when it compiles, else unchanged.
pub open spec fn with_hide(q: QueryView, text: Seq<char>) -> QueryView {
    if trim_chars(text).len() == 0 {
        QueryView { hide: None, ..q }
    } else if fancy_compiles(text) {
        QueryView { hide: Some(text), ..q }
    } else {
        q
    }
}

/// The queries after applying a filter string: none when it is blank, the
/// parsed expression when it parses, else unchanged.
pub open spec fn with_filter(q: QueryView, text: Seq<char>) -> QueryView {
    if trim_chars(text).len() == 0 {
        QueryView { filter: None, ..q }
    } else {
        match parse_spec(text) {
            Ok(e) => QueryView { filter: Some(e), ..q },
            Err(_) => q,
        }
    }
}

/// The queries after applying a highlight string.
pub open spec fn with_highlight(q: QueryView, text: Seq<char>) -> QueryView {
    if trim_chars(text).len() == 0 {
        QueryView { highlight: None, ..q }
    } else {
        match parse_spec(text) {
            Ok(e) => QueryView { highlight: Some(e), ..q },
            Err(_) => q,
        }
    }
}

/// The text a line event appends: its payload without trailing `\n` and
/// `\r` characters.
pub open spec fn event_text(e: SourceEvent) -> Option<Seq<char>> {
    match e {
        SourceEvent::Line(t) => Some(trim_newlines(t@)),
        SourceEvent::SystemLine(t) => Some(trim_newlines(t@)),
        _ => None,
    }
}

/// The texts that a batch appends: each line event's text, in order.
pub open spec fn batch_lines(evs: Seq<SourceEvent>) -> Seq<Seq<char>>
    decreases evs.len(),
{
    if evs.len() == 0 {
        Seq::empty()
    } else {
        let p = batch_lines(evs.drop_last());
        match event_text(evs.last()) {
            Some(t) => p.push(t),
            None => p,
        }
    }
}

/// The status message after a batch: that of its last error, if any.
pub open spec fn batch_status(evs: Seq<SourceEvent>, before: Option<Seq<char>>) -> Option<Seq<char>>
    decreases evs.len(),
{
    if evs.len() == 0 {
        before
    } else {
        match evs.last() {
            SourceEvent::Error(e) => Some("Source error: "@ + e@),
            _ => batch_status(evs.drop_last(), before),
        }
    }
}

/// Whether a batch holds a `Connected` event.
pub open spec fn batch_connects(evs: Seq<SourceEvent>) -> bool
    decreases evs.len(),
{
    if evs.len() == 0 {
        false
    } else {
        evs.last() is Connected || batch_connects(evs.drop_last())
    }
}

pub open spec fn status_view(m: Option<String>) -> Option<Seq<char>> {
    match m {
        Some(s) => Some(s@),
        None => None,
    }
}

/// A key as the text fields see it.
pub enum Key {
    Left,
    Right,
    Home,
    End,
    Char(char),
    Backspace,
    Delete,
    Enter,
    Esc,
    Up,
    Down,
    PageUp,
    PageDown,
    Tab,
    BackTab,
    /// Control and C together.
    CtrlC,
    Other,
}

/// What the caller should do after a key in normal mode.
#[derive(PartialEq, Eq, Structural, Debug)]
pub enum KeyOutcome {
    Continue,
    Quit,
    /// The options changed and should be saved.
    Save,
}

/// The state after a scroll: only the anchor and the follow flag move.
pub open spec fn scrolled(a: App, bottom: int, follow: bool) -> App {
    App { log_state: LogState { bottom_line_idx: bottom as usize, follow_tail: follow, ..a.log_state }, ..a }
}

/// What a key does in normal mode.
pub open spec fn normal_key_effect(a: App, b: App, key: Key, page: usize, r: KeyOutcome) -> bool {
    let ls = a.log_state;
    let n = ls.filtered_indices@.len() as int;
    let follow = ls.follow_tail;
    let bottom = ls.bottom_line_idx as int;
    if key == Key::CtrlC || key == Key::Char('q') {
        r == KeyOutcome::Quit && b == a
    } else if key == Key::Char('d') {
        r == KeyOutcome::Continue && b == App { input_mode: InputMode::HideEdit, ..a }
    } else if key == Key::Char('f') {
        r == KeyOutcome::Continue && b == App { input_mode: InputMode::FilterEdit, ..a }
    } else if key == Key::Char('h') {
        r == KeyOutcome::Continue && b == App { input_mode: InputMode::HighlightEdit, ..a }
    } else if key == Key::Char('c') {
        &&& r == KeyOutcome::Continue
        &&& b.log_state.lines@.len() == 0 && b.log_state.filtered_indices@.len() == 0 && b.log_state.bottom_line_idx == 0
        &&& b.filter_state == a.filter_state && b.input_fields == a.input_fields && b.input_mode == a.input_mode
        &&& (b.status_message matches Some(m) && m@ == "Cleared"@)
    } else if key == Key::Char('t') {
        r == KeyOutcome::Continue && b == App { show_time: !a.show_time, ..a }
    } else if key == Key::Char('s') {
        r == KeyOutcome::Continue && b == App { heuristic_enabled: !a.heuristic_enabled, ..a }
    } else if key == Key::Char('J') {
        r == KeyOutcome::Continue && b == App { json_enabled: !a.json_enabled, ..a }
    } else if key == Key::Char('w') {
        r == KeyOutcome::Save && b == App { wrap_lines: !a.wrap_lines, ..a }
    } else if key == Key::Char('g') || key == Key::Home {
        r == KeyOutcome::Continue && b == scrolled(a, 0, false)
    } else if key == Key::Char('G') || key == Key::End {
        r == KeyOutcome::Continue && b == scrolled(a, last_pos(n), true)
    } else if key == Key::Up || key == Key::Char('k') {
        r == KeyOutcome::Continue && b == scrolled(a, scroll_up_spec(follow, bottom, n, 1), false)
    } else if key == Key::PageUp {
        r == KeyOutcome::Continue && b == scrolled(a, scroll_up_spec(follow, bottom, n, page as int), false)
    } else if key == Key::Down || key == Key::Char('j') {
        r == KeyOutcome::Continue && b == scrolled(
            a,
            scroll_down_spec(follow, bottom, n, 1).0,
            scroll_down_spec(follow, bottom, n, 1).1,
        )
    } else if key == Key::PageDown {
        r == KeyOutcome::Continue && b == scrolled(
            a,
            scroll_down_spec(follow, bottom, n, page as int).0,
            scroll_down_spec(follow, bottom, n, page as int).1,
        )
    } else {
        r == KeyOutcome::Continue && b == a
    }
}

/// What `key` does to a text field.
pub open spec fn key_effect(old: TextInput, new: TextInput, key: Key) -> bool {
    let c = cursor_at(&old);
    match key {
        Key::Left => new.text == old.text && new.cursor == if old.cursor > 0 { old.cursor - 1 } else { 0 },
        Key::Right => new.text == old.text && new.cursor == if old.cursor < old.text@.len() {
            old.cursor + 1
        } else {
            old.cursor as int
        },
        Key::Home => new.text == old.text && new.cursor == 0,
        Key::End => new.text == old.text && new.cursor == old.text@.len(),
        Key::Char(ch) => new.text@ == old.text@.insert(c, ch) && new.cursor == c + 1,
        Key::Backspace => if c > 0 {
            new.text@ == old.text@.remove(c - 1) && new.cursor == c - 1
        } else {
            new.text@ == old.text@ && new.cursor == old.cursor
        },
        Key::Delete => new.cursor == old.cursor && if old.cursor < old.text@.len() {
            new.text@ == old.text@.remove(old.cursor as int)
        } else {
            new.text@ == old.text@
        },
        _ => new == old,
    }
}

impl FilterError {
    /// The error as the user reads it.
    pub fn message(&self) -> (r: String)
        ensures
            r@ == match self {
                FilterError::EmptyExpression => "Empty filter expression"@,
                FilterError::UnterminatedString => "Unterminated string"@,
                FilterError::ExpectedAnd => "Expected '&&'"@,
                FilterError::ExpectedOr => "Expected '||'"@,
                FilterError::UnexpectedEnd => "Unexpected end of expression"@,
                FilterError::UnexpectedToken(p) => "Unexpected token at position "@ + crate::text::decimal_spec(*p as nat),
                FilterError::MissingClosingParen => "Missing closing parenthesis"@,
                FilterError::InvalidRegex(a, m) => "Invalid regex '"@ + a@ + "': "@ + m@,
            },
    {
        let r = match self {
            FilterError::EmptyExpression => "Empty filter expression".to_string(),
            FilterError::UnterminatedString => "Unterminated string".to_string(),
            FilterError::ExpectedAnd => "Expected '&&'".to_string(),
            FilterError::ExpectedOr => "Expected '||'".to_string(),
            FilterError::UnexpectedEnd => "Unexpected end of expression".to_string(),
            FilterError::UnexpectedToken(p) => concat(
                "Unexpected token at position ",
                decimal(*p as u64).as_str(),
            ),
            FilterError::MissingClosingParen => "Missing closing parenthesis".to_string(),
            FilterError::InvalidRegex(a, m) => concat(
                concat(concat("Invalid regex '", a.as_str()).as_str(), "': ").as_str(),
                m.as_str(),
            ),
        };
        r
    }
}

/// The viewer's state apart from the event channel and the screen.
pub struct App {
    pub log_state: LogState,
    pub input_fields: InputFields,
    pub filter_state: FilterState,
    pub show_time: bool,
    pub wrap_lines: bool,
    pub input_mode: InputMode,
    pub status_message: Option<String>,
    pub show_quit_confirm: bool,
    pub has_connection: bool,
    /// Whether the heuristic rules color lines.
    pub heuristic_enabled: bool,
    /// Whether embedded JSON is colored.
    pub json_enabled: bool,
}

impl App {
    /// The filtered index holds exactly the lines that pass, in order.
    pub open spec fn wf(&self) -> bool {
        self.log_state.filtered_indices@ == passing(
            self.filter_state@,
            contents(self.log_state.lines@),
            self.log_state.lines@.len() as int,
        )
    }

    /// A viewer with the saved queries applied.
    pub fn new(state: &AppState) -> (r: App)
        ensures
            r.wf(),
            r.log_state.lines@.len() == 0,
            r.log_state.follow_tail,
            r.filter_state@ == with_highlight(
                with_filter(
                    with_hide(QueryView { hide: None, filter: None, highlight: None }, state.hide_input@),
                    state.filter_input@,
                ),
                state.highlight_input@,
            ),
            r.wrap_lines == state.wrap_lines,
            r.input_mode == InputMode::Normal,
            r.input_fields.hide.text@ == state.hide_input@,
            r.input_fields.filter.text@ == state.filter_input@,
            r.input_fields.highlight.text@ == state.highlight_input@,
    {
        let mut app = App {
            log_state: LogState::new(),
            input_fields: InputFields::from_state(state),
            filter_state: FilterState::new(),
            show_time: true,
            wrap_lines: state.wrap_lines,
            input_mode: InputMode::Normal,
            status_message: None,
            show_quit_confirm: false,
            has_connection: false,
            heuristic_enabled: true,
            json_enabled: true,
        };
        app.apply_hide();
        app.apply_filter();
        app.apply_highlight();
        app.log_state.follow_tail = true;
        app
    }

    /// The display content of a line.
    pub fn get_display_content(&self, line: &LogLine) -> (r: String)
        ensures
            r@ == display_of(self.filter_state@, line.content@),
    {
        self.filter_state.display_content(line.content.as_str())
    }

    /// The styled segments of a line's display content.
    pub fn render_line(&self, line: &LogLine) -> (r: Vec<(String, crate::highlight::HighlightStyle)>)
        ensures
            crate::highlight::segments_bytes(r@) == vstd::utf8::encode_utf8(display_of(self.filter_state@, line.content@)),
            exists|sp: Seq<crate::highlight::Span>|
                #![trigger crate::highlight::segments_of(r@, sp, display_of(self.filter_state@, line.content@))]
                crate::highlight::segments_of(r@, sp, display_of(self.filter_state@, line.content@))
                    && crate::highlight::line_spans(
                    sp,
                    display_of(self.filter_state@, line.content@),
                    crate::highlight::expr_query(self.filter_state.highlight_expr),
                    crate::highlight::compiled_rules(crate::highlight::rule_sources(), 7),
                    self.heuristic_enabled,
                    self.json_enabled,
                ),
    {
        let content = self.get_display_content(line);
        let f: Option<&crate::filter::FilterExpr> = match &self.filter_state.highlight_expr {
            Some(e) => Some(e),
            None => None,
        };
        assert(crate::highlight::query_opt(f) == crate::highlight::expr_query(self.filter_state.highlight_expr));
        let spans = crate::highlight::highlight_line(content.as_str(), f, self.heuristic_enabled, self.json_enabled);
        proof {
            reveal(crate::highlight::line_spans);
        }
        let r = crate::highlight::apply_highlights(content.as_str(), &spans);
        assert(crate::highlight::segments_of(r@, spans@, content@));
        r
    }

    /// Routes a key in normal mode: quit, start editing a field, clear,
    /// toggle an option, or scroll (`page` lines for a page).
    #[verifier::rlimit(60)]
    pub fn handle_normal_key(&mut self, key: Key, page: usize) -> (r: KeyOutcome)
        requires
            old(self).wf(),
        ensures
            final(self).wf(),
            normal_key_effect(*old(self), *final(self), key, page, r),
    {
        match key {
            Key::CtrlC | Key::Char('q') => {
                KeyOutcome::Quit
            },
            Key::Char('d') => {
                self.input_mode = InputMode::HideEdit;
                KeyOutcome::Continue
            },
            Key::Char('f') => {
                self.input_mode = InputMode::FilterEdit;
                KeyOutcome::Continue
            },
            Key::Char('h') => {
                self.input_mode = InputMode::HighlightEdit;
                KeyOutcome::Continue
            },
            Key::Char('c') => {
                self.clear();
                KeyOutcome::Continue
            },
            Key::Char('t') => {
                self.toggle_time();
                KeyOutcome::Continue
            },
            Key::Char('s') => {
                self.heuristic_enabled = !self.heuristic_enabled;
                KeyOutcome::Continue
            },
            Key::Char('J') => {
                self.json_enabled = !self.json_enabled;
                KeyOutcome::Continue
            },
            Key::Char('w') => {
                self.toggle_wrap();
                KeyOutcome::Save
            },
            Key::Char('g') | Key::Home => {
                self.log_state.scroll_to_start();
                KeyOutcome::Continue
            },
            Key::Char('G') | Key::End => {
                self.log_state.scroll_to_end();
                KeyOutcome::Continue
            },
            Key::Up | Key::Char('k') => {
                self.log_state.scroll_up(1);
                KeyOutcome::Continue
            },
            Key::PageUp => {
                self.log_state.scroll_up(page);
                KeyOutcome::Continue
            },
            Key::Down | Key::Char('j') => {
                self.log_state.scroll_down(1);
                KeyOutcome::Continue
            },
            Key::PageDown => {
                self.log_state.scroll_down(page);
                KeyOutcome::Continue
            },
            _ => KeyOutcome::Continue,
        }
    }

    /// Notes that `text` was copied.
    pub fn set_copied(&mut self, text: &str)
        ensures
            (final(self).status_message matches Some(m) && m@ == "Copied: "@ + text@),
            final(self).log_state == old(self).log_state,
            final(self).filter_state == old(self).filter_state,
    {
        self.status_message = Some(concat("Copied: ", text));
    }

    /// Appends a line and indexes it when it passes.
    fn push_line(&mut self, content: String, now: i64, update_time: bool)
        requires
            old(self).wf(),
            old(self).log_state.lines@.len() < usize::MAX,
        ensures
            final(self).wf(),
            contents(final(self).log_state.lines@) == contents(old(self).log_state.lines@).push(content@),
            final(self).filter_state == old(self).filter_state,
            final(self).log_state.bottom_line_idx == old(self).log_state.bottom_line_idx,
            final(self).log_state.follow_tail == old(self).log_state.follow_tail,
            final(self).log_state.last_update_time == if update_time {
                Some(now)
            } else {
                old(self).log_state.last_update_time
            },
            final(self).status_message == old(self).status_message,
            final(self).has_connection == old(self).has_connection,
            final(self).input_fields == old(self).input_fields,
            final(self).input_mode == old(self).input_mode,
            final(self).wrap_lines == old(self).wrap_lines,
            final(self).show_time == old(self).show_time,
            final(self).log_state.lines@.len() == old(self).log_state.lines@.len() + 1,
            final(self).log_state.filtered_indices@ == old(self).log_state.filtered_indices@
                || final(self).log_state.filtered_indices@ == old(self).log_state.filtered_indices@.push(
                old(self).log_state.lines@.len() as usize,
            ),
    {
        let ghost q = self.filter_state@;
        let ghost before = contents(self.log_state.lines@);
        let pass = self.filter_state.line_passes(content.as_str());
        let idx = self.log_state.add_line_with_update(content, now, update_time);
        let ghost after = contents(self.log_state.lines@);
        assert(after =~= before.push(content@));
        proof {
            lemma_passing_prefix(q, before, after, before.len() as int);
        }
        if pass {
            self.log_state.filtered_indices.push(idx);
        }
    }

    /// Applies one source event stamped `now`.
    pub fn handle_event(&mut self, event: SourceEvent, now: i64)
        requires
            old(self).wf(),
            old(self).log_state.lines@.len() < usize::MAX,
        ensures
            final(self).wf(),
            final(self).filter_state == old(self).filter_state,
            final(self).log_state.bottom_line_idx == old(self).log_state.bottom_line_idx,
            final(self).log_state.follow_tail == old(self).log_state.follow_tail,
            final(self).log_state.lines@.len() <= old(self).log_state.lines@.len() + 1,
            final(self).log_state.lines@.len() >= old(self).log_state.lines@.len(),
            !(event is Error) ==> final(self).status_message == old(self).status_message,
            !(event is Connected) ==> final(self).has_connection == old(self).has_connection,
            final(self).input_fields == old(self).input_fields,
            final(self).input_mode == old(self).input_mode,
            final(self).wrap_lines == old(self).wrap_lines,
            final(self).show_time == old(self).show_time,
            final(self).log_state.filtered_indices@ == old(self).log_state.filtered_indices@
                || (final(self).log_state.filtered_indices@ == old(self).log_state.filtered_indices@.push(
                old(self).log_state.lines@.len() as usize) && final(self).log_state.lines@.len() == old(
                self,
            ).log_state.lines@.len() + 1),
            match event {
                SourceEvent::Line(s) => contents(final(self).log_state.lines@) == contents(old(self).log_state.lines@).push(trim_newlines(s@))
                    && final(self).log_state.last_update_time == Some(now),
                SourceEvent::SystemLine(s) => contents(final(self).log_state.lines@) == contents(old(self).log_state.lines@).push(trim_newlines(s@))
                    && final(self).log_state.last_update_time == old(self).log_state.last_update_time,
                SourceEvent::Error(e) => final(self).log_state == old(self).log_state
                    && (final(self).status_message matches Some(m) && m@ == "Source error: "@ + e@),
                SourceEvent::Connected(_) => final(self).log_state == old(self).log_state && final(self).has_connection,
                SourceEvent::Disconnected(_) => final(self).log_state == old(self).log_state
                    && final(self).has_connection == old(self).has_connection,
            },
    {
        match event {
            SourceEvent::Line(s) => {
                self.push_line(trim_line_end(s.as_str()), now, true);
            },
            SourceEvent::SystemLine(s) => {
                self.push_line(trim_line_end(s.as_str()), now, false);
            },
            SourceEvent::Error(e) => {
                self.status_message = Some(concat("Source error: ", e.as_str()));
            },
            SourceEvent::Connected(_) => {
                self.has_connection = true;
            },
            SourceEvent::Disconnected(_) => {},
        }
    }

    /// Applies a drained batch of events stamped `now`, in order.
    pub fn handle_events(&mut self, events: Vec<SourceEvent>, now: i64)
        requires
            old(self).wf(),
            old(self).log_state.lines@.len() + events@.len() < usize::MAX,
        ensures
            final(self).wf(),
            contents(final(self).log_state.lines@) == contents(old(self).log_state.lines@) + batch_lines(events@),
            status_view(final(self).status_message) == batch_status(events@, status_view(old(self).status_message)),
            final(self).has_connection == (old(self).has_connection || batch_connects(events@)),
            final(self).filter_state == old(self).filter_state,
            final(self).log_state.bottom_line_idx == old(self).log_state.bottom_line_idx,
            final(self).log_state.follow_tail == old(self).log_state.follow_tail,
    {
        let ghost evs = events@;
        let ghost base = contents(old(self).log_state.lines@);
        let mut events = events;
        let n = events.len();
        let mut k: usize = 0;
        assert(base + batch_lines(evs.subrange(0, 0)) =~= base);
        while k < n
            invariant
                self.wf(),
                k <= n,
                n == evs.len(),
                events@ == evs.subrange(k as int, n as int),
                base == contents(old(self).log_state.lines@),
                old(self).log_state.lines@.len() + n < usize::MAX,
                contents(self.log_state.lines@) == base + batch_lines(evs.subrange(0, k as int)),
                self.log_state.lines@.len() <= old(self).log_state.lines@.len() + k,
                status_view(self.status_message) == batch_status(evs.subrange(0, k as int), status_view(old(self).status_message)),
                self.has_connection == (old(self).has_connection || batch_connects(evs.subrange(0, k as int))),
                self.filter_state == old(self).filter_state,
                self.log_state.bottom_line_idx == old(self).log_state.bottom_line_idx,
                self.log_state.follow_tail == old(self).log_state.follow_tail,
            decreases n - k,
        {
            let event = events.remove(0);
            let ghost pre = evs.subrange(0, k as int);
            let ghost cur = evs.subrange(0, k + 1);
            assert(cur.drop_last() =~= pre);
            assert(cur.last() == event);
            let ghost ev = event;
            let ghost p = batch_lines(pre);
            let ghost lines0 = contents(self.log_state.lines@);
            self.handle_event(event, now);
            proof {
                assert(batch_lines(cur) == match event_text(ev) {
                    Some(t) => p.push(t),
                    None => p,
                });
                match event_text(ev) {
                    Some(t) => {
                        assert(base + p.push(t) =~= lines0.push(t));
                    },
                    None => {},
                }
            }
            assert(events@ =~= evs.subrange(k + 1, n as int));
            k = k + 1;
        }
        assert(evs.subrange(0, n as int) =~= evs);
    }

    /// Recomputes the filtered index from the whole buffer, anchors at the
    /// top and stops following the tail.
    fn rebuild_filtered_indices(&mut self)
        ensures
            final(self).wf(),
            final(self).log_state.lines == old(self).log_state.lines,
            final(self).log_state.bottom_line_idx == 0,
            !final(self).log_state.follow_tail,
            final(self).log_state.last_update_time == old(self).log_state.last_update_time,
            final(self).filter_state == old(self).filter_state,
            final(self).input_fields == old(self).input_fields,
            final(self).input_mode == old(self).input_mode,
            final(self).wrap_lines == old(self).wrap_lines,
    {
        let ghost q = self.filter_state@;
        let ghost ls = contents(self.log_state.lines@);
        let mut out: Vec<usize> = Vec::new();
        let n = self.log_state.lines.len();
        let mut i: usize = 0;
        while i < n
            invariant
                n == self.log_state.lines@.len(),
                ls == contents(self.log_state.lines@),
                q == self.filter_state@,
                i <= n,
                out@ == passing(q, ls, i as int),
            decreases n - i,
        {
            if self.filter_state.line_passes(self.log_state.lines[i].content.as_str()) {
                out.push(i);
            }
            i = i + 1;
        }
        self.log_state.filtered_indices = out;
        self.log_state.bottom_line_idx = 0;
        self.log_state.follow_tail = false;
    }

    /// Applies the hide field: a blank field hides nothing; a regex that
    /// does not compile leaves the queries as they were and marks the field.
    pub fn apply_hide(&mut self)
        ensures
            final(self).wf(),
            final(self).filter_state@ == with_hide(old(self).filter_state@, old(self).input_fields.hide.text@),
            final(self).input_fields.hide.text == old(self).input_fields.hide.text,
            final(self).input_fields.hide.error is Some <==> (trim_chars(old(self).input_fields.hide.text@).len()
                != 0 && !fancy_compiles(old(self).input_fields.hide.text@)),
            final(self).input_fields.filter == old(self).input_fields.filter,
            final(self).input_fields.highlight == old(self).input_fields.highlight,
            final(self).log_state.lines == old(self).log_state.lines,
            final(self).input_mode == old(self).input_mode,
            final(self).wrap_lines == old(self).wrap_lines,
            old(self).wf() && final(self).input_fields.hide.error is Some ==> final(self).log_state == old(self).log_state,
            final(self).input_fields.hide.error is None ==> final(self).log_state.bottom_line_idx == 0
                && !final(self).log_state.follow_tail,
    {
        if self.input_fields.hide.is_empty() {
            self.filter_state.hide_regex = None;
            self.input_fields.hide.clear_error();
        } else {
            match compile_fancy(self.input_fields.hide.text.as_str()) {
                Ok(re) => {
                    self.filter_state.hide_regex = Some(re);
                    self.input_fields.hide.clear_error();
                },
                Err(e) => {
                    self.input_fields.hide.set_error(Some(e));
                    if !self.is_indexed() {
                        self.rebuild_filtered_indices();
                    }
                    return;
                },
            }
        }
        self.rebuild_filtered_indices();
    }

    /// Whether the filtered index matches the buffer and the queries.
    fn is_indexed(&self) -> (r: bool)
        ensures
            r == self.wf(),
    {
        let ghost q = self.filter_state@;
        let ghost ls = contents(self.log_state.lines@);
        let n = self.log_state.lines.len();
        let mut out: Vec<usize> = Vec::new();
        let mut i: usize = 0;
        while i < n
            invariant
                n == self.log_state.lines@.len(),
                ls == contents(self.log_state.lines@),
                q == self.filter_state@,
                i <= n,
                out@ == passing(q, ls, i as int),
            decreases n - i,
        {
            if self.filter_state.line_passes(self.log_state.lines[i].content.as_str()) {
                out.push(i);
            }
            i = i + 1;
        }
        let f = &self.log_state.filtered_indices;
        if f.len() != out.len() {
            return false;
        }
        let mut k: usize = 0;
        while k < out.len()
            invariant
                f@.len() == out@.len(),
                f@ == self.log_state.filtered_indices@,
                n == self.log_state.lines@.len(),
                ls == contents(self.log_state.lines@),
                q == self.filter_state@,
                out@ == passing(q, ls, n as int),
                k <= out@.len(),
                forall|j: int| 0 <= j < k ==> f@[j] == out@[j],
            decreases out@.len() - k,
        {
            if f[k] != out[k] {
                assert(f@[k as int] != out@[k as int]);
                return false;
            }
            k = k + 1;
        }
        assert(f@ =~= out@);
        true
    }

    /// Applies the filter field: a blank field keeps every line; a string
    /// that does not parse leaves the queries as they were and marks the
    /// field.
    pub fn apply_filter(&mut self)
        ensures
            final(self).wf(),
            final(self).filter_state@ == with_filter(old(self).filter_state@, old(self).input_fields.filter.text@),
            final(self).input_fields.filter.text == old(self).input_fields.filter.text,
            final(self).input_fields.filter.error is Some <==> (trim_chars(old(self).input_fields.filter.text@).len()
                != 0 && parse_spec(old(self).input_fields.filter.text@) is Err),
            final(self).input_fields.hide == old(self).input_fields.hide,
            final(self).input_fields.highlight == old(self).input_fields.highlight,
            final(self).log_state.lines == old(self).log_state.lines,
            final(self).input_mode == old(self).input_mode,
            final(self).wrap_lines == old(self).wrap_lines,
            old(self).wf() && final(self).input_fields.filter.error is Some ==> final(self).log_state == old(self).log_state,
            final(self).input_fields.filter.error is None ==> final(self).log_state.bottom_line_idx == 0
                && !final(self).log_state.follow_tail,
    {
        if self.input_fields.filter.is_empty() {
            self.filter_state.filter_expr = None;
            self.input_fields.filter.clear_error();
        } else {
            match parse_filter(self.input_fields.filter.text.as_str()) {
                Ok(e) => {
                    self.filter_state.filter_expr = Some(e);
                    self.input_fields.filter.clear_error();
                },
                Err(f) => {
                    self.input_fields.filter.set_error(Some(f.message()));
                    if !self.is_indexed() {
                        self.rebuild_filtered_indices();
                    }
                    return;
                },
            }
        }
        self.rebuild_filtered_indices();
    }

    /// Applies the highlight field; the filtered index does not change.
    pub fn apply_highlight(&mut self)
        ensures
            final(self).filter_state@ == with_highlight(old(self).filter_state@, old(self).input_fields.highlight.text@),
            final(self).input_fields.highlight.text == old(self).input_fields.highlight.text,
            final(self).input_fields.highlight.error is Some <==> (trim_chars(old(self).input_fields.highlight.text@).len()
                != 0 && parse_spec(old(self).input_fields.highlight.text@) is Err),
            final(self).input_fields.hide == old(self).input_fields.hide,
            final(self).input_fields.filter == old(self).input_fields.filter,
            final(self).log_state == old(self).log_state,
            final(self).input_mode == old(self).input_mode,
            final(self).wrap_lines == old(self).wrap_lines,
            old(self).wf() ==> final(self).wf(),
    {
        if self.input_fields.highlight.is_empty() {
            self.filter_state.highlight_expr = None;
            self.input_fields.highlight.clear_error();
        } else {
            match parse_filter(self.input_fields.highlight.text.as_str()) {
                Ok(e) => {
                    self.filter_state.highlight_expr = Some(e);
                    self.input_fields.highlight.clear_error();
                },
                Err(f) => {
                    self.input_fields.highlight.set_error(Some(f.message()));
                },
            }
        }
        proof {
            if old(self).wf() {
                lemma_passing_highlight(old(self).filter_state@, self.filter_state@, contents(self.log_state.lines@),
                    self.log_state.lines@.len() as int);
            }
        }
    }

    /// Applies the field being edited; editing ends unless it was rejected.
    pub fn apply_current_input(&mut self)
        requires
            old(self).wf(),
        ensures
            final(self).wf(),
            old(self).input_mode == InputMode::Normal ==> final(self).filter_state@ == old(self).filter_state@,
            old(self).input_mode == InputMode::HideEdit ==> final(self).filter_state@ == with_hide(
                old(self).filter_state@,
                old(self).input_fields.hide.text@,
            ),
            old(self).input_mode == InputMode::FilterEdit ==> final(self).filter_state@ == with_filter(
                old(self).filter_state@,
                old(self).input_fields.filter.text@,
            ),
            old(self).input_mode == InputMode::HighlightEdit ==> final(self).filter_state@ == with_highlight(
                old(self).filter_state@,
                old(self).input_fields.highlight.text@,
            ),
            final(self).input_mode == if old(self).input_mode == InputMode::Normal {
                InputMode::Normal
            } else if (old(self).input_mode == InputMode::HideEdit && final(self).input_fields.hide.error is Some) || (
            old(self).input_mode == InputMode::FilterEdit && final(self).input_fields.filter.error is Some) || (
            old(self).input_mode == InputMode::HighlightEdit && final(self).input_fields.highlight.error is Some) {
                old(self).input_mode
            } else {
                InputMode::Normal
            },
    {
        match self.input_mode {
            InputMode::HideEdit => {
                self.apply_hide();
                if !self.input_fields.hide.has_error() {
                    self.input_mode = InputMode::Normal;
                }
            },
            InputMode::FilterEdit => {
                self.apply_filter();
                if !self.input_fields.filter.has_error() {
                    self.input_mode = InputMode::Normal;
                }
            },
            InputMode::HighlightEdit => {
                self.apply_highlight();
                if !self.input_fields.highlight.has_error() {
                    self.input_mode = InputMode::Normal;
                }
            },
            InputMode::Normal => {},
        }
    }

    /// Edits the active field with `key`; returns whether the key asks to
    /// apply it.
    pub fn handle_input_key(&mut self, key: Key) -> (r: bool)
        requires
            old(self).input_fields.hide.text@.len() < usize::MAX,
            old(self).input_fields.filter.text@.len() < usize::MAX,
            old(self).input_fields.highlight.text@.len() < usize::MAX,
        ensures
            r == (old(self).input_mode != InputMode::Normal && key is Enter),
            final(self).log_state == old(self).log_state,
            final(self).filter_state == old(self).filter_state,
            final(self).input_mode == if old(self).input_mode != InputMode::Normal && key is Esc {
                InputMode::Normal
            } else {
                old(self).input_mode
            },
            old(self).input_mode == InputMode::Normal ==> final(self).input_fields == old(self).input_fields,
            old(self).input_mode == InputMode::HideEdit ==> key_effect(old(self).input_fields.hide, final(self).input_fields.hide, key)
                && final(self).input_fields.filter == old(self).input_fields.filter
                && final(self).input_fields.highlight == old(self).input_fields.highlight,
            old(self).input_mode == InputMode::FilterEdit ==> key_effect(old(self).input_fields.filter, final(self).input_fields.filter, key)
                && final(self).input_fields.hide == old(self).input_fields.hide
                && final(self).input_fields.highlight == old(self).input_fields.highlight,
            old(self).input_mode == InputMode::HighlightEdit ==> key_effect(old(self).input_fields.highlight, final(self).input_fields.highlight, key)
                && final(self).input_fields.hide == old(self).input_fields.hide
                && final(self).input_fields.filter == old(self).input_fields.filter,
    {
        let mode = self.input_mode;
        let mut apply = false;
        let mut leave = false;
        match self.input_fields.get_active_mut(mode) {
            Some(input) => {
                match key {
                    Key::Left => input.move_cursor_left(),
                    Key::Right => input.move_cursor_right(),
                    Key::Home => input.move_cursor_to_start(),
                    Key::End => input.move_cursor_to_end(),
                    Key::Char(c) => input.insert_char(c),
                    Key::Backspace => input.delete_char_before_cursor(),
                    Key::Delete => input.delete_char_at_cursor(),
                    Key::Enter => {
                        apply = true;
                    },
                    Key::Esc => {
                        leave = true;
                    },
                    Key::Up | Key::Down | Key::PageUp | Key::PageDown | Key::Tab | Key::BackTab | Key::CtrlC | Key::Other => {},
                }
            },
            None => {},
        }
        if leave {
            self.input_mode = InputMode::Normal;
        }
        apply
    }

    /// Empties the buffer.
    pub fn clear(&mut self)
        ensures
            final(self).wf(),
            final(self).log_state.lines@.len() == 0,
            final(self).log_state.filtered_indices@.len() == 0,
            final(self).log_state.bottom_line_idx == 0,
            final(self).filter_state == old(self).filter_state,
            final(self).input_fields == old(self).input_fields,
            final(self).input_mode == old(self).input_mode,
            final(self).status_message matches Some(m) && m@ == "Cleared"@,
    {
        self.log_state.clear();
        self.status_message = Some("Cleared".to_string());
        assert(self.log_state.filtered_indices@ =~= Seq::<usize>::empty());
    }

    pub fn toggle_time(&mut self)
        ensures
            *final(self) == (App { show_time: !old(self).show_time, ..*old(self) }),
    {
        self.show_time = !self.show_time;
    }

    pub fn toggle_wrap(&mut self)
        ensures
            *final(self) == (App { wrap_lines: !old(self).wrap_lines, ..*old(self) }),
    {
        self.wrap_lines = !self.wrap_lines;
    }

    /// Width of the columns before a line's text.
    pub fn prefix_width(&self) -> (r: usize)
        ensures
            r == if self.show_time { TIMESTAMP_WIDTH + LINE_NUMBER_WIDTH } else { LINE_NUMBER_WIDTH as int },
    {
        if self.show_time {
            TIMESTAMP_WIDTH + LINE_NUMBER_WIDTH
        } else {
            LINE_NUMBER_WIDTH
        }
    }

    /// The query strings and options to save.
    pub fn saved_state(&self, line_start_regex: &str) -> (r: AppState)
        ensures
            r.hide_input@ == self.input_fields.hide.text@,
            r.filter_input@ == self.input_fields.filter.text@,
            r.highlight_input@ == self.input_fields.highlight.text@,
            r.wrap_lines == self.wrap_lines,
            r.line_start_regex@ == line_start_regex@,
    {
        AppState {
            hide_input: self.input_fields.hide.text.clone(),
            filter_input: self.input_fields.filter.text.clone(),
            highlight_input: self.input_fields.highlight.text.clone(),
            wrap_lines: self.wrap_lines,
            line_start_regex: line_start_regex.to_string(),
        }
    }
}

/// `passing` looks only at the lines it covers.
proof fn lemma_passing_prefix(q: QueryView, a: Seq<Seq<char>>, b: Seq<Seq<char>>, n: int)
    requires
        0 <= n <= a.len(),
        n <= b.len(),
        forall|i: int| 0 <= i < n ==> a[i] == b[i],
    ensures
        passing(q, a, n) == passing(q, b, n),
    decreases n,
{
    if n > 0 {
        lemma_passing_prefix(q, a, b, n - 1);
    }
}

/// `passing` does not depend on the highlight query.
proof fn lemma_passing_highlight(q: QueryView, r: QueryView, ls: Seq<Seq<char>>, n: int)
    requires
        q.hide == r.hide,
        q.filter == r.filter,
    ensures
        passing(q, ls, n) == passing(r, ls, n),
    decreases n,
{
    if n > 0 {
        lemma_passing_highlight(q, r, ls, n - 1);
        assert(passes(q, ls[n - 1]) == passes(r, ls[n - 1]));
    }
}

/// One incremental step: index line `i` when it passes.
pub open spec fn append_step(q: QueryView, idx: Seq<usize>, ls: Seq<Seq<char>>, i: int) -> Seq<usize> {
    if passes(q, ls[i]) {
        idx.push(i as usize)
    } else {
        idx
    }
}

/// The index kept up to date line by line while lines `from..to` arrive.
pub open spec fn appended(q: QueryView, idx: Seq<usize>, ls: Seq<Seq<char>>, from: int, to: int) -> Seq<usize>
    decreases to - from,
{
    if from >= to {
        idx
    } else {
        appended(q, append_step(q, idx, ls, from), ls, from + 1, to)
    }
}

/// Rebuilding the filtered index from scratch gives the index that was kept
/// up to date line by line, after any run of appends.
pub proof fn law_rebuild_matches_incremental(q: QueryView, ls: Seq<Seq<char>>, from: int, to: int)
    requires
        0 <= from <= to <= ls.len(),
    ensures
        appended(q, passing(q, ls, from), ls, from, to) == passing(q, ls, to),
    decreases to - from,
{
    if from < to {
        assert(append_step(q, passing(q, ls, from), ls, from) == passing(q, ls, from + 1));
        law_rebuild_matches_incremental(q, ls, from + 1, to);
    }
}

/// Applying the same filter string twice gives the same queries, and so the
/// same filtered index, as applying it once.
pub proof fn law_apply_filter_twice(q: QueryView, text: Seq<char>, ls: Seq<Seq<char>>)
    ensures
        with_filter(with_filter(q, text), text) == with_filter(q, text),
        passing(with_filter(with_filter(q, text), text), ls, ls.len() as int) == passing(
            with_filter(q, text),
            ls,
            ls.len() as int,
        ),
{
}

/// Applying the same hide string twice gives the same queries as applying it
/// once.
pub proof fn law_apply_hide_twice(q: QueryView, text: Seq<char>)
    ensures
        with_hide(with_hide(q, text), text) == with_hide(q, text),
{
}

} // verus!
