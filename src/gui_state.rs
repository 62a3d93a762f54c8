//! The state behind the variable-height view: the controller together with
//! the viewport, whose heights follow the filtered index line for line.
use vstd::prelude::*;
use crate::app::{App, passing, with_filter, with_hide, with_highlight, event_text, batch_lines, batch_status, batch_connects, status_view};
use crate::filter::parse_spec;
use crate::pattern::{compile_fancy, fancy_compiles};
use crate::text::{trim, trim_chars};
use vstd::string::StrSliceExecFns;
use crate::input::AppState;
use crate::log_state::{contents, QueryView};
use crate::source::SourceEvent;
use crate::viewport::{Viewport, LINE_HEIGHT, estimate_line_width, max_scroll_spec, visible_range_spec};

verus! {

pub struct GuiAppState {
    pub app: App,
    pub viewport: Viewport,
    /// The line-start regex as typed; it takes effect at the next start.
    pub line_start_text: String,
    pub line_start_error: Option<String>,
}

/// `k` lines of the default height.
pub open spec fn default_heights(k: int) -> Seq<u64> {
    Seq::new(k as nat, |i: int| LINE_HEIGHT)
}

impl GuiAppState {
    /// The controller and the viewport are well formed, with one height per
    /// filtered line, and every line could take the default height.
    pub open spec fn wf(&self) -> bool {
        &&& self.app.wf()
        &&& self.viewport.wf()
        &&& self.viewport.line_heights@.len() == self.app.log_state.filtered_indices@.len()
        &&& self.app.log_state.lines@.len() * LINE_HEIGHT <= u64::MAX
    }

    /// A view with the saved queries applied, `container_height` tall.
    pub fn new(state: &AppState, container_height: u64) -> (r: GuiAppState)
        ensures
            r.wf(),
            r.app.log_state.lines@.len() == 0,
            r.viewport.follow_tail,
            r.app.filter_state@ == with_highlight(
                with_filter(
                    with_hide(QueryView { hide: None, filter: None, highlight: None }, state.hide_input@),
                    state.filter_input@,
                ),
                state.highlight_input@,
            ),
            r.app.input_fields.hide.text@ == state.hide_input@,
            r.app.input_fields.filter.text@ == state.filter_input@,
            r.app.input_fields.highlight.text@ == state.highlight_input@,
            r.app.wrap_lines == state.wrap_lines,
            r.line_start_text@ == state.line_start_regex@,
            r.line_start_error is None,
            r.viewport.container_height == container_height,
            r.viewport.scroll_y == 0,
            r.viewport.line_heights@.len() == 0,
    {
        let app = App::new(state);
        let viewport = Viewport::new(container_height);
        GuiAppState { app, viewport, line_start_text: state.line_start_regex.clone(), line_start_error: None }
    }

    /// Applies a batch of events: each line event appends its text (line
    /// ending stripped) and, when it passes, a height of the default; old
    /// heights stay. When the view followed the tail before the batch, it
    /// is scrolled to the bottom after it.
    pub fn apply_batch(&mut self, events: Vec<SourceEvent>, now: i64)
        requires
            old(self).wf(),
            old(self).app.log_state.lines@.len() + events@.len() < usize::MAX,
            (old(self).app.log_state.lines@.len() + events@.len()) * LINE_HEIGHT <= u64::MAX,
            old(self).viewport.total() + events@.len() * LINE_HEIGHT <= u64::MAX,
        ensures
            final(self).wf(),
            contents(final(self).app.log_state.lines@) == contents(old(self).app.log_state.lines@) + batch_lines(events@),
            status_view(final(self).app.status_message) == batch_status(events@, status_view(old(self).app.status_message)),
            final(self).app.has_connection == (old(self).app.has_connection || batch_connects(events@)),
            final(self).app.filter_state == old(self).app.filter_state,
            final(self).app.log_state.filtered_indices@.len() >= old(self).app.log_state.filtered_indices@.len(),
            final(self).viewport.line_heights@ == old(self).viewport.line_heights@ + default_heights(
                final(self).app.log_state.filtered_indices@.len() - old(self).app.log_state.filtered_indices@.len(),
            ),
            final(self).viewport.follow_tail == old(self).viewport.follow_tail,
            final(self).viewport.container_height == old(self).viewport.container_height,
            old(self).viewport.follow_tail ==> final(self).viewport.scroll_y == max_scroll_spec(
                final(self).viewport.total(),
                final(self).viewport.container_height as int,
            ),
            !old(self).viewport.follow_tail ==> final(self).viewport.scroll_y == old(self).viewport.scroll_y,
    {
        let ghost evs = events@;
        let ghost base = contents(old(self).app.log_state.lines@);
        let ghost h0 = old(self).viewport.line_heights@;
        let ghost f0 = old(self).app.log_state.filtered_indices@.len();
        let follow = self.viewport.follow_tail;
        let mut events = events;
        let n = events.len();
        let mut k: usize = 0;
        assert(base + batch_lines(evs.subrange(0, 0)) =~= base);
        assert(h0 + default_heights(0) =~= h0);
        while k < n
            invariant
                self.wf(),
                k <= n,
                n == evs.len(),
                events@ == evs.subrange(k as int, n as int),
                base == contents(old(self).app.log_state.lines@),
                h0 == old(self).viewport.line_heights@,
                f0 == old(self).app.log_state.filtered_indices@.len(),
                (old(self).app.log_state.lines@.len() + n) * LINE_HEIGHT <= u64::MAX,
                old(self).app.log_state.lines@.len() + n < usize::MAX,
                old(self).viewport.total() + n * LINE_HEIGHT <= u64::MAX,
                self.app.log_state.lines@.len() <= old(self).app.log_state.lines@.len() + k,
                self.viewport.total() <= old(self).viewport.total() + k * LINE_HEIGHT,
                self.app.log_state.filtered_indices@.len() >= f0,
                self.viewport.line_heights@ == h0 + default_heights(self.app.log_state.filtered_indices@.len() - f0),
                self.viewport.scroll_y == old(self).viewport.scroll_y,
                contents(self.app.log_state.lines@) == base + batch_lines(evs.subrange(0, k as int)),
                status_view(self.app.status_message) == batch_status(evs.subrange(0, k as int), status_view(old(self).app.status_message)),
                self.app.has_connection == (old(self).app.has_connection || batch_connects(evs.subrange(0, k as int))),
                self.app.filter_state == old(self).app.filter_state,
                self.viewport.follow_tail == old(self).viewport.follow_tail,
                self.viewport.container_height == old(self).viewport.container_height,
            decreases n - k,
        {
            let event = events.remove(0);
            let ghost pre = evs.subrange(0, k as int);
            let ghost cur = evs.subrange(0, k + 1);
            assert(cur.drop_last() =~= pre);
            assert(cur.last() == event);
            let ghost ev = event;
            let ghost lines0 = contents(self.app.log_state.lines@);
            let ghost hs = self.viewport.line_heights@;
            let ghost fl = self.app.log_state.filtered_indices@.len();
            self.add_event(event, now);
            proof {
                assert(batch_lines(cur) == match event_text(ev) {
                    Some(t) => batch_lines(pre).push(t),
                    None => batch_lines(pre),
                });
                match event_text(ev) {
                    Some(t) => {
                        assert(base + batch_lines(pre).push(t) =~= lines0.push(t));
                    },
                    None => {},
                }
                if self.app.log_state.filtered_indices@.len() > fl {
                    assert(h0 + default_heights(fl + 1 - f0) =~= (h0 + default_heights(fl - f0)).push(LINE_HEIGHT));
                }
            }
            assert(events@ =~= evs.subrange(k + 1, n as int));
            k = k + 1;
        }
        assert(evs.subrange(0, n as int) =~= evs);
        if follow {
            self.viewport.scroll_to_bottom();
        }
    }

    fn add_event(&mut self, event: SourceEvent, now: i64)
        requires
            old(self).wf(),
            old(self).app.log_state.lines@.len() < usize::MAX,
            (old(self).app.log_state.lines@.len() + 1) * LINE_HEIGHT <= u64::MAX,
            old(self).viewport.total() + LINE_HEIGHT <= u64::MAX,
        ensures
            final(self).wf(),
            match event_text(event) {
                Some(t) => contents(final(self).app.log_state.lines@) == contents(old(self).app.log_state.lines@).push(t),
                None => final(self).app.log_state.lines == old(self).app.log_state.lines,
            },
            final(self).app.log_state.lines@.len() <= old(self).app.log_state.lines@.len() + 1,
            event is Error ==> status_view(final(self).app.status_message) == Some("Source error: "@ + (event->Error_0)@),
            !(event is Error) ==> final(self).app.status_message == old(self).app.status_message,
            final(self).app.has_connection == (old(self).app.has_connection || event is Connected),
            final(self).app.filter_state == old(self).app.filter_state,
            final(self).app.log_state.filtered_indices@.len() == old(self).app.log_state.filtered_indices@.len()
                || final(self).app.log_state.filtered_indices@.len() == old(self).app.log_state.filtered_indices@.len() + 1,
            final(self).app.log_state.filtered_indices@.len() == old(self).app.log_state.filtered_indices@.len()
                ==> final(self).viewport.line_heights@ == old(self).viewport.line_heights@
                && final(self).viewport.total() == old(self).viewport.total(),
            final(self).app.log_state.filtered_indices@.len() == old(self).app.log_state.filtered_indices@.len() + 1
                ==> final(self).viewport.line_heights@ == old(self).viewport.line_heights@.push(LINE_HEIGHT)
                && final(self).viewport.total() == old(self).viewport.total() + LINE_HEIGHT,
            final(self).viewport.scroll_y == old(self).viewport.scroll_y,
            final(self).viewport.follow_tail == old(self).viewport.follow_tail,
            final(self).viewport.container_height == old(self).viewport.container_height,
    {
        let before = self.app.log_state.filtered_indices.len();
        let lines_before = self.app.log_state.lines.len();
        self.app.handle_event(event, now);
        if self.app.log_state.lines.len() > lines_before {
            let shown = self.app.get_display_content(&self.app.log_state.lines[lines_before]);
            let chars = shown.as_str().unicode_len();
            if chars <= 1_000_000_000 {
                self.viewport.note_line_width(estimate_line_width(chars, self.app.show_time));
            }
        }
        let after = self.app.log_state.filtered_indices.len();
        if after > before {
            self.viewport.push_line();
        }
    }

    /// Applies the filter field. On success the heights go back to the
    /// default, the view scrolls to the top and stops following the tail;
    /// on a parse error nothing but the field's error changes.
    pub fn apply_filter(&mut self)
        requires
            old(self).wf(),
        ensures
            final(self).wf(),
            final(self).app.filter_state@ == with_filter(old(self).app.filter_state@, old(self).app.input_fields.filter.text@),
            final(self).app.log_state.lines == old(self).app.log_state.lines,
            final(self).app.input_fields.filter.error is Some <==> (trim_chars(old(self).app.input_fields.filter.text@).len()
                != 0 && parse_spec(old(self).app.input_fields.filter.text@) is Err),
            final(self).app.input_fields.filter.error is Some ==> final(self).app.log_state == old(self).app.log_state
                && final(self).viewport == old(self).viewport,
            final(self).app.input_fields.filter.error is None ==> final(self).viewport.line_heights@ == default_heights(
                final(self).app.log_state.filtered_indices@.len() as int,
            ) && final(self).viewport.scroll_y == 0 && !final(self).viewport.follow_tail
                && !final(self).app.log_state.follow_tail && final(self).app.log_state.bottom_line_idx == 0,
    {
        self.app.apply_filter();
        if !self.app.input_fields.filter.has_error() {
            self.reset_view();
        }
    }

    /// Applies the hide field, as `apply_filter` does the filter field.
    pub fn apply_hide(&mut self)
        requires
            old(self).wf(),
        ensures
            final(self).wf(),
            final(self).app.filter_state@ == with_hide(old(self).app.filter_state@, old(self).app.input_fields.hide.text@),
            final(self).app.log_state.lines == old(self).app.log_state.lines,
            final(self).app.input_fields.hide.error is Some <==> (trim_chars(old(self).app.input_fields.hide.text@).len()
                != 0 && !fancy_compiles(old(self).app.input_fields.hide.text@)),
            final(self).app.input_fields.hide.error is Some ==> final(self).app.log_state == old(self).app.log_state
                && final(self).viewport == old(self).viewport,
            final(self).app.input_fields.hide.error is None ==> final(self).viewport.line_heights@ == default_heights(
                final(self).app.log_state.filtered_indices@.len() as int,
            ) && final(self).viewport.scroll_y == 0 && !final(self).viewport.follow_tail
                && !final(self).app.log_state.follow_tail && final(self).app.log_state.bottom_line_idx == 0,
    {
        self.app.apply_hide();
        if !self.app.input_fields.hide.has_error() {
            self.reset_view();
        }
    }

    /// Default heights for the filtered lines, scrolled to the top, not
    /// following the tail.
    fn reset_view(&mut self)
        requires
            old(self).app.wf(),
            old(self).app.log_state.lines@.len() * LINE_HEIGHT <= u64::MAX,
        ensures
            final(self).wf(),
            final(self).app == old(self).app,
            final(self).viewport.line_heights@ == default_heights(final(self).app.log_state.filtered_indices@.len() as int),
            final(self).viewport.scroll_y == 0,
            !final(self).viewport.follow_tail,
            final(self).viewport.container_height == old(self).viewport.container_height,
    {
        proof {
            lemma_passing_len(self.app.filter_state@, contents(self.app.log_state.lines@), self.app.log_state.lines@.len() as int);
        }
        let count = self.app.log_state.filtered_indices.len();
        self.viewport.reset(count);
        self.viewport.scroll_y = 0;
        self.viewport.follow_tail = false;
        assert(self.viewport.line_heights@ =~= default_heights(count as int));
    }

    /// Applies the highlight field; lines, index and heights stay.
    pub fn apply_highlight(&mut self)
        requires
            old(self).wf(),
        ensures
            final(self).wf(),
            final(self).app.filter_state@ == with_highlight(old(self).app.filter_state@, old(self).app.input_fields.highlight.text@),
            final(self).app.log_state == old(self).app.log_state,
            final(self).app.input_fields.highlight.error is Some <==> (trim_chars(
                old(self).app.input_fields.highlight.text@,
            ).len() != 0 && parse_spec(old(self).app.input_fields.highlight.text@) is Err),
            final(self).viewport.line_heights == old(self).viewport.line_heights,
            final(self).viewport.line_offsets == old(self).viewport.line_offsets,
            final(self).viewport.scroll_y == old(self).viewport.scroll_y,
            final(self).viewport.version == old(self).viewport.version.wrapping_add(1),
    {
        self.app.apply_highlight();
        self.viewport.version = self.viewport.version.wrapping_add(1);
    }

    /// Checks the line-start field: blank or a regex that compiles is
    /// accepted (and takes effect at the next start); otherwise the field is
    /// marked with the error.
    pub fn apply_line_start(&mut self)
        requires
            old(self).wf(),
        ensures
            final(self).wf(),
            final(self).app.filter_state == old(self).app.filter_state,
            final(self).line_start_error is Some <==> (trim_chars(old(self).line_start_text@).len() != 0
                && !fancy_compiles(old(self).line_start_text@)),
            final(self).line_start_error is None ==> (final(self).app.status_message matches Some(m)
                && m@ == "Line start regex saved. Restart to apply."@),
    {
        let blank = trim(self.line_start_text.as_str());
        if blank.as_str().unicode_len() != 0 {
            match compile_fancy(self.line_start_text.as_str()) {
                Ok(_) => {},
                Err(e) => {
                    self.line_start_error = Some(e);
                    return;
                },
            }
        }
        self.line_start_error = None;
        self.app.status_message = Some("Line start regex saved. Restart to apply.".to_string());
    }

    /// Records the measured height `h` of line `i`; offsets and the version
    /// move exactly when it differs from the stored height.
    pub fn set_line_height(&mut self, i: usize, h: u64)
        requires
            old(self).wf(),
            i < old(self).viewport.line_heights@.len() ==> old(self).viewport.total()
                - old(self).viewport.line_heights@[i as int] + h <= u64::MAX,
        ensures
            final(self).wf(),
            final(self).app == old(self).app,
            i < old(self).viewport.line_heights@.len() ==> final(self).viewport.line_heights@
                == old(self).viewport.line_heights@.update(i as int, h),
            i >= old(self).viewport.line_heights@.len() ==> final(self).viewport.line_heights@
                == old(self).viewport.line_heights@,
            final(self).viewport.version == if i < old(self).viewport.line_heights@.len()
                && old(self).viewport.line_heights@[i as int] != h {
                old(self).viewport.version.wrapping_add(1)
            } else {
                old(self).viewport.version
            },
            final(self).viewport.follow_tail == old(self).viewport.follow_tail,
    {
        self.viewport.set_line_height(i, h);
    }

    /// Empties the view.
    pub fn clear(&mut self)
        requires
            old(self).wf(),
        ensures
            final(self).wf(),
            final(self).app.log_state.lines@.len() == 0,
            final(self).app.log_state.filtered_indices@.len() == 0,
            final(self).viewport.line_heights@.len() == 0,
            final(self).viewport.line_offsets@ == seq![0u64],
            final(self).viewport.scroll_y == 0,
            final(self).viewport.scroll_x == 0,
    {
        self.app.clear();
        self.viewport.clear();
    }

    /// An outside scroll: the view follows the tail when it lands at the end.
    pub fn scroll_to(&mut self, y: u64)
        requires
            old(self).wf(),
        ensures
            final(self).wf(),
            final(self).app == old(self).app,
            final(self).viewport.scroll_y == if y <= max_scroll_spec(old(self).viewport.total(), old(self).viewport.container_height as int) {
                y as int
            } else {
                max_scroll_spec(old(self).viewport.total(), old(self).viewport.container_height as int)
            },
            final(self).viewport.follow_tail == (final(self).viewport.scroll_y + 1 >= max_scroll_spec(
                old(self).viewport.total(),
                old(self).viewport.container_height as int,
            )),
            final(self).viewport.line_heights == old(self).viewport.line_heights,
    {
        self.viewport.scroll_to(y);
    }
}

/// There are at most as many passing lines as lines.
proof fn lemma_passing_len(q: QueryView, ls: Seq<Seq<char>>, n: int)
    requires
        n >= 0,
    ensures
        passing(q, ls, n).len() <= n,
    decreases n,
{
    if n > 0 {
        lemma_passing_len(q, ls, n - 1);
    }
}

/// While the view follows the tail, after a batch the last filtered line is
/// in the visible range.
pub proof fn law_follow_tail_shows_last_line(s: GuiAppState)
    requires
        s.wf(),
        s.app.log_state.filtered_indices@.len() > 0,
        s.viewport.line_heights@[s.viewport.line_heights@.len() - 1] > 0,
        s.viewport.container_height > 0,
        s.viewport.scroll_y == max_scroll_spec(s.viewport.total(), s.viewport.container_height as int),
    ensures
        ({
            let n = s.app.log_state.filtered_indices@.len() as int;
            let r = visible_range_spec(s.viewport.line_offsets@, n, s.viewport.scroll_y as int, s.viewport.container_height as int);
            r.0 <= n - 1 < r.1 && r.1 == n
        }),
{
    crate::viewport::law_bottom_shows_last_line(s.viewport);
}

} // verus!
