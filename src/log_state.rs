//! The log buffer, its filtered index and scroll anchor, and the compiled
//! queries that decide what a line displays and whether it passes.
use vstd::prelude::*;
use crate::display::{hide_spec, hide_with};
use crate::filter::{FilterExpr, Query, eval};
use crate::pattern::FancyPattern;
use crate::text::{concat, decimal, decimal_spec};

verus! {

/// The compiled queries: what to hide, what to keep, what to highlight.
/// Each may be absent.
pub struct FilterState {
    pub hide_regex: Option<FancyPattern>,
    pub filter_expr: Option<FilterExpr>,
    pub highlight_expr: Option<FilterExpr>,
}

/// What the queries are, as contracts see them.
pub struct QueryView {
    pub hide: Option<Seq<char>>,
    pub filter: Option<Query>,
    pub highlight: Option<Query>,
}

impl View for FilterState {
    type V = QueryView;

    open spec fn view(&self) -> QueryView {
        QueryView {
            hide: match &self.hide_regex {
                Some(p) => Some(p@),
                None => None,
            },
            filter: match &self.filter_expr {
                Some(e) => Some(e@),
                None => None,
            },
            highlight: match &self.highlight_expr {
                Some(e) => Some(e@),
                None => None,
            },
        }
    }
}

/// The hide step: the raw text when nothing is hidden.
pub open spec fn apply_hide_spec(q: QueryView, raw: Seq<char>) -> Result<Seq<char>, Seq<char>> {
    match q.hide {
        None => Ok(raw),
        Some(p) => hide_spec(p, raw),
    }
}

/// The display content of a line: its raw text when the hide regex fails.
pub open spec fn display_of(q: QueryView, raw: Seq<char>) -> Seq<char> {
    match apply_hide_spec(q, raw) {
        Ok(d) => d,
        Err(_) => raw,
    }
}

/// Whether display content passes the filter; everything passes when there
/// is none.
pub open spec fn matches_filter_spec(q: QueryView, content: Seq<char>) -> bool {
    match q.filter {
        None => true,
        Some(f) => eval(f, content),
    }
}

/// Whether a raw line is shown.
pub open spec fn passes(q: QueryView, raw: Seq<char>) -> bool {
    matches_filter_spec(q, display_of(q, raw))
}

impl FilterState {
    pub fn new() -> (r: FilterState)
        ensures
            r@.hide is None,
            r@.filter is None,
            r@.highlight is None,
    {
        FilterState { hide_regex: None, filter_expr: None, highlight_expr: None }
    }

    /// The raw content with what the hide regex marks removed.
    pub fn apply_hide(&self, content: &str) -> (r: Result<String, String>)
        ensures
            match r {
                Ok(s) => apply_hide_spec(self@, content@) == Ok::<_, Seq<char>>(s@),
                Err(e) => apply_hide_spec(self@, content@) == Err::<Seq<char>, _>(e@),
            },
    {
        match &self.hide_regex {
            Some(p) => hide_with(p, content),
            None => Ok(content.to_string()),
        }
    }

    /// The display content, falling back to the raw content when hiding fails.
    pub fn display_content(&self, content: &str) -> (r: String)
        ensures
            r@ == display_of(self@, content@),
    {
        match self.apply_hide(content) {
            Ok(s) => s,
            Err(_) => content.to_string(),
        }
    }

    pub fn matches_filter(&self, content: &str) -> (r: bool)
        ensures
            r == matches_filter_spec(self@, content@),
    {
        match &self.filter_expr {
            Some(e) => e.matches(content),
            None => true,
        }
    }

    /// Whether a raw line passes hide and filter.
    pub fn line_passes(&self, raw: &str) -> (r: bool)
        ensures
            r == passes(self@, raw@),
    {
        let d = self.display_content(raw);
        self.matches_filter(d.as_str())
    }
}

/// One logical record: when it arrived (seconds since the epoch) and its text.
pub struct LogLine {
    pub timestamp: i64,
    pub content: String,
}

/// How long ago a line arrived, in buckets.
#[derive(Clone, Copy, PartialEq, Eq, Structural, Debug)]
pub enum TimeAge {
    VeryRecent,
    Recent,
    Minutes,
    Hours,
    Days,
}

pub open spec fn time_age_spec(secs: int) -> TimeAge {
    if secs < 15 {
        TimeAge::VeryRecent
    } else if secs < 60 {
        TimeAge::Recent
    } else if secs < 3600 {
        TimeAge::Minutes
    } else if secs < 86400 {
        TimeAge::Hours
    } else {
        TimeAge::Days
    }
}

/// The age bucket of a line stamped `timestamp`, seen at `now`.
pub fn get_time_age(timestamp: i64, now: i64) -> (r: TimeAge)
    ensures
        r == time_age_spec(now - timestamp),
{
    let secs: i128 = now as i128 - timestamp as i128;
    if secs < 15 {
        TimeAge::VeryRecent
    } else if secs < 60 {
        TimeAge::Recent
    } else if secs < 3600 {
        TimeAge::Minutes
    } else if secs < 86400 {
        TimeAge::Hours
    } else {
        TimeAge::Days
    }
}

/// The buffer of logical lines, the indices that pass the filter, and the
/// terminal scroll anchor.
pub struct LogState {
    pub lines: Vec<LogLine>,
    pub filtered_indices: Vec<usize>,
    pub bottom_line_idx: usize,
    pub follow_tail: bool,
    pub last_update_time: Option<i64>,
}

/// The texts of the lines.
pub open spec fn contents(lines: Seq<LogLine>) -> Seq<Seq<char>> {
    lines.map_values(|l: LogLine| l.content@)
}

/// The largest filtered position, 0 when there is none.
pub open spec fn last_pos(n: int) -> int {
    if n == 0 {
        0
    } else {
        n - 1
    }
}

/// Where the anchor lands after scrolling `amount` lines up: from the last
/// line when following the tail, saturating at 0.
pub open spec fn scroll_up_spec(follow: bool, bottom: int, n: int, amount: int) -> int {
    let from = if follow {
        last_pos(n)
    } else {
        bottom
    };
    if from >= amount {
        from - amount
    } else {
        0
    }
}

/// The anchor and follow flag after scrolling `amount` lines down: nothing
/// moves while following; else capped at the last line, which follows the
/// tail again.
pub open spec fn scroll_down_spec(follow: bool, bottom: int, n: int, amount: int) -> (int, bool) {
    if follow {
        (bottom, true)
    } else {
        let max = last_pos(n);
        let want = bottom + amount;
        (if want < max { want } else { max }, want >= max)
    }
}

impl LogState {
    pub fn new() -> (r: LogState)
        ensures
            r.lines@.len() == 0,
            r.filtered_indices@.len() == 0,
            r.bottom_line_idx == 0,
            r.follow_tail,
            r.last_update_time is None,
    {
        LogState {
            lines: Vec::new(),
            filtered_indices: Vec::new(),
            bottom_line_idx: 0,
            follow_tail: true,
            last_update_time: None,
        }
    }

    /// Appends a line stamped `now`; returns its index.
    pub fn add_line(&mut self, content: String, now: i64) -> (r: usize)
        requires
            old(self).lines@.len() < usize::MAX,
        ensures
            r == old(self).lines@.len(),
            final(self).lines@ == old(self).lines@.push(LogLine { timestamp: now, content }),
            final(self).last_update_time == Some(now),
            final(self).filtered_indices == old(self).filtered_indices,
            final(self).bottom_line_idx == old(self).bottom_line_idx,
            final(self).follow_tail == old(self).follow_tail,
    {
        self.add_line_with_update(content, now, true)
    }

    /// Appends a line stamped `now`; the recency clock moves only when
    /// `update_time` is set. Returns the new line's index.
    pub fn add_line_with_update(&mut self, content: String, now: i64, update_time: bool) -> (r: usize)
        requires
            old(self).lines@.len() < usize::MAX,
        ensures
            r == old(self).lines@.len(),
            final(self).lines@ == old(self).lines@.push(LogLine { timestamp: now, content }),
            final(self).last_update_time == if update_time {
                Some(now)
            } else {
                old(self).last_update_time
            },
            final(self).filtered_indices == old(self).filtered_indices,
            final(self).bottom_line_idx == old(self).bottom_line_idx,
            final(self).follow_tail == old(self).follow_tail,
    {
        let idx = self.lines.len();
        self.lines.push(LogLine { timestamp: now, content });
        if update_time {
            self.last_update_time = Some(now);
        }
        idx
    }

    /// Empties the buffer and the filtered index and resets the anchor.
    pub fn clear(&mut self)
        ensures
            final(self).lines@.len() == 0,
            final(self).filtered_indices@.len() == 0,
            final(self).bottom_line_idx == 0,
            final(self).last_update_time is None,
            final(self).follow_tail == old(self).follow_tail,
    {
        self.lines.clear();
        self.filtered_indices.clear();
        self.bottom_line_idx = 0;
        self.last_update_time = None;
    }

    /// Moves the anchor `amount` lines up (from the tail when following it)
    /// and stops following.
    pub fn scroll_up(&mut self, amount: usize)
        ensures
            final(self).bottom_line_idx == scroll_up_spec(
                old(self).follow_tail,
                old(self).bottom_line_idx as int,
                old(self).filtered_indices@.len() as int,
                amount as int,
            ),
            !final(self).follow_tail,
            final(self).lines == old(self).lines,
            final(self).filtered_indices == old(self).filtered_indices,
            final(self).last_update_time == old(self).last_update_time,
    {
        if self.follow_tail {
            self.bottom_line_idx = self.filtered_indices.len().saturating_sub(1);
        }
        self.bottom_line_idx = self.bottom_line_idx.saturating_sub(amount);
        self.follow_tail = false;
    }

    /// Moves the anchor `amount` lines down, capped at the last line; reaching
    /// it follows the tail again. Does nothing while following.
    pub fn scroll_down(&mut self, amount: usize)
        ensures
            old(self).follow_tail ==> *final(self) == *old(self),
            (final(self).bottom_line_idx as int, final(self).follow_tail) == scroll_down_spec(
                old(self).follow_tail,
                old(self).bottom_line_idx as int,
                old(self).filtered_indices@.len() as int,
                amount as int,
            ),
            final(self).lines == old(self).lines,
            final(self).filtered_indices == old(self).filtered_indices,
            final(self).last_update_time == old(self).last_update_time,
    {
        let max_idx = self.filtered_indices.len().saturating_sub(1);
        if self.follow_tail {
            return;
        }
        let want = self.bottom_line_idx.saturating_add(amount);
        self.bottom_line_idx = if want < max_idx { want } else { max_idx };
        if self.bottom_line_idx >= max_idx {
            self.follow_tail = true;
        }
    }

    /// Anchors at the first line and stops following.
    pub fn scroll_to_start(&mut self)
        ensures
            final(self).bottom_line_idx == 0,
            !final(self).follow_tail,
            final(self).lines == old(self).lines,
            final(self).filtered_indices == old(self).filtered_indices,
            final(self).last_update_time == old(self).last_update_time,
    {
        self.bottom_line_idx = 0;
        self.follow_tail = false;
    }

    /// Follows the tail.
    pub fn scroll_to_end(&mut self)
        ensures
            final(self).follow_tail,
            final(self).bottom_line_idx == last_pos(old(self).filtered_indices@.len() as int),
            final(self).lines == old(self).lines,
            final(self).filtered_indices == old(self).filtered_indices,
            final(self).last_update_time == old(self).last_update_time,
    {
        self.follow_tail = true;
        self.bottom_line_idx = self.filtered_indices.len().saturating_sub(1);
    }

    /// The filtered position shown on the bottom row: the last one when
    /// following the tail, else the anchor capped at the last one.
    pub fn get_bottom_line_idx(&self) -> (r: usize)
        ensures
            r == if self.follow_tail {
                last_pos(self.filtered_indices@.len() as int)
            } else if self.bottom_line_idx < last_pos(self.filtered_indices@.len() as int) {
                self.bottom_line_idx as int
            } else {
                last_pos(self.filtered_indices@.len() as int)
            },
    {
        let last = self.filtered_indices.len().saturating_sub(1);
        if self.follow_tail {
            last
        } else if self.bottom_line_idx < last {
            self.bottom_line_idx
        } else {
            last
        }
    }
}

/// How long ago, as `-12s`, `-5m`, `-3h` or `-2d`; `+0s` for a stamp in the
/// future.
pub open spec fn relative_time_spec(secs: int) -> Seq<char> {
    if secs < 0 {
        seq!['+', '0', 's']
    } else if secs < 60 {
        seq!['-'] + decimal_spec(secs as nat) + seq!['s']
    } else if secs < 3600 {
        seq!['-'] + decimal_spec((secs / 60) as nat) + seq!['m']
    } else if secs < 86400 {
        seq!['-'] + decimal_spec((secs / 3600) as nat) + seq!['h']
    } else {
        seq!['-'] + decimal_spec((secs / 86400) as nat) + seq!['d']
    }
}

/// The age of a line stamped `timestamp`, seen at `now`.
pub fn format_relative_time(timestamp: i64, now: i64) -> (r: String)
    requires
        now - timestamp <= i64::MAX,
        now - timestamp >= i64::MIN,
    ensures
        r@ == relative_time_spec(now - timestamp),
{
    let secs: i64 = now - timestamp;
    proof {
        reveal_strlit("+0s");
        reveal_strlit("-");
        reveal_strlit("s");
        reveal_strlit("m");
        reveal_strlit("h");
        reveal_strlit("d");
    }
    if secs < 0 {
        return "+0s".to_string();
    }
    let (n, unit) = if secs < 60 {
        (secs as u64, "s")
    } else if secs < 3600 {
        ((secs / 60) as u64, "m")
    } else if secs < 86400 {
        ((secs / 3600) as u64, "h")
    } else {
        ((secs / 86400) as u64, "d")
    };
    let r = concat(concat("-", decimal(n).as_str()).as_str(), unit);
    assert(r@ =~= relative_time_spec(now - timestamp));
    r
}

} // verus!
