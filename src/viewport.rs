//! The variable-height viewport: per-line heights in pixels, their running
//! offsets, the scroll position and the visible range.
use vstd::prelude::*;

verus! {

/// The height a line has until it is measured.
pub const LINE_HEIGHT: u64 = 20;

pub struct Viewport {
    pub line_heights: Vec<u64>,
    pub line_offsets: Vec<u64>,
    pub scroll_y: u64,
    pub container_height: u64,
    pub follow_tail: bool,
    pub version: u64,
    pub scroll_x: u64,
    pub container_width: u64,
    /// The widest line seen, in pixels.
    pub max_content_width: u64,
}

/// The estimated width in pixels of a line of `chars` characters: 7.2
/// pixels a character, the line number and padding, and the timestamp
/// column when shown.
pub open spec fn line_width_spec(chars: int, show_time: bool) -> int {
    (if show_time { 80int } else { 0int }) + 62 + chars * 72 / 10 + 24
}

pub fn estimate_line_width(chars: usize, show_time: bool) -> (r: u64)
    requires
        chars <= 1_000_000_000,
    ensures
        r == line_width_spec(chars as int, show_time),
{
    let t: u64 = if show_time { 80 } else { 0 };
    t + 62 + (chars as u64) * 72 / 10 + 24
}

/// Offsets are the running sums of the heights, from 0.
pub open spec fn offsets_of(hs: Seq<u64>, offs: Seq<u64>) -> bool {
    &&& offs.len() == hs.len() + 1
    &&& offs[0] == 0
    &&& forall|i: int| 0 <= i < hs.len() ==> offs[i + 1] == offs[i] + #[trigger] hs[i]
}

/// `p` splits `offs` into the offsets at most `y` and those above it.
pub open spec fn splits_le(offs: Seq<u64>, y: int, p: int) -> bool {
    &&& 0 <= p <= offs.len()
    &&& forall|i: int| 0 <= i < p ==> offs[i] <= y
    &&& forall|i: int| p <= i < offs.len() ==> offs[i] > y
}

/// `p` splits `offs` into the offsets below `y` and those at least `y`.
pub open spec fn splits_lt(offs: Seq<u64>, y: int, p: int) -> bool {
    &&& 0 <= p <= offs.len()
    &&& forall|i: int| 0 <= i < p ==> offs[i] < y
    &&& forall|i: int| p <= i < offs.len() ==> offs[i] >= y
}

/// The number of offsets at most `y` (for sorted offsets).
pub open spec fn count_le(offs: Seq<u64>, y: int) -> int {
    choose|p: int| splits_le(offs, y, p)
}

/// The number of offsets below `y` (for sorted offsets).
pub open spec fn count_lt(offs: Seq<u64>, y: int) -> int {
    choose|p: int| splits_lt(offs, y, p)
}

/// The first line visible from `scroll_y` and the end of the visible lines
/// when the viewport is `height` tall.
pub open spec fn visible_range_spec(offs: Seq<u64>, n: int, scroll_y: int, height: int) -> (int, int) {
    let a = count_le(offs, scroll_y);
    let b = count_lt(offs, scroll_y + height);
    (if a > 0 { a - 1 } else { 0 }, if b < n { b } else { n })
}

/// The furthest the view can scroll.
pub open spec fn max_scroll_spec(total: int, container: int) -> int {
    if total > container {
        total - container
    } else {
        0
    }
}

proof fn lemma_offsets_sorted(hs: Seq<u64>, offs: Seq<u64>, i: int, j: int)
    requires
        offsets_of(hs, offs),
        0 <= i <= j < offs.len(),
    ensures
        offs[i] <= offs[j],
    decreases j - i,
{
    if i < j {
        lemma_offsets_sorted(hs, offs, i, j - 1);
        assert(offs[j] == offs[j - 1] + hs[j - 1]);
    }
}

proof fn lemma_split_le_unique(offs: Seq<u64>, y: int, p: int)
    requires
        splits_le(offs, y, p),
    ensures
        count_le(offs, y) == p,
{
    let q = count_le(offs, y);
    assert(splits_le(offs, y, q));
    if q < p {
        assert(offs[q] > y);
    } else if q > p {
        assert(offs[p] <= y);
    }
}

proof fn lemma_split_lt_unique(offs: Seq<u64>, y: int, p: int)
    requires
        splits_lt(offs, y, p),
    ensures
        count_lt(offs, y) == p,
{
    let q = count_lt(offs, y);
    assert(splits_lt(offs, y, q));
    if q < p {
        assert(offs[q] >= y);
    } else if q > p {
        assert(offs[p] < y);
    }
}

impl Viewport {
    /// Offsets match the heights and the scroll position is in range.
    pub open spec fn wf(&self) -> bool {
        &&& offsets_of(self.line_heights@, self.line_offsets@)
        &&& self.scroll_y <= max_scroll_spec(self.line_offsets@.last() as int, self.container_height as int)
    }

    pub open spec fn total(&self) -> int {
        self.line_offsets@.last() as int
    }

    /// An empty viewport `container_height` tall, following the tail.
    pub fn new(container_height: u64) -> (r: Viewport)
        ensures
            r.wf(),
            r.line_heights@.len() == 0,
            r.scroll_y == 0,
            r.container_height == container_height,
            r.follow_tail,
    {
        let mut offs: Vec<u64> = Vec::new();
        offs.push(0);
        Viewport {
            line_heights: Vec::new(),
            line_offsets: offs,
            scroll_y: 0,
            container_height,
            follow_tail: true,
            version: 0,
            scroll_x: 0,
            container_width: 0,
            max_content_width: 0,
        }
    }

    /// The height of all lines.
    pub fn total_height(&self) -> (r: u64)
        requires
            self.wf(),
        ensures
            r == self.total(),
    {
        self.line_offsets[self.line_offsets.len() - 1]
    }

    /// Where line `i` starts, 0 past the end.
    pub fn get_line_offset(&self, i: usize) -> (r: u64)
        ensures
            r == if i < self.line_offsets@.len() { self.line_offsets@[i as int] } else { 0 },
    {
        if i < self.line_offsets.len() {
            self.line_offsets[i]
        } else {
            0
        }
    }

    /// Sets every one of `count` lines to the default height and scrolls
    /// back into range.
    pub fn reset(&mut self, count: usize)
        requires
            count * LINE_HEIGHT <= u64::MAX,
        ensures
            final(self).wf(),
            final(self).line_heights@ == Seq::new(count as nat, |i: int| LINE_HEIGHT),
            final(self).container_height == old(self).container_height,
            final(self).follow_tail == old(self).follow_tail,
    {
        let mut hs: Vec<u64> = Vec::new();
        let mut offs: Vec<u64> = Vec::new();
        offs.push(0);
        let mut i: usize = 0;
        while i < count
            invariant
                i <= count,
                count * LINE_HEIGHT <= u64::MAX,
                hs@ == Seq::new(i as nat, |k: int| LINE_HEIGHT),
                offsets_of(hs@, offs@),
                offs@.last() == i * LINE_HEIGHT,
            decreases count - i,
        {
            let last = offs[offs.len() - 1];
            hs.push(LINE_HEIGHT);
            offs.push(last + LINE_HEIGHT);
            assert(hs@ =~= Seq::new((i + 1) as nat, |k: int| LINE_HEIGHT));
            i = i + 1;
        }
        self.line_heights = hs;
        self.line_offsets = offs;
        self.version = self.version.wrapping_add(1);
        self.clamp_scroll();
    }

    /// Appends one line of the default height.
    pub fn push_line(&mut self)
        requires
            old(self).wf(),
            old(self).total() + LINE_HEIGHT <= u64::MAX,
        ensures
            final(self).wf(),
            final(self).line_heights@ == old(self).line_heights@.push(LINE_HEIGHT),
            final(self).total() == old(self).total() + LINE_HEIGHT,
            final(self).scroll_y == old(self).scroll_y,
            final(self).container_height == old(self).container_height,
            final(self).follow_tail == old(self).follow_tail,
    {
        let last = self.line_offsets[self.line_offsets.len() - 1];
        self.line_heights.push(LINE_HEIGHT);
        self.line_offsets.push(last + LINE_HEIGHT);
        assert(self.line_offsets@.last() >= old(self).line_offsets@.last());
    }

    /// Records the measured height of line `i`; offsets move only when it
    /// differs from the stored one.
    pub fn set_line_height(&mut self, i: usize, h: u64)
        requires
            old(self).wf(),
            i < old(self).line_heights@.len() ==> old(self).total() - old(self).line_heights@[i as int] + h <= u64::MAX,
        ensures
            final(self).wf(),
            i < old(self).line_heights@.len() ==> final(self).line_heights@ == old(self).line_heights@.update(i as int, h),
            i >= old(self).line_heights@.len() ==> final(self).line_heights@ == old(self).line_heights@,
            final(self).version == if i < old(self).line_heights@.len() && old(self).line_heights@[i as int] != h {
                old(self).version.wrapping_add(1)
            } else {
                old(self).version
            },
            final(self).container_height == old(self).container_height,
            final(self).follow_tail == old(self).follow_tail,
    {
        if i < self.line_heights.len() && self.line_heights[i] != h {
            let old_h = self.line_heights[i];
            let n = self.line_heights.len();
            let ghost old_offs = self.line_offsets@;
            let ghost old_hs = self.line_heights@;
            self.line_heights.set(i, h);
            let m = self.line_offsets.len();
            let mut j: usize = i + 1;
            while j < m
                invariant
                    m == n + 1,
                    i < j <= n + 1,
                    self.container_height == old(self).container_height,
                    self.follow_tail == old(self).follow_tail,
                    self.version == old(self).version,
                    n == old_hs.len(),
                    old_offs.len() == n + 1,
                    offsets_of(old_hs, old_offs),
                    self.line_heights@ == old_hs.update(i as int, h),
                    old_offs[n as int] - old_h + h <= u64::MAX,
                    old_hs[i as int] == old_h,
                    self.line_offsets@.len() == n + 1,
                    forall|k: int| 0 <= k <= i ==> self.line_offsets@[k] == old_offs[k],
                    forall|k: int| i < k < j ==> self.line_offsets@[k] == old_offs[k] - old_h + h,
                    forall|k: int| j <= k <= n ==> self.line_offsets@[k] == old_offs[k],
                decreases n + 1 - j,
            {
                proof {
                    lemma_offsets_sorted(old_hs, old_offs, j as int, n as int);
                    lemma_offsets_sorted(old_hs, old_offs, (i + 1) as int, j as int);
                    assert(old_offs[i + 1] == old_offs[i as int] + old_h);
                }
                let v = self.line_offsets[j] - old_h + h;
                self.line_offsets.set(j, v);
                j = j + 1;
            }
            assert forall|k: int| 0 <= k < self.line_heights@.len() implies self.line_offsets@[k + 1]
                == self.line_offsets@[k] + #[trigger] self.line_heights@[k] by {
                assert(old_offs[k + 1] == old_offs[k] + old_hs[k]);
            }
            self.version = self.version.wrapping_add(1);
            self.clamp_scroll();
        }
    }

    /// The first offset index above `y`.
    fn partition_le(&self, y: u64) -> (p: usize)
        requires
            self.wf(),
        ensures
            splits_le(self.line_offsets@, y as int, p as int),
    {
        let offs = &self.line_offsets;
        let mut lo: usize = 0;
        let mut hi: usize = offs.len();
        while lo < hi
            invariant
                offsets_of(self.line_heights@, offs@),
                offs == &self.line_offsets,
                0 <= lo <= hi <= offs@.len(),
                forall|i: int| 0 <= i < lo ==> offs@[i] <= y,
                forall|i: int| hi <= i < offs@.len() ==> offs@[i] > y,
            decreases hi - lo,
        {
            let mid = lo + (hi - lo) / 2;
            if offs[mid] <= y {
                proof {
                    assert forall|i: int| 0 <= i <= mid implies offs@[i] <= y by {
                        lemma_offsets_sorted(self.line_heights@, offs@, i, mid as int);
                    }
                }
                lo = mid + 1;
            } else {
                proof {
                    assert forall|i: int| mid <= i < offs@.len() implies offs@[i] > y by {
                        lemma_offsets_sorted(self.line_heights@, offs@, mid as int, i);
                    }
                }
                hi = mid;
            }
        }
        lo
    }

    /// The first offset index at or above `y`.
    fn partition_lt(&self, y: u64) -> (p: usize)
        requires
            self.wf(),
        ensures
            splits_lt(self.line_offsets@, y as int, p as int),
    {
        let offs = &self.line_offsets;
        let mut lo: usize = 0;
        let mut hi: usize = offs.len();
        while lo < hi
            invariant
                offsets_of(self.line_heights@, offs@),
                offs == &self.line_offsets,
                0 <= lo <= hi <= offs@.len(),
                forall|i: int| 0 <= i < lo ==> offs@[i] < y,
                forall|i: int| hi <= i < offs@.len() ==> offs@[i] >= y,
            decreases hi - lo,
        {
            let mid = lo + (hi - lo) / 2;
            if offs[mid] < y {
                proof {
                    assert forall|i: int| 0 <= i <= mid implies offs@[i] < y by {
                        lemma_offsets_sorted(self.line_heights@, offs@, i, mid as int);
                    }
                }
                lo = mid + 1;
            } else {
                proof {
                    assert forall|i: int| mid <= i < offs@.len() implies offs@[i] >= y by {
                        lemma_offsets_sorted(self.line_heights@, offs@, mid as int, i);
                    }
                }
                hi = mid;
            }
        }
        lo
    }

    /// The lines `[start, end)` that a viewport `viewport_height` tall
    /// shows from `scroll_y`.
    pub fn find_visible_range(&self, scroll_y: u64, viewport_height: u64) -> (r: (usize, usize))
        requires
            self.wf(),
            scroll_y + viewport_height <= u64::MAX,
        ensures
            r.0 == visible_range_spec(self.line_offsets@, self.line_heights@.len() as int, scroll_y as int, viewport_height as int).0,
            r.1 == visible_range_spec(self.line_offsets@, self.line_heights@.len() as int, scroll_y as int, viewport_height as int).1,
    {
        let a = self.partition_le(scroll_y);
        let b = self.partition_lt(scroll_y + viewport_height);
        proof {
            lemma_split_le_unique(self.line_offsets@, scroll_y as int, a as int);
            lemma_split_lt_unique(self.line_offsets@, (scroll_y + viewport_height) as int, b as int);
        }
        let start = if a > 0 { a - 1 } else { 0 };
        let n = self.line_heights.len();
        let end = if b < n { b } else { n };
        (start, end)
    }

    /// The furthest the view can scroll.
    pub fn max_scroll(&self) -> (r: u64)
        requires
            self.line_offsets@.len() > 0,
        ensures
            r == max_scroll_spec(self.line_offsets@.last() as int, self.container_height as int),
    {
        let total = self.line_offsets[self.line_offsets.len() - 1];
        if total > self.container_height {
            total - self.container_height
        } else {
            0
        }
    }

    /// Brings the scroll position back into range.
    pub fn clamp_scroll(&mut self)
        requires
            offsets_of(old(self).line_heights@, old(self).line_offsets@),
        ensures
            final(self).wf(),
            final(self).scroll_y == if old(self).scroll_y <= max_scroll_spec(old(self).total(), old(self).container_height as int) {
                old(self).scroll_y as int
            } else {
                max_scroll_spec(old(self).total(), old(self).container_height as int)
            },
            final(self).line_heights == old(self).line_heights,
            final(self).line_offsets == old(self).line_offsets,
            final(self).container_height == old(self).container_height,
            final(self).follow_tail == old(self).follow_tail,
            final(self).version == old(self).version,
            final(self).scroll_x == old(self).scroll_x,
            final(self).max_content_width == old(self).max_content_width,
    {
        let max = self.max_scroll();
        if self.scroll_y > max {
            self.scroll_y = max;
        }
    }

    /// Scrolls to the end.
    pub fn scroll_to_bottom(&mut self)
        requires
            old(self).wf(),
        ensures
            final(self).wf(),
            final(self).scroll_y == max_scroll_spec(old(self).total(), old(self).container_height as int),
            final(self).line_heights == old(self).line_heights,
            final(self).line_offsets == old(self).line_offsets,
            final(self).container_height == old(self).container_height,
            final(self).follow_tail == old(self).follow_tail,
            final(self).version == old(self).version,
            ({
                let n = old(self).line_heights@.len() as int;
                let r = visible_range_spec(old(self).line_offsets@, n, final(self).scroll_y as int, old(self).container_height as int);
                n > 0 && old(self).container_height > 0 && old(self).line_heights@[n - 1] > 0 ==> r.0 <= n - 1 < r.1 && r.1 == n
            }),
    {
        self.scroll_y = self.max_scroll();
        proof {
            let n = self.line_heights@.len() as int;
            if n > 0 && self.container_height > 0 && self.line_heights@[n - 1] > 0 {
                law_bottom_shows_last_line(*self);
            }
        }
    }

    /// Whether the view is within a pixel of the end.
    pub fn is_at_bottom(&self) -> (r: bool)
        requires
            self.line_offsets@.len() > 0,
        ensures
            r == (self.scroll_y + 1 >= max_scroll_spec(self.line_offsets@.last() as int, self.container_height as int)),
    {
        self.scroll_y as u128 + 1 >= self.max_scroll() as u128
    }

    /// An outside scroll to `y`: clamped, and following the tail exactly
    /// when it lands at the end.
    pub fn scroll_to(&mut self, y: u64)
        requires
            old(self).wf(),
        ensures
            final(self).wf(),
            final(self).scroll_y == if y <= max_scroll_spec(old(self).total(), old(self).container_height as int) {
                y as int
            } else {
                max_scroll_spec(old(self).total(), old(self).container_height as int)
            },
            final(self).follow_tail == (final(self).scroll_y + 1 >= max_scroll_spec(old(self).total(), old(self).container_height as int)),
            final(self).line_heights == old(self).line_heights,
            final(self).line_offsets == old(self).line_offsets,
            final(self).container_height == old(self).container_height,
    {
        self.scroll_y = y;
        self.clamp_scroll();
        self.follow_tail = self.is_at_bottom();
    }

    /// Empties the viewport and scrolls to the top.
    pub fn clear(&mut self)
        ensures
            final(self).wf(),
            final(self).line_heights@.len() == 0,
            final(self).line_offsets@ == seq![0u64],
            final(self).scroll_y == 0,
            final(self).scroll_x == 0,
            final(self).max_content_width == 0,
            final(self).container_height == old(self).container_height,
            final(self).follow_tail == old(self).follow_tail,
    {
        self.line_heights.clear();
        self.line_offsets.clear();
        self.line_offsets.push(0);
        self.scroll_y = 0;
        self.scroll_x = 0;
        self.max_content_width = 0;
        self.version = self.version.wrapping_add(1);
    }
}

impl Viewport {
    /// Widens the content to `width` when it is wider.
    pub fn note_line_width(&mut self, width: u64)
        ensures
            final(self).max_content_width == if width > old(self).max_content_width {
                width
            } else {
                old(self).max_content_width
            },
            final(self).line_heights == old(self).line_heights,
            final(self).line_offsets == old(self).line_offsets,
            final(self).scroll_y == old(self).scroll_y,
            final(self).container_height == old(self).container_height,
            final(self).follow_tail == old(self).follow_tail,
    {
        if width > self.max_content_width {
            self.max_content_width = width;
        }
    }

    /// The furthest the view can scroll sideways.
    pub fn max_scroll_x(&self) -> (r: u64)
        ensures
            r == max_scroll_spec(self.max_content_width as int, self.container_width as int),
    {
        if self.max_content_width > self.container_width {
            self.max_content_width - self.container_width
        } else {
            0
        }
    }

    /// Brings the sideways scroll back into range.
    pub fn clamp_scroll_x(&mut self)
        ensures
            final(self).scroll_x == if old(self).scroll_x <= max_scroll_spec(old(self).max_content_width as int, old(self).container_width as int) {
                old(self).scroll_x as int
            } else {
                max_scroll_spec(old(self).max_content_width as int, old(self).container_width as int)
            },
            final(self).line_heights == old(self).line_heights,
            final(self).line_offsets == old(self).line_offsets,
            final(self).scroll_y == old(self).scroll_y,
            final(self).container_height == old(self).container_height,
            final(self).follow_tail == old(self).follow_tail,
    {
        let max = self.max_scroll_x();
        if self.scroll_x > max {
            self.scroll_x = max;
        }
    }
}

/// In a well-formed viewport, consecutive offsets differ by the line's
/// height and the first offset is 0.
pub proof fn law_offsets_step(v: Viewport, i: int)
    requires
        v.wf(),
        0 <= i < v.line_heights@.len(),
    ensures
        v.line_offsets@[i + 1] - v.line_offsets@[i] == v.line_heights@[i],
        v.line_offsets@[0] == 0,
{
}

/// Scrolled to the bottom, a viewport of positive height shows the last
/// line when that line has a height.
pub proof fn law_bottom_shows_last_line(v: Viewport)
    requires
        v.wf(),
        v.line_heights@.len() > 0,
        v.line_heights@[v.line_heights@.len() - 1] > 0,
        v.container_height > 0,
        v.scroll_y == max_scroll_spec(v.total(), v.container_height as int),
    ensures
        ({
            let n = v.line_heights@.len() as int;
            let r = visible_range_spec(v.line_offsets@, n, v.scroll_y as int, v.container_height as int);
            r.0 <= n - 1 < r.1 && r.1 == n
        }),
{
    let hs = v.line_heights@;
    let offs = v.line_offsets@;
    let n = hs.len() as int;
    let y = v.scroll_y as int;
    let h = v.container_height as int;
    let t = offs[n];
    assert(offs[n] == offs[n - 1] + hs[n - 1]);
    assert(hs[n - 1] > 0);
    let a = count_le(offs, y);
    let b = count_lt(offs, y + h);
    let pa = choose_split_le(hs, offs, y, 0);
    lemma_split_le_unique(offs, y, pa);
    let pb = choose_split_lt(hs, offs, y + h, 0);
    lemma_split_lt_unique(offs, y + h, pb);
    assert(offs[n] > y);
    if t > h {
        assert(offs[n - 1] < y + h);
    } else {
        lemma_offsets_sorted(hs, offs, n - 1, n);
    }
}

/// Some index splits sorted offsets at `y` (those at most `y` first),
/// searching from `p` on.
proof fn choose_split_le(hs: Seq<u64>, offs: Seq<u64>, y: int, p: int) -> (q: int)
    requires
        offsets_of(hs, offs),
        0 <= p <= offs.len(),
        forall|i: int| 0 <= i < p ==> offs[i] <= y,
    ensures
        splits_le(offs, y, q),
    decreases offs.len() - p,
{
    if p < offs.len() && offs[p] <= y {
        choose_split_le(hs, offs, y, p + 1)
    } else {
        assert forall|i: int| p <= i < offs.len() implies offs[i] > y by {
            lemma_offsets_sorted(hs, offs, p, i);
        }
        p
    }
}

/// Some index splits sorted offsets at `y` (those below `y` first),
/// searching from `p` on.
proof fn choose_split_lt(hs: Seq<u64>, offs: Seq<u64>, y: int, p: int) -> (q: int)
    requires
        offsets_of(hs, offs),
        0 <= p <= offs.len(),
        forall|i: int| 0 <= i < p ==> offs[i] < y,
    ensures
        splits_lt(offs, y, q),
    decreases offs.len() - p,
{
    if p < offs.len() && offs[p] < y {
        choose_split_lt(hs, offs, y, p + 1)
    } else {
        assert forall|i: int| p <= i < offs.len() implies offs[i] >= y by {
            lemma_offsets_sorted(hs, offs, p, i);
        }
        p
    }
}

} // verus!
