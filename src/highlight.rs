//! Highlighting: spans with priorities from the highlight expression and
//! from heuristic rules, resolved byte by byte into styled segments.
use vstd::prelude::*;
use vstd::string::StringSliceAdditionalSpecFns;
use vstd::utf8::is_char_boundary;
use crate::filter::FilterExpr;
use crate::pattern::{Pattern, compile, find_all, is_byte_range_of};
use crate::text::byte_slice;

verus! {

broadcast use vstd::utf8::encode_utf8_valid_utf8, vstd::utf8::is_char_boundary_start_end_of_seq,
    vstd::utf8::encode_utf8_decode_utf8;

/// How a piece of text is shown.
#[derive(Clone, Copy, PartialEq, Eq, Structural, Debug)]
pub enum HighlightStyle {
    Plain,
    /// Bold red: errors and failures.
    Error,
    /// Bold yellow: warnings.
    Warn,
    /// Bold green: information.
    Info,
    /// Cyan: debug and trace.
    Debug,
    /// Blue: bracketed tags.
    Bracket,
    /// Magenta: dates and times.
    Timestamp,
    /// Black on yellow, bold: matches of the highlight expression.
    Custom,
    /// Cyan: keys of embedded JSON.
    JsonKey,
    /// Green: string values of embedded JSON.
    JsonString,
    /// Yellow: numbers of embedded JSON.
    JsonNumber,
    /// Magenta: booleans of embedded JSON.
    JsonBool,
    /// Red: nulls of embedded JSON.
    JsonNull,
}

/// A styled byte range with a priority; higher priorities win.
#[derive(Clone, Copy, PartialEq, Eq, Structural, Debug)]
pub struct Span {
    pub start: usize,
    pub end: usize,
    pub style: HighlightStyle,
    pub priority: u8,
}

/// The priority of highlight-expression matches.
pub const CUSTOM_PRIORITY: u8 = 100;

/// The priority of embedded JSON.
pub const JSON_PRIORITY: u8 = 50;

/// The priority of heuristic rules.
pub const HEURISTIC_PRIORITY: u8 = 10;

/// The style and priority of byte `x` after the first `k` spans: a span
/// that covers it takes it when its priority is at least the resident one.
pub open spec fn resolved(spans: Seq<Span>, k: int, x: int) -> (HighlightStyle, u8)
    decreases k,
{
    if k <= 0 {
        (HighlightStyle::Plain, 0u8)
    } else {
        let r = resolved(spans, k - 1, x);
        let s = spans[k - 1];
        if s.start <= x < s.end && s.priority >= r.1 {
            (s.style, s.priority)
        } else {
            r
        }
    }
}

/// The runs of equal style over bytes `from..n` of `styles`, as
/// `(start, end, style)`.
pub open spec fn runs(styles: Seq<HighlightStyle>, from: int) -> Seq<(usize, usize, HighlightStyle)>
    decreases styles.len() - from,
{
    if from < 0 || from >= styles.len() {
        Seq::empty()
    } else {
        let e = run_end(styles, from, from + 1);
        if e <= from || e > styles.len() {
            Seq::empty()
        } else {
            seq![(from as usize, e as usize, styles[from])] + runs(styles, e)
        }
    }
}

/// Where the run of `styles[from]` that has reached `i` ends.
pub open spec fn run_end(styles: Seq<HighlightStyle>, from: int, i: int) -> int
    decreases styles.len() - i,
{
    if i < 0 || i >= styles.len() || styles[i] != styles[from] {
        i
    } else {
        run_end(styles, from, i + 1)
    }
}

/// The style of each byte of a text `n` bytes long.
pub open spec fn styles_of(spans: Seq<Span>, n: int) -> Seq<HighlightStyle> {
    Seq::new(n as nat, |x: int| resolved(spans, spans.len() as int, x).0)
}

/// Every span ends on char boundaries of `text`, inside it.
pub open spec fn spans_fit(spans: Seq<Span>, text: Seq<char>) -> bool {
    forall|i: int| 0 <= i < spans.len() ==> is_byte_range_of(text, #[trigger] spans[i].start as int, spans[i].end as int)
}

/// Whether some span starts or ends at `x`.
pub open spec fn span_edge(spans: Seq<Span>, x: int) -> bool {
    exists|i: int| 0 <= i < spans.len() && ((#[trigger] spans[i]).start == x || spans[i].end == x)
}

/// Where no span starts or ends, the resolved style does not change.
proof fn lemma_resolved_same(spans: Seq<Span>, k: int, x: int)
    requires
        0 <= k <= spans.len(),
        x > 0,
        !span_edge(spans, x),
    ensures
        resolved(spans, k, x) == resolved(spans, k, x - 1),
    decreases k,
{
    if k > 0 {
        lemma_resolved_same(spans, k - 1, x);
        let s = spans[k - 1];
        assert(s.start != x && s.end != x);
    }
}

/// The style and priority of every byte of a text `n` bytes long.
fn resolve(spans: &Vec<Span>, n: usize) -> (r: Vec<(HighlightStyle, u8)>)
    ensures
        r@.len() == n,
        forall|x: int| 0 <= x < n ==> #[trigger] r@[x] == resolved(spans@, spans@.len() as int, x),
{
    let mut at: Vec<(HighlightStyle, u8)> = Vec::new();
    let mut x: usize = 0;
    while x < n
        invariant
            x <= n,
            at@.len() == x,
            forall|y: int| 0 <= y < x ==> #[trigger] at@[y] == resolved(spans@, 0, y),
        decreases n - x,
    {
        at.push((HighlightStyle::Plain, 0u8));
        x = x + 1;
    }
    let mut k: usize = 0;
    while k < spans.len()
        invariant
            k <= spans@.len(),
            at@.len() == n,
            forall|y: int| 0 <= y < n ==> #[trigger] at@[y] == resolved(spans@, k as int, y),
        decreases spans@.len() - k,
    {
        let s = spans[k];
        let end = if s.end < n { s.end } else { n };
        let mut y = s.start;
        let ghost before = at@;
        while y < end
            invariant
                k < spans@.len(),
                s == spans@[k as int],
                at@.len() == n,
                before.len() == n,
                end <= n,
                end <= s.end,
                s.start <= y,
                forall|z: int| 0 <= z < n ==> before[z] == resolved(spans@, k as int, z),
                forall|z: int| 0 <= z < n && (z < s.start || z >= y) ==> #[trigger] at@[z] == before[z],
                forall|z: int| 0 <= z < n && s.start <= z < y ==> #[trigger] at@[z] == resolved(spans@, k + 1, z),
            decreases end - y,
        {
            if s.priority >= at[y].1 {
                at.set(y, (s.style, s.priority));
            }
            y = y + 1;
        }
        assert forall|z: int| 0 <= z < n implies #[trigger] at@[z] == resolved(spans@, k + 1, z) by {
            if z < s.start || z >= y {
                assert(at@[z] == before[z]);
            }
        }
        k = k + 1;
    }
    at
}

/// The runs of equal style in `styles`.
fn style_runs(styles: &Vec<HighlightStyle>) -> (r: Vec<(usize, usize, HighlightStyle)>)
    ensures
        r@ == runs(styles@, 0),
{
    let n = styles.len();
    let mut out: Vec<(usize, usize, HighlightStyle)> = Vec::new();
    let mut pos: usize = 0;
    while pos < n
        invariant
            n == styles@.len(),
            pos <= n,
            runs(styles@, 0) == out@ + runs(styles@, pos as int),
        decreases n - pos,
    {
        let cur = styles[pos];
        let mut end = pos + 1;
        while end < n && styles[end] == cur
            invariant
                pos < end <= n,
                n == styles@.len(),
                cur == styles@[pos as int],
                run_end(styles@, pos as int, pos + 1) == run_end(styles@, pos as int, end as int),
            decreases n - end,
        {
            end = end + 1;
        }
        let ghost o = out@;
        out.push((pos, end, cur));
        assert(o + (seq![(pos, end, cur)] + runs(styles@, end as int)) =~= out@ + runs(styles@, end as int));
        pos = end;
    }
    assert(out@ + runs(styles@, n as int) =~= out@);
    out
}

/// Every run starts and ends where some span does, or at an end of the text.
proof fn lemma_run_edges(spans: Seq<Span>, n: int, from: int, k: int)
    requires
        0 <= from <= n <= usize::MAX,
        from == 0 || from == n || span_edge(spans, from),
        0 <= k < runs(styles_of(spans, n), from).len(),
    ensures
        ({
            let r = runs(styles_of(spans, n), from)[k];
            &&& from <= r.0 < r.1 <= n
            &&& (r.0 == 0 || span_edge(spans, r.0 as int))
            &&& (r.1 == n || span_edge(spans, r.1 as int))
        }),
    decreases n - from,
{
    let st = styles_of(spans, n);
    let e = run_end(st, from, from + 1);
    lemma_run_end(spans, n, from, from + 1);
    assert(runs(st, from) == seq![(from as usize, e as usize, st[from])] + runs(st, e));
    if k > 0 {
        assert(runs(st, from)[k] == runs(st, e)[k - 1]);
        lemma_run_edges(spans, n, e, k - 1);
    }
}

/// A run stops at the end of the text or where the style changes, and a
/// change of style happens only at a span's edge.
proof fn lemma_run_end(spans: Seq<Span>, n: int, from: int, i: int)
    requires
        0 <= from < i <= n,
        forall|y: int| from <= y < i ==> styles_of(spans, n)[y] == styles_of(spans, n)[from],
    ensures
        i <= run_end(styles_of(spans, n), from, i) <= n,
        run_end(styles_of(spans, n), from, i) == n || span_edge(spans, run_end(styles_of(spans, n), from, i)),
    decreases n - i,
{
    let st = styles_of(spans, n);
    if i < n {
        if st[i] == st[from] {
            lemma_run_end(spans, n, from, i + 1);
        } else {
            assert(st[i - 1] == st[from]);
            if !span_edge(spans, i) {
                lemma_resolved_same(spans, spans.len() as int, i);
            }
        }
    }
}

/// The bytes of the segments, joined in order.
pub open spec fn segments_bytes(segs: Seq<(String, HighlightStyle)>) -> Seq<u8>
    decreases segs.len(),
{
    if segs.len() == 0 {
        Seq::empty()
    } else {
        segments_bytes(segs.drop_last()) + vstd::utf8::encode_utf8(segs.last().0@)
    }
}

/// The runs from `from` tile `from..n`: each starts where the previous one
/// ends, the first at `from` and the last ending at `n`.
proof fn lemma_runs_tile(spans: Seq<Span>, n: int, from: int)
    requires
        0 <= from <= n <= usize::MAX,
    ensures
        ({
            let rs = runs(styles_of(spans, n), from);
            &&& (rs.len() == 0 <==> from == n)
            &&& rs.len() > 0 ==> rs[0].0 == from && rs.last().1 == n
            &&& forall|i: int| 0 < i < rs.len() ==> (#[trigger] rs[i]).0 == rs[i - 1].1
        }),
    decreases n - from,
{
    let st = styles_of(spans, n);
    if from < n {
        let e = run_end(st, from, from + 1);
        lemma_run_end(spans, n, from, from + 1);
        lemma_runs_tile(spans, n, e);
        let rs = runs(st, from);
        let rest = runs(st, e);
        assert(rs == seq![(from as usize, e as usize, st[from])] + rest);
        assert forall|i: int| 0 < i < rs.len() implies (#[trigger] rs[i]).0 == rs[i - 1].1 by {
            if i > 1 {
                assert(rs[i] == rest[i - 1]);
                assert(rs[i - 1] == rest[i - 2]);
            }
        }
    }
}


/// What `highlight_line` yields: spans sorted by start (higher priority
/// first), on char boundaries of `text`, and as a multiset exactly the
/// highlight expression's merged matches at priority 100, then the JSON
/// spans at priority 50 when enabled, then each rule's matches at priority
/// 10 when enabled.
#[verifier::opaque]
pub open spec fn line_spans(
    sp: Seq<Span>,
    text: Seq<char>,
    q: Option<crate::filter::Query>,
    rv: Seq<(Seq<char>, HighlightStyle)>,
    heuristic_enabled: bool,
    json_enabled: bool,
) -> bool {
    &&& spans_sorted(sp)
    &&& spans_fit(sp, text)
    &&& forall|i: int| 0 <= i < sp.len() ==> (#[trigger] sp[i]).priority == CUSTOM_PRIORITY || sp[i].priority == HEURISTIC_PRIORITY
        || sp[i].priority == JSON_PRIORITY
    &&& forall|i: int| 0 <= i < sp.len() && (#[trigger] sp[i]).priority == CUSTOM_PRIORITY ==> sp[i].style == HighlightStyle::Custom
    &&& exists|c: Seq<Span>, j: Seq<Span>|
        #![trigger custom_spans_of(c, q, text), json_tail(j, 0)]
        {
            &&& custom_spans_of(c, q, text)
            &&& json_tail(j, 0)
            &&& (!json_enabled ==> j.len() == 0)
            &&& (json_enabled ==> j == json_scan(vstd::utf8::encode_utf8(text), 0))
            &&& sp.to_multiset() == (c + j + if heuristic_enabled {
                heuristic_spans(rv, text)
            } else {
                Seq::empty()
            }).to_multiset()
        }
}

/// The segments that resolving `sp` over `text` gives: without spans the
/// text as one plain segment; else each run of equal resolved style with
/// its bytes, left to right. Joined, they give the text back.
pub open spec fn segments_of(r: Seq<(String, HighlightStyle)>, sp: Seq<Span>, text: Seq<char>) -> bool {
    let b = vstd::utf8::encode_utf8(text);
    &&& sp.len() == 0 ==> r.len() == 1 && r[0].0@ == text && r[0].1 == HighlightStyle::Plain
    &&& sp.len() > 0 ==> ({
        let rs = runs(styles_of(sp, b.len() as int), 0);
        &&& r.len() == rs.len()
        &&& forall|i: int| 0 <= i < r.len() ==> (#[trigger] r[i]).1 == rs[i].2 && vstd::utf8::encode_utf8(r[i].0@)
            == b.subrange(rs[i].0 as int, rs[i].1 as int)
    })
    &&& segments_bytes(r) == b
}

/// The meaning of an optional owned expression.
pub open spec fn expr_query(o: Option<FilterExpr>) -> Option<crate::filter::Query> {
    match o {
        Some(e) => Some(e@),
        None => None,
    }
}

/// The segments of `text` after resolving `spans`: each run of equal style,
/// left to right, with its bytes. Without spans the text is one plain
/// segment.
pub fn apply_highlights(text: &str, spans: &Vec<Span>) -> (r: Vec<(String, HighlightStyle)>)
    requires
        spans_fit(spans@, text@),
    ensures
        spans@.len() == 0 ==> r@.len() == 1 && r@[0].0@ == text@ && r@[0].1 == HighlightStyle::Plain,
        spans@.len() > 0 ==> ({
            let rs = runs(styles_of(spans@, text.spec_bytes().len() as int), 0);
            &&& r@.len() == rs.len()
            &&& forall|i: int| 0 <= i < r@.len() ==> (#[trigger] r@[i]).1 == rs[i].2 && vstd::utf8::encode_utf8(r@[i].0@)
                == text.spec_bytes().subrange(rs[i].0 as int, rs[i].1 as int)
        }),
        segments_bytes(r@) == text.spec_bytes(),
        segments_of(r@, spans@, text@),
{
    if spans.len() == 0 {
        let mut v: Vec<(String, HighlightStyle)> = Vec::new();
        v.push((text.to_string(), HighlightStyle::Plain));
        proof {
            assert(v@.drop_last() =~= Seq::<(String, HighlightStyle)>::empty());
            assert(v@.last().0@ == text@);
            assert(segments_bytes(v@.drop_last()) == Seq::<u8>::empty());
            assert(segments_bytes(v@) == segments_bytes(v@.drop_last()) + vstd::utf8::encode_utf8(v@.last().0@));
            assert(Seq::<u8>::empty() + vstd::utf8::encode_utf8(text@) =~= vstd::utf8::encode_utf8(text@));
        }
        return v;
    }
    let ghost b = text.spec_bytes();
    let n = text.as_bytes().len();
    let at = resolve(spans, n);
    let mut styles: Vec<HighlightStyle> = Vec::new();
    let mut x: usize = 0;
    while x < n
        invariant
            x <= n,
            at@.len() == n,
            forall|y: int| 0 <= y < n ==> #[trigger] at@[y] == resolved(spans@, spans@.len() as int, y),
            styles@ == styles_of(spans@, n as int).subrange(0, x as int),
        decreases n - x,
    {
        styles.push(at[x].0);
        x = x + 1;
    }
    assert(styles@ =~= styles_of(spans@, n as int));
    let rs = style_runs(&styles);
    proof {
        lemma_runs_tile(spans@, n as int, 0);
        assert forall|i: int| 0 <= i < rs@.len() implies ({
            let r = #[trigger] rs@[i];
            &&& r.0 < r.1 <= n
            &&& is_char_boundary(b, r.0 as int)
            &&& is_char_boundary(b, r.1 as int)
        }) by {
            lemma_run_edges(spans@, n as int, 0, i);
            let r = rs@[i];
            if r.0 != 0 {
                let j = choose|j: int| 0 <= j < spans@.len() && ((#[trigger] spans@[j]).start == r.0 || spans@[j].end == r.0);
                assert(is_byte_range_of(text@, spans@[j].start as int, spans@[j].end as int));
            }
            if r.1 != n {
                let j = choose|j: int| 0 <= j < spans@.len() && ((#[trigger] spans@[j]).start == r.1 || spans@[j].end == r.1);
                assert(is_byte_range_of(text@, spans@[j].start as int, spans@[j].end as int));
            }
        }
    }
    cut_runs(text, &rs)
}

/// The text of each run, with its style.
#[verifier::rlimit(100)]
fn cut_runs(text: &str, rs: &Vec<(usize, usize, HighlightStyle)>) -> (out: Vec<(String, HighlightStyle)>)
    requires
        (rs@.len() == 0 <==> text.spec_bytes().len() == 0),
        rs@.len() > 0 ==> rs@[0].0 == 0 && rs@.last().1 == text.spec_bytes().len(),
        forall|i: int| 0 < i < rs@.len() ==> (#[trigger] rs@[i]).0 == rs@[i - 1].1,
        forall|i: int| 0 <= i < rs@.len() ==> ({
            let r = #[trigger] rs@[i];
            &&& r.0 < r.1 <= text.spec_bytes().len()
            &&& is_char_boundary(text.spec_bytes(), r.0 as int)
            &&& is_char_boundary(text.spec_bytes(), r.1 as int)
        }),
    ensures
        out@.len() == rs@.len(),
        forall|i: int| 0 <= i < out@.len() ==> (#[trigger] out@[i]).1 == rs@[i].2 && vstd::utf8::encode_utf8(out@[i].0@)
            == text.spec_bytes().subrange(rs@[i].0 as int, rs@[i].1 as int),
        segments_bytes(out@) == text.spec_bytes(),
{
    let ghost b = text.spec_bytes();
    let ghost n = b.len() as int;
    let mut out: Vec<(String, HighlightStyle)> = Vec::new();
    let mut k: usize = 0;
    while k < rs.len()
        invariant
            b == text.spec_bytes(),
            n == b.len(),
            k <= rs@.len(),
            (rs@.len() == 0 <==> n == 0),
            rs@.len() > 0 ==> rs@[0].0 == 0 && rs@.last().1 == n,
            forall|i: int| 0 < i < rs@.len() ==> (#[trigger] rs@[i]).0 == rs@[i - 1].1,
            forall|i: int| 0 <= i < rs@.len() ==> ({
                let r = #[trigger] rs@[i];
                &&& r.0 < r.1 <= n
                &&& is_char_boundary(b, r.0 as int)
                &&& is_char_boundary(b, r.1 as int)
            }),
            out@.len() == k,
            forall|i: int| 0 <= i < k ==> (#[trigger] out@[i]).1 == rs@[i].2 && vstd::utf8::encode_utf8(out@[i].0@)
                == b.subrange(rs@[i].0 as int, rs@[i].1 as int),
            segments_bytes(out@) == b.subrange(0, if k == 0 { 0 } else { rs@[k - 1].1 as int }),
        decreases rs@.len() - k,
    {
        let (a, e, st) = rs[k];
        let piece = byte_slice(text, a, e);
        let ghost before = out@;
        out.push((piece.to_string(), st));
        proof {
            assert(out@.drop_last() =~= before);
            assert(rs@[k as int].0 == if k == 0 { 0 } else { rs@[k - 1].1 as int });
            assert(b.subrange(0, a as int) + b.subrange(a as int, e as int) =~= b.subrange(0, e as int));
        }
        k = k + 1;
    }
    proof {
        assert(b.subrange(0, n) =~= b);
        if n == 0 {
            assert(b.subrange(0, 0) =~= b);
        }
    }
    out
}

/// A heuristic rule: a pattern and the style of its matches.
pub struct HighlightRule {
    pub regex: Pattern,
    pub style: HighlightStyle,
}

/// The heuristic rules' patterns and styles, in order: severities,
/// brackets, timestamps.
pub open spec fn rule_sources() -> Seq<(Seq<char>, HighlightStyle)> {
    seq![
        ("(?i)\\b(error|err|fatal|fail(ed)?|panic)\\b"@, HighlightStyle::Error),
        ("(?i)\\b(warn(ing)?)\\b"@, HighlightStyle::Warn),
        ("(?i)\\b(info)\\b"@, HighlightStyle::Info),
        ("(?i)\\b(debug|trace)\\b"@, HighlightStyle::Debug),
        ("\\[[^\\]]+\\]"@, HighlightStyle::Bracket),
        ("\\d{4}-\\d{2}-\\d{2}[T ]\\d{2}:\\d{2}:\\d{2}"@, HighlightStyle::Timestamp),
        ("\\d{2}:\\d{2}:\\d{2}"@, HighlightStyle::Timestamp),
    ]
}

/// The first `k` sources that compile, in order.
pub open spec fn compiled_rules(srcs: Seq<(Seq<char>, HighlightStyle)>, k: int) -> Seq<(Seq<char>, HighlightStyle)>
    decreases k,
{
    if k <= 0 {
        Seq::empty()
    } else if crate::pattern::regex_compiles(srcs[k - 1].0) {
        compiled_rules(srcs, k - 1).push(srcs[k - 1])
    } else {
        compiled_rules(srcs, k - 1)
    }
}

pub open spec fn rules_view(rules: Seq<HighlightRule>) -> Seq<(Seq<char>, HighlightStyle)> {
    rules.map_values(|r: HighlightRule| (r.regex@, r.style))
}

fn add_rule(rules: &mut Vec<HighlightRule>, src: &str, style: HighlightStyle)
    ensures
        rules_view(final(rules)@) == if crate::pattern::regex_compiles(src@) {
            rules_view(old(rules)@).push((src@, style))
        } else {
            rules_view(old(rules)@)
        },
{
    match compile(src) {
        Ok(re) => {
            rules.push(HighlightRule { regex: re, style });
            assert(rules_view(rules@) =~= rules_view(old(rules)@).push((src@, style)));
        },
        Err(_) => {},
    }
}

/// The heuristic rules whose patterns compile, in order.
pub fn heuristic_rules() -> (r: Vec<HighlightRule>)
    ensures
        rules_view(r@) == compiled_rules(rule_sources(), 7),
{
    let mut rules: Vec<HighlightRule> = Vec::new();
    let ghost srcs = rule_sources();
    assert(rules_view(rules@) =~= compiled_rules(srcs, 0));
    add_rule(&mut rules, "(?i)\\b(error|err|fatal|fail(ed)?|panic)\\b", HighlightStyle::Error);
    assert(rules_view(rules@) == compiled_rules(srcs, 1));
    add_rule(&mut rules, "(?i)\\b(warn(ing)?)\\b", HighlightStyle::Warn);
    assert(rules_view(rules@) == compiled_rules(srcs, 2));
    add_rule(&mut rules, "(?i)\\b(info)\\b", HighlightStyle::Info);
    assert(rules_view(rules@) == compiled_rules(srcs, 3));
    add_rule(&mut rules, "(?i)\\b(debug|trace)\\b", HighlightStyle::Debug);
    assert(rules_view(rules@) == compiled_rules(srcs, 4));
    add_rule(&mut rules, "\\[[^\\]]+\\]", HighlightStyle::Bracket);
    assert(rules_view(rules@) == compiled_rules(srcs, 5));
    add_rule(&mut rules, "\\d{4}-\\d{2}-\\d{2}[T ]\\d{2}:\\d{2}:\\d{2}", HighlightStyle::Timestamp);
    assert(rules_view(rules@) == compiled_rules(srcs, 6));
    add_rule(&mut rules, "\\d{2}:\\d{2}:\\d{2}", HighlightStyle::Timestamp);
    assert(rules_view(rules@) == compiled_rules(srcs, 7));
    rules
}

/// Spans key order: by start, and at one start the higher priority first.
pub open spec fn span_before(a: Span, b: Span) -> bool {
    a.start < b.start || (a.start == b.start && a.priority >= b.priority)
}

pub open spec fn spans_sorted(s: Seq<Span>) -> bool {
    forall|i: int, j: int| 0 <= i < j < s.len() ==> span_before(s[i], s[j])
}

proof fn lemma_insert_span_sorted(r: Seq<Span>, pos: int, x: Span)
    requires
        0 <= pos <= r.len(),
        spans_sorted(r),
        pos > 0 ==> span_before(r[pos - 1], x),
        forall|i: int| pos <= i < r.len() ==> !span_before(r[i], x),
    ensures
        spans_sorted(r.insert(pos, x)),
{
    let s = r.insert(pos, x);
    assert forall|i: int, j: int| 0 <= i < j < s.len() implies span_before(s[i], s[j]) by {
        if j < pos {
        } else if j == pos {
            if i < pos {
                assert(span_before(r[i], r[pos - 1]));
            }
        } else if i < pos {
            assert(span_before(r[i], r[j - 1]));
        } else if i == pos {
            assert(!span_before(r[j - 1], x));
        } else {
            assert(span_before(r[i - 1], r[j - 1]));
        }
    }
}

/// The spans stably sorted by start, higher priority first at one start.
fn sort_spans(v: Vec<Span>) -> (r: Vec<Span>)
    ensures
        spans_sorted(r@),
        r@.to_multiset() == v@.to_multiset(),
{
    broadcast use vstd::seq_lib::group_to_multiset_ensures;

    let mut r: Vec<Span> = Vec::new();
    let mut k: usize = 0;
    while k < v.len()
        invariant
            k <= v@.len(),
            spans_sorted(r@),
            r@.to_multiset() == v@.subrange(0, k as int).to_multiset(),
        decreases v@.len() - k,
    {
        let x = v[k];
        let mut pos = r.len();
        while pos > 0 && !(r[pos - 1].start < x.start || (r[pos - 1].start == x.start && r[pos - 1].priority >= x.priority))
            invariant
                pos <= r@.len(),
                spans_sorted(r@),
                forall|i: int| pos <= i < r@.len() ==> !span_before(r@[i], x),
            decreases pos,
        {
            pos = pos - 1;
        }
        proof {
            lemma_insert_span_sorted(r@, pos as int, x);
            vstd::seq_lib::to_multiset_insert(r@, pos as int, x);
            vstd::seq_lib::to_multiset_build(v@.subrange(0, k as int), x);
            assert(v@.subrange(0, k + 1) =~= v@.subrange(0, k as int).push(x));
        }
        r.insert(pos, x);
        k = k + 1;
    }
    assert(v@.subrange(0, v@.len() as int) =~= v@);
    r
}

/// Adds a span of `style` and `priority` for each range.
fn push_spans(out: &mut Vec<Span>, ranges: &Vec<(usize, usize)>, style: HighlightStyle, priority: u8, text: &str)
    requires
        spans_fit(old(out)@, text@),
        forall|i: int| 0 <= i < ranges@.len() ==> is_byte_range_of(text@, #[trigger] ranges@[i].0 as int, ranges@[i].1 as int),
    ensures
        spans_fit(final(out)@, text@),
        final(out)@.len() == old(out)@.len() + ranges@.len(),
        forall|i: int| 0 <= i < old(out)@.len() ==> final(out)@[i] == old(out)@[i],
        forall|i: int| old(out)@.len() <= i < final(out)@.len() ==> (#[trigger] final(out)@[i]).style == style
            && final(out)@[i].priority == priority,
        final(out)@ == old(out)@ + range_spans(ranges@, style, priority),
{
    let ghost before = out@;
    let mut i: usize = 0;
    while i < ranges.len()
        invariant
            i <= ranges@.len(),
            out@.len() == before.len() + i,
            spans_fit(out@, text@),
            forall|j: int| 0 <= j < ranges@.len() ==> is_byte_range_of(text@, #[trigger] ranges@[j].0 as int, ranges@[j].1 as int),
            forall|j: int| 0 <= j < before.len() ==> out@[j] == before[j],
            forall|j: int| before.len() <= j < out@.len() ==> (#[trigger] out@[j]).style == style && out@[j].priority == priority,
            forall|j: int| 0 <= j < i ==> #[trigger] out@[before.len() + j] == (Span {
                start: ranges@[j].0,
                end: ranges@[j].1,
                style,
                priority,
            }),
        decreases ranges@.len() - i,
    {
        let (a, e) = ranges[i];
        out.push(Span { start: a, end: e, style, priority });
        proof {
            assert(is_byte_range_of(text@, ranges@[i as int].0 as int, ranges@[i as int].1 as int));
        }
        i = i + 1;
    }
    assert(out@ =~= before + range_spans(ranges@, style, priority)) by {
        assert forall|k: int| before.len() <= k < out@.len() implies out@[k] == (before + range_spans(ranges@, style, priority))[k] by {
            let j = k - before.len();
            assert(out@[before.len() + j] == (Span { start: ranges@[j].0, end: ranges@[j].1, style, priority }));
        }
    }
}

/// A span of `style` and `priority` for each range.
pub open spec fn range_spans(ms: Seq<(usize, usize)>, style: HighlightStyle, priority: u8) -> Seq<Span> {
    Seq::new(ms.len(), |i: int| Span { start: ms[i].0, end: ms[i].1, style, priority })
}

/// The spans of the heuristic rules' matches, rule by rule.
pub open spec fn heuristic_spans(rv: Seq<(Seq<char>, HighlightStyle)>, text: Seq<char>) -> Seq<Span>
    decreases rv.len(),
{
    if rv.len() == 0 {
        Seq::empty()
    } else {
        heuristic_spans(rv.drop_last(), text) + range_spans(
            crate::pattern::regex_find_all(rv.last().0, text),
            rv.last().1,
            HEURISTIC_PRIORITY,
        )
    }
}

/// Adds the spans of every rule's matches, rule by rule.
fn push_heuristic_spans(rules: &Vec<HighlightRule>, text: &str, spans: &mut Vec<Span>)
    requires
        spans_fit(old(spans)@, text@),
    ensures
        spans_fit(final(spans)@, text@),
        final(spans)@ == old(spans)@ + heuristic_spans(rules_view(rules@), text@),
        forall|i: int| old(spans)@.len() <= i < final(spans)@.len() ==> (#[trigger] final(spans)@[i]).priority == HEURISTIC_PRIORITY,
{
    let ghost start = spans@;
    let mut k: usize = 0;
    assert(heuristic_spans(rules_view(rules@.subrange(0, 0)), text@) =~= Seq::<Span>::empty());
    assert(start + Seq::<Span>::empty() =~= start);
    while k < rules.len()
        invariant
            k <= rules@.len(),
            spans@ == start + heuristic_spans(rules_view(rules@.subrange(0, k as int)), text@),
            spans_fit(spans@, text@),
            spans@.len() >= start.len(),
            forall|i: int| start.len() <= i < spans@.len() ==> (#[trigger] spans@[i]).priority == HEURISTIC_PRIORITY,
        decreases rules@.len() - k,
    {
        let ms = find_all(&rules[k].regex, text);
        let ghost before = spans@;
        push_spans(spans, &ms, rules[k].style, HEURISTIC_PRIORITY, text);
        proof {
            assert forall|i: int| start.len() <= i < spans@.len() implies (#[trigger] spans@[i]).priority == HEURISTIC_PRIORITY by {
                if i < before.len() {
                    assert(spans@[i] == before[i]);
                }
            }
            let rv = rules_view(rules@.subrange(0, k + 1));
            assert(rv.drop_last() =~= rules_view(rules@.subrange(0, k as int)));
            assert(rv.last() == (rules@[k as int].regex@, rules@[k as int].style));
            assert(spans@ =~= start + heuristic_spans(rv, text@));
        }
        k = k + 1;
    }
    assert(rules@.subrange(0, rules@.len() as int) =~= rules@);
}

/// The meaning of an optional expression.
pub open spec fn query_opt(f: Option<&FilterExpr>) -> Option<crate::filter::Query> {
    match f {
        Some(e) => Some(e@),
        None => None,
    }
}

/// The spans of the highlight expression's merged matches.
pub open spec fn custom_spans_of(c: Seq<Span>, f: Option<crate::filter::Query>, text: Seq<char>) -> bool {
    match f {
        None => c.len() == 0,
        Some(q) => exists|ms: Seq<(usize, usize)>|
            crate::filter::is_merge_of(ms, crate::filter::leaf_matches(q, text)) && c == #[trigger] range_spans(
                ms,
                HighlightStyle::Custom,
                CUSTOM_PRIORITY,
            ),
    }
}

/// The spans of `text`: matches of the highlight expression at priority
/// 100 and, when enabled, embedded JSON at priority 50 and the heuristic
/// rules' matches at priority 10,
/// sorted by start with the higher priority first.
pub fn highlight_line_with(
    rules: &Vec<HighlightRule>,
    text: &str,
    custom_filter: Option<&FilterExpr>,
    heuristic_enabled: bool,
    json_enabled: bool,
) -> (r: Vec<Span>)
    ensures
        line_spans(r@, text@, query_opt(custom_filter), rules_view(rules@), heuristic_enabled, json_enabled),
{
    let mut spans: Vec<Span> = Vec::new();
    let ghost fq = query_opt(custom_filter);
    match custom_filter {
        Some(f) => {
            let ms = f.find_all_matches(text);
            push_spans(&mut spans, &ms, HighlightStyle::Custom, CUSTOM_PRIORITY, text);
            assert(spans@ =~= range_spans(ms@, HighlightStyle::Custom, CUSTOM_PRIORITY));
        },
        None => {},
    }
    let ghost c = spans@;
    assert(custom_spans_of(c, fq, text@));
    if json_enabled {
        let ghost before = spans@;
        highlight_json(text, &mut spans);
        assert forall|i: int| 0 <= i < spans@.len() implies ((#[trigger] spans@[i]).priority == CUSTOM_PRIORITY
            || spans@[i].priority == HEURISTIC_PRIORITY || spans@[i].priority == JSON_PRIORITY) && (spans@[i].priority
            == CUSTOM_PRIORITY ==> spans@[i].style == HighlightStyle::Custom) by {
            if i < before.len() {
                assert(spans@[i] == before[i]);
            }
        }
    }
    let ghost j = spans@.subrange(c.len() as int, spans@.len() as int);
    proof {
        if !json_enabled {
            assert(j.len() == 0);
        } else {
            assert(j =~= json_scan(text.spec_bytes(), 0));
        }
        if json_enabled {
            assert forall|i: int| 0 <= i < j.len() implies (#[trigger] j[i]).priority == JSON_PRIORITY && is_json_style(j[i].style) by {
                assert(j[i] == spans@[c.len() + i]);
            }
        }
        assert(spans@ =~= c + j);
    }
    if heuristic_enabled {
        let ghost before = spans@;
        push_heuristic_spans(rules, text, &mut spans);
        assert forall|i: int| 0 <= i < spans@.len() implies ((#[trigger] spans@[i]).priority == CUSTOM_PRIORITY
            || spans@[i].priority == HEURISTIC_PRIORITY || spans@[i].priority == JSON_PRIORITY) && (spans@[i].priority
            == CUSTOM_PRIORITY ==> spans@[i].style == HighlightStyle::Custom) by {
            if i < before.len() {
                assert(spans@[i] == before[i]);
            }
        }
    }
    proof {
        if !heuristic_enabled {
            assert(spans@ =~= c + j + Seq::<Span>::empty());
        }
    }
    let ghost unsorted = spans@;
    let r = sort_spans(spans);
    proof {
        broadcast use vstd::seq_lib::to_multiset_contains;
        assert forall|i: int| 0 <= i < r@.len() implies unsorted.contains(#[trigger] r@[i]) by {
            assert(r@.to_multiset().count(r@[i]) > 0);
        }
        assert forall|i: int| 0 <= i < r@.len() implies is_byte_range_of(text@, #[trigger] r@[i].start as int, r@[i].end as int) by {
            assert(unsorted.contains(r@[i]));
        }
        assert forall|i: int| 0 <= i < r@.len() implies (#[trigger] r@[i]).priority == CUSTOM_PRIORITY || r@[i].priority == HEURISTIC_PRIORITY
            || r@[i].priority == JSON_PRIORITY by {
            assert(unsorted.contains(r@[i]));
        }
        assert forall|i: int| 0 <= i < r@.len() && (#[trigger] r@[i]).priority == CUSTOM_PRIORITY implies r@[i].style == HighlightStyle::Custom by {
            assert(unsorted.contains(r@[i]));
        }
    }
    proof {
        let hs = if heuristic_enabled { heuristic_spans(rules_view(rules@), text@) } else { Seq::<Span>::empty() };
        assert(unsorted == c + j + hs);
        assert(custom_spans_of(c, query_opt(custom_filter), text@));
        assert(json_tail(j, 0));
        assert(json_enabled ==> j == json_scan(text.spec_bytes(), 0));
        assert(r@.to_multiset() == (c + j + hs).to_multiset());
        reveal(line_spans);
        assert(json_enabled ==> j == json_scan(vstd::utf8::encode_utf8(text@), 0));
    }
    r
}

/// The spans of `text`, compiling the heuristic rules first.
pub fn highlight_line(text: &str, custom_filter: Option<&FilterExpr>, heuristic_enabled: bool, json_enabled: bool) -> (r: Vec<Span>)
    ensures
        line_spans(r@, text@, query_opt(custom_filter), compiled_rules(rule_sources(), 7), heuristic_enabled, json_enabled),
{
    let rules = heuristic_rules();
    highlight_line_with(&rules, text, custom_filter, heuristic_enabled, json_enabled)
}

/// The styled segments of display content: spans from the highlight
/// expression, embedded JSON and the heuristic rules, resolved by priority.
/// Joined in order, the segments give the content back.
pub fn highlight_content(content: &str, highlight_expr: &Option<FilterExpr>) -> (r: Vec<(String, HighlightStyle)>)
    ensures
        segments_bytes(r@) == content.spec_bytes(),
        exists|sp: Seq<Span>|
            #![trigger segments_of(r@, sp, content@)]
            segments_of(r@, sp, content@) && line_spans(
                sp,
                content@,
                expr_query(*highlight_expr),
                compiled_rules(rule_sources(), 7),
                true,
                true,
            ),
{
    let f: Option<&FilterExpr> = match highlight_expr {
        Some(e) => Some(e),
        None => None,
    };
    assert(query_opt(f) == expr_query(*highlight_expr));
    let spans = highlight_line(content, f, true, true);
    proof {
        reveal(line_spans);
    }
    let r = apply_highlights(content, &spans);
    assert(segments_of(r@, spans@, content@));
    r
}

/// How many bytes serde_json's streaming deserializer takes for the first
/// JSON value at the start of a text, when it decodes one.
pub uninterp spec fn json_value_len(text: Seq<char>) -> Option<usize>;

/// Relies on `serde_json::Deserializer::into_iter` and `byte_offset`: after
/// the first value decodes, the offset is past it, within the text.
#[verifier::external_body]
fn json_prefix_len(text: &str) -> (r: Option<usize>)
    ensures
        r == json_value_len(text@),
        r matches Some(e) ==> e <= text.spec_bytes().len(),
{
    let mut stream = serde_json::Deserializer::from_str(text).into_iter::<serde_json::Value>();
    match stream.next() {
        Some(Ok(_)) => Some(stream.byte_offset()),
        _ => None,
    }
}

pub open spec fn is_json_style(s: HighlightStyle) -> bool {
    s == HighlightStyle::JsonKey || s == HighlightStyle::JsonString || s == HighlightStyle::JsonNumber
        || s == HighlightStyle::JsonBool || s == HighlightStyle::JsonNull
}

/// Every span after the first `from` is a JSON span.
pub open spec fn json_tail(spans: Seq<Span>, from: int) -> bool {
    forall|i: int| from <= i < spans.len() ==> (#[trigger] spans[i]).priority == JSON_PRIORITY && is_json_style(spans[i].style)
}

/// Where the string whose body starts at `j` closes (the index of its
/// closing quote), or `to` when it does not close before `to`; a backslash
/// escapes the next byte.
pub open spec fn string_close(b: Seq<u8>, j: int, to: int) -> int
    decreases to - j,
{
    if j < 0 || j >= to {
        to
    } else if b[j] == 34 {
        j
    } else if b[j] == 92 {
        if j + 1 < to {
            string_close(b, j + 2, to)
        } else {
            to
        }
    } else {
        string_close(b, j + 1, to)
    }
}

pub open spec fn json_space(c: u8) -> bool {
    c == 32 || c == 9 || c == 10 || c == 13
}

pub open spec fn number_byte(c: u8) -> bool {
    (48 <= c <= 57) || c == 46 || c == 101 || c == 69 || c == 43 || c == 45
}

/// The first index from `k` on that is not JSON white space, or `to`.
pub open spec fn skip_space(b: Seq<u8>, k: int, to: int) -> int
    decreases to - k,
{
    if k < 0 || k >= to || !json_space(b[k]) {
        k
    } else {
        skip_space(b, k + 1, to)
    }
}

/// The end of the run of number bytes from `j`.
pub open spec fn number_end(b: Seq<u8>, j: int, to: int) -> int
    decreases to - j,
{
    if j < 0 || j >= to || !number_byte(b[j]) {
        j
    } else {
        number_end(b, j + 1, to)
    }
}

/// The end of the run of lower-case letters from `j`.
pub open spec fn word_end(b: Seq<u8>, j: int, to: int) -> int
    decreases to - j,
{
    if j < 0 || j >= to || !(97 <= b[j] <= 122) {
        j
    } else {
        word_end(b, j + 1, to)
    }
}

/// A JSON span for `a..e` when it is non-empty and on char boundaries.
pub open spec fn json_span(b: Seq<u8>, a: int, e: int, style: HighlightStyle) -> Seq<Span> {
    if a < e <= b.len() && is_char_boundary(b, a) && is_char_boundary(b, e) {
        seq![Span { start: a as usize, end: e as usize, style, priority: JSON_PRIORITY }]
    } else {
        Seq::empty()
    }
}

/// The spans of the JSON tokens in bytes `i..to`: strings (keys when a
/// colon follows), numbers, `true`/`false` and `null`.
pub open spec fn json_token_spans(b: Seq<u8>, i: int, to: int) -> Seq<Span>
    decreases to - i,
{
    if i < 0 || i >= to {
        Seq::empty()
    } else {
        let c = b[i];
        if c == 34 {
            let j = string_close(b, i + 1, to);
            if j >= to || j <= i {
                Seq::empty()
            } else {
                let k = skip_space(b, j + 1, to);
                let style = if k < to && b[k] == 58 {
                    HighlightStyle::JsonKey
                } else {
                    HighlightStyle::JsonString
                };
                json_span(b, i, j + 1, style) + json_token_spans(b, j + 1, to)
            }
        } else if c == 45 || (48 <= c <= 57) {
            let j = number_end(b, i + 1, to);
            if i < j <= to {
                json_span(b, i, j, HighlightStyle::JsonNumber) + json_token_spans(b, j, to)
            } else {
                Seq::empty()
            }
        } else if c == 116 || c == 102 || c == 110 {
            let j = word_end(b, i + 1, to);
            if i < j <= to {
                json_span(b, i, j, if c == 110 { HighlightStyle::JsonNull } else { HighlightStyle::JsonBool })
                    + json_token_spans(b, j, to)
            } else {
                Seq::empty()
            }
        } else {
            json_token_spans(b, i + 1, to)
        }
    }
}

/// The JSON spans of `b` from `pos` on: at each `{` or `[` where the
/// decoder takes a value of more than one byte, that value's tokens, then
/// on after it; elsewhere one byte on.
pub open spec fn json_scan(b: Seq<u8>, pos: int) -> Seq<Span>
    decreases b.len() - pos,
{
    if pos < 0 || pos >= b.len() {
        Seq::empty()
    } else {
        let c = b[pos];
        let e = if (c == 123 || c == 91) && is_char_boundary(b, pos) {
            match json_value_len(vstd::utf8::decode_utf8(b.subrange(pos, b.len() as int))) {
                Some(e) => e as int,
                None => 0,
            }
        } else {
            0
        };
        if e > 1 && pos + e <= b.len() {
            json_token_spans(b, pos, pos + e) + json_scan(b, pos + e)
        } else {
            json_scan(b, pos + 1)
        }
    }
}

/// Adds a JSON span for `a..b` when it is a non-empty range on char
/// boundaries.
fn push_json_span(text: &str, a: usize, b: usize, style: HighlightStyle, out: &mut Vec<Span>)
    requires
        spans_fit(old(out)@, text@),
        is_json_style(style),
    ensures
        spans_fit(final(out)@, text@),
        final(out)@.len() >= old(out)@.len(),
        forall|i: int| 0 <= i < old(out)@.len() ==> final(out)@[i] == old(out)@[i],
        json_tail(final(out)@, old(out)@.len() as int),
        final(out)@ == old(out)@ + json_span(text.spec_bytes(), a as int, b as int, style),
{
    let n = text.as_bytes().len();
    if a < b && b <= n && text.is_char_boundary(a) && text.is_char_boundary(b) {
        out.push(Span { start: a, end: b, style, priority: JSON_PRIORITY });
    } else {
        assert(out@ =~= out@ + json_span(text.spec_bytes(), a as int, b as int, style));
    }
}

fn is_digit(c: u8) -> (r: bool)
    ensures
        r == (48 <= c <= 57),
{
    48 <= c && c <= 57
}

fn is_number_byte(c: u8) -> (r: bool)
    ensures
        r == number_byte(c),
{
    is_digit(c) || c == 46 || c == 101 || c == 69 || c == 43 || c == 45
}

fn is_json_space(c: u8) -> (r: bool)
    ensures
        r == json_space(c),
{
    c == 32 || c == 9 || c == 10 || c == 13
}

/// Colors the tokens of the JSON value in bytes `from..to`: keys, strings,
/// numbers, booleans and nulls.
fn color_json_tokens(text: &str, from: usize, to: usize, out: &mut Vec<Span>)
    requires
        spans_fit(old(out)@, text@),
        to <= text.spec_bytes().len(),
    ensures
        spans_fit(final(out)@, text@),
        final(out)@.len() >= old(out)@.len(),
        forall|i: int| 0 <= i < old(out)@.len() ==> final(out)@[i] == old(out)@[i],
        json_tail(final(out)@, old(out)@.len() as int),
        final(out)@ == old(out)@ + json_token_spans(text.spec_bytes(), from as int, to as int),
{
    let bytes = text.as_bytes();
    let ghost b = text.spec_bytes();
    let ghost start_len = out@.len();
    let ghost first = out@;
    let mut i = from;
    assert(first + json_token_spans(b, from as int, to as int) == out@ + json_token_spans(b, i as int, to as int));
    while i < to
        invariant
            bytes@ == b,
            b == text.spec_bytes(),
            to <= bytes@.len(),
            spans_fit(out@, text@),
            out@.len() >= start_len,
            start_len == first.len(),
            forall|k: int| 0 <= k < start_len ==> out@[k] == first[k],
            json_tail(out@, start_len as int),
            first + json_token_spans(b, from as int, to as int) == out@ + json_token_spans(b, i as int, to as int),
        decreases to - i,
    {
        let c = bytes[i];
        let ghost before = out@;
        let ghost i0 = i as int;
        if c == 34 {
            let mut j = i + 1;
            while j < to && bytes[j] != 34
                invariant
                    i < j <= to,
                    to <= bytes@.len(),
                    bytes@ == b,
                    string_close(b, i + 1, to as int) == string_close(b, j as int, to as int),
                decreases to - j,
            {
                if bytes[j] == 92 {
                    j = if j + 1 < to { j + 2 } else { to };
                } else {
                    j = j + 1;
                }
            }
            if j >= to {
                i = to;
                proof {
                    assert(json_token_spans(b, i0, to as int) =~= Seq::<Span>::empty());
                    assert(out@ + Seq::<Span>::empty() =~= out@);
                }
            } else {
                let end = j + 1;
                let mut k = end;
                while k < to && is_json_space(bytes[k])
                    invariant
                        end <= k <= to,
                        to <= bytes@.len(),
                        bytes@ == b,
                        skip_space(b, end as int, to as int) == skip_space(b, k as int, to as int),
                    decreases to - k,
                {
                    k = k + 1;
                }
                let style = if k < to && bytes[k] == 58 {
                    HighlightStyle::JsonKey
                } else {
                    HighlightStyle::JsonString
                };
                push_json_span(text, i, end, style, out);
                i = end;
                proof {
                    assert(before + (json_span(b, i0, end as int, style) + json_token_spans(b, end as int, to as int))
                        =~= out@ + json_token_spans(b, end as int, to as int));
                }
            }
        } else if c == 45 || is_digit(c) {
            let mut j = i + 1;
            while j < to && is_number_byte(bytes[j])
                invariant
                    i < j <= to,
                    to <= bytes@.len(),
                    bytes@ == b,
                    number_end(b, i + 1, to as int) == number_end(b, j as int, to as int),
                decreases to - j,
            {
                j = j + 1;
            }
            push_json_span(text, i, j, HighlightStyle::JsonNumber, out);
            i = j;
            proof {
                assert(before + (json_span(b, i0, j as int, HighlightStyle::JsonNumber) + json_token_spans(b, j as int, to as int))
                    =~= out@ + json_token_spans(b, j as int, to as int));
            }
        } else if c == 116 || c == 102 || c == 110 {
            let mut j = i + 1;
            while j < to && 97 <= bytes[j] && bytes[j] <= 122
                invariant
                    i < j <= to,
                    to <= bytes@.len(),
                    bytes@ == b,
                    word_end(b, i + 1, to as int) == word_end(b, j as int, to as int),
                decreases to - j,
            {
                j = j + 1;
            }
            let style = if c == 110 {
                HighlightStyle::JsonNull
            } else {
                HighlightStyle::JsonBool
            };
            push_json_span(text, i, j, style, out);
            i = j;
            proof {
                assert(before + (json_span(b, i0, j as int, style) + json_token_spans(b, j as int, to as int))
                    =~= out@ + json_token_spans(b, j as int, to as int));
            }
        } else {
            i = i + 1;
        }
        assert forall|k: int| 0 <= k < start_len implies out@[k] == first[k] by {
            assert(before[k] == first[k]);
        }
        assert(json_tail(out@, start_len as int)) by {
            assert forall|k: int| start_len <= k < out@.len() implies (#[trigger] out@[k]).priority == JSON_PRIORITY
                && is_json_style(out@[k].style) by {
                if k < before.len() {
                    assert(out@[k] == before[k]);
                }
            }
        }
    }
    assert(out@ + json_token_spans(b, i as int, to as int) =~= out@);
}

/// Spans for JSON embedded in `text`: from each `{` or `[` where a JSON
/// value decodes, its tokens are colored and the scan goes on after it;
/// elsewhere it moves one byte.
pub fn highlight_json(text: &str, out: &mut Vec<Span>)
    requires
        spans_fit(old(out)@, text@),
    ensures
        spans_fit(final(out)@, text@),
        final(out)@.len() >= old(out)@.len(),
        forall|i: int| 0 <= i < old(out)@.len() ==> final(out)@[i] == old(out)@[i],
        json_tail(final(out)@, old(out)@.len() as int),
        final(out)@ == old(out)@ + json_scan(text.spec_bytes(), 0),
{
    let bytes = text.as_bytes();
    let n = bytes.len();
    let ghost b = text.spec_bytes();
    let ghost start_len = out@.len();
    let ghost first = out@;
    let mut pos: usize = 0;
    while pos < n
        invariant
            first + json_scan(b, 0) == out@ + json_scan(b, pos as int),
            b == text.spec_bytes(),
            bytes@ == text.spec_bytes(),
            n == bytes@.len(),
            spans_fit(out@, text@),
            out@.len() >= start_len,
            start_len == first.len(),
            forall|k: int| 0 <= k < start_len ==> out@[k] == first[k],
            json_tail(out@, start_len as int),
        decreases n - pos,
    {
        let c = bytes[pos];
        let mut next = pos + 1;
        let ghost before_all = out@;
        if (c == 123 || c == 91) && text.is_char_boundary(pos) {
            let rest = byte_slice(text, pos, n);
            proof {
                assert(rest@ == vstd::utf8::decode_utf8(b.subrange(pos as int, n as int)));
            }
            match json_prefix_len(rest) {
                Some(e) => {
                    if e > 1 {
                        let ghost before = out@;
                        color_json_tokens(text, pos, pos + e, out);
                        next = pos + e;
                        proof {
                            assert(before + (json_token_spans(b, pos as int, pos + e) + json_scan(b, pos + e)) =~= out@
                                + json_scan(b, pos + e));
                        }
                        assert forall|k: int| 0 <= k < start_len implies out@[k] == first[k] by {
                            assert(before[k] == first[k]);
                        }
                        assert(json_tail(out@, start_len as int)) by {
                            assert forall|k: int| start_len <= k < out@.len() implies (#[trigger] out@[k]).priority
                                == JSON_PRIORITY && is_json_style(out@[k].style) by {
                                if k < before.len() {
                                    assert(out@[k] == before[k]);
                                }
                            }
                        }
                    }
                },
                None => {},
            }
        }
        pos = next;
    }
}

} // verus!
