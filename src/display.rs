//! Hiding: the display content of a line is its raw content with the parts
//! that the hide regex marks spliced out.
use vstd::prelude::*;
use vstd::string::{StringSliceAdditionalSpecFns, StringExecFns};
use vstd::utf8::{encode_utf8, decode_utf8, is_char_boundary};
use crate::pattern::{FancyPattern, fancy_capture_at, fancy_captures, is_byte_range_of};
use crate::text::byte_slice;

verus! {

broadcast use vstd::utf8::encode_utf8_valid_utf8, vstd::utf8::encode_utf8_decode_utf8,
    vstd::utf8::is_char_boundary_start_end_of_seq;

/// The first char boundary of `b` at or after `i`.
pub open spec fn next_boundary(b: Seq<u8>, i: int) -> int
    decreases b.len() - i,
{
    if i < 0 || i >= b.len() || is_char_boundary(b, i) {
        i
    } else {
        next_boundary(b, i + 1)
    }
}

/// The ranges that one match marks, counted from `start`: every group that
/// took part when the regex has groups, else the whole match.
pub open spec fn match_marks(g: Seq<Option<(usize, usize)>>, start: int) -> Seq<(usize, usize)> {
    if g.len() > 1 {
        group_marks(g, start, 1)
    } else {
        whole_mark(g, start)
    }
}

pub open spec fn whole_mark(g: Seq<Option<(usize, usize)>>, start: int) -> Seq<(usize, usize)> {
    match g[0] {
        Some(m) => seq![((start + m.0) as usize, (start + m.1) as usize)],
        None => Seq::empty(),
    }
}

pub open spec fn group_marks(g: Seq<Option<(usize, usize)>>, start: int, i: int) -> Seq<(usize, usize)>
    decreases g.len() - i,
{
    if i < 0 || i >= g.len() {
        Seq::empty()
    } else {
        match g[i] {
            Some(m) => seq![((start + m.0) as usize, (start + m.1) as usize)] + group_marks(g, start, i + 1),
            None => group_marks(g, start, i + 1),
        }
    }
}

/// Where the search goes on after a match that ends `end` bytes after
/// `start`: right after it, or at the next char boundary when it is empty at
/// `start`.
pub open spec fn next_search(b: Seq<u8>, start: int, end: int) -> int {
    if end == 0 {
        next_boundary(b, start + 1)
    } else {
        start + end
    }
}

/// The byte ranges that the hide regex `p` marks in `t`, searching
/// left to right from byte `start`; or the regex's error.
pub open spec fn hide_marks(p: Seq<char>, t: Seq<char>, start: int) -> Result<Seq<(usize, usize)>, Seq<char>>
    decreases encode_utf8(t).len() - start,
{
    let b = encode_utf8(t);
    if start < 0 || start >= b.len() {
        Ok(Seq::empty())
    } else {
        match fancy_captures(p, t, start) {
            Err(e) => Err(e),
            Ok(None) => Ok(Seq::empty()),
            Ok(Some(g)) => {
                let end = match g[0] {
                    Some(m) => m.1 as int,
                    None => 0,
                };
                let next = next_search(b, start, end);
                if next <= start || next > b.len() {
                    Ok(match_marks(g, start))
                } else {
                    match hide_marks(p, t, next) {
                        Ok(rest) => Ok(match_marks(g, start) + rest),
                        Err(e) => Err(e),
                    }
                }
            },
        }
    }
}

/// Whether byte `x` lies in one of the marked ranges.
pub open spec fn marked(ms: Seq<(usize, usize)>, x: int) -> bool {
    exists|i: int| 0 <= i < ms.len() && (#[trigger] ms[i]).0 <= x < ms[i].1
}

/// The bytes of `b[0..n]` that no range of `ms` marks, in order.
pub open spec fn kept(b: Seq<u8>, ms: Seq<(usize, usize)>, n: int) -> Seq<u8>
    decreases n,
{
    if n <= 0 {
        Seq::empty()
    } else if marked(ms, n - 1) {
        kept(b, ms, n - 1)
    } else {
        kept(b, ms, n - 1).push(b[n - 1])
    }
}

/// The display content of `t` under the hide regex `p`: the bytes it marks
/// spliced out; or the regex's error.
pub open spec fn hide_spec(p: Seq<char>, t: Seq<char>) -> Result<Seq<char>, Seq<char>> {
    match hide_marks(p, t, 0) {
        Ok(ms) => Ok(decode_utf8(kept(encode_utf8(t), ms, encode_utf8(t).len() as int))),
        Err(e) => Err(e),
    }
}

/// `encode_utf8` of a concatenation.
pub proof fn lemma_encode_concat(a: Seq<char>, b: Seq<char>)
    ensures
        encode_utf8(a + b) == encode_utf8(a) + encode_utf8(b),
    decreases a.len(),
{
    if a.len() == 0 {
        assert(a + b =~= b);
        assert(encode_utf8(a) + encode_utf8(b) =~= encode_utf8(b));
    } else {
        lemma_encode_concat(a.drop_first(), b);
        assert((a + b).drop_first() =~= a.drop_first() + b);
        assert(encode_utf8(a + b) =~= encode_utf8(a) + encode_utf8(b));
    }
}

proof fn lemma_kept_run(b: Seq<u8>, ms: Seq<(usize, usize)>, a: int, i: int)
    requires
        0 <= a <= i <= b.len(),
        forall|x: int| a <= x < i ==> !marked(ms, x),
    ensures
        kept(b, ms, i) == kept(b, ms, a) + b.subrange(a, i),
    decreases i - a,
{
    if i > a {
        lemma_kept_run(b, ms, a, i - 1);
        assert(kept(b, ms, a) + b.subrange(a, i) =~= (kept(b, ms, a) + b.subrange(a, i - 1)).push(b[i - 1]));
    } else {
        assert(kept(b, ms, a) + b.subrange(a, i) =~= kept(b, ms, a));
    }
}

/// What `hide_marks` adds for one match.
fn push_marks(g: &Vec<Option<(usize, usize)>>, start: usize, n: usize, out: &mut Vec<(usize, usize)>)
    requires
        g@.len() >= 1,
        forall|i: int|
            0 <= i < g@.len() && #[trigger] g@[i] is Some ==> start + (g@[i]->0).0 <= start + (g@[i]->0).1 <= n,
    ensures
        final(out)@ == old(out)@ + match_marks(g@, start as int),
{
    if g.len() > 1 {
        let mut i: usize = 1;
        let ghost before = out@;
        while i < g.len()
            invariant
                1 <= i <= g@.len(),
                forall|k: int|
                    0 <= k < g@.len() && #[trigger] g@[k] is Some ==> start + (g@[k]->0).0 <= start + (g@[k]->0).1 <= n,
                before + match_marks(g@, start as int) == out@ + group_marks(g@, start as int, i as int),
            decreases g@.len() - i,
        {
            let ghost o = out@;
            match g[i] {
                Some(m) => {
                    assert(g@[i as int] is Some);
                    out.push((start + m.0, start + m.1));
                    assert(o + group_marks(g@, start as int, i as int) =~= out@ + group_marks(g@, start as int, i + 1));
                },
                None => {},
            }
            i = i + 1;
        }
        assert(out@ + group_marks(g@, start as int, i as int) =~= out@);
    } else {
        match g[0] {
            Some(m) => {
                assert(g@[0] is Some);
                out.push((start + m.0, start + m.1));
            },
            None => {},
        }
    }
}

/// The ranges that the hide regex marks in `content`, or its error.
fn collect_marks(p: &FancyPattern, content: &str) -> (r: Result<Vec<(usize, usize)>, String>)
    ensures
        match r {
            Ok(ms) => hide_marks(p@, content@, 0) == Ok::<_, Seq<char>>(ms@),
            Err(e) => hide_marks(p@, content@, 0) == Err::<Seq<(usize, usize)>, _>(e@),
        },
        r matches Ok(ms) ==> forall|i: int| 0 <= i < ms@.len() ==> #[trigger] ms@[i].0 <= ms@[i].1 <= content.spec_bytes().len()
            && is_char_boundary(content.spec_bytes(), ms@[i].0 as int)
            && is_char_boundary(content.spec_bytes(), ms@[i].1 as int),
{
    let ghost b = content.spec_bytes();
    let n = content.as_bytes().len();
    let mut ms: Vec<(usize, usize)> = Vec::new();
    let mut start: usize = 0;
    while start < n
        invariant
            n == b.len(),
            b == content.spec_bytes(),
            b == encode_utf8(content@),
            start <= n,
            is_char_boundary(b, start as int),
            hide_marks(p@, content@, 0) == match hide_marks(p@, content@, start as int) {
                Ok(rest) => Ok(ms@ + rest),
                Err(e) => Err(e),
            },
            forall|i: int| 0 <= i < ms@.len() ==> #[trigger] ms@[i].0 <= ms@[i].1 <= n
                && is_char_boundary(b, ms@[i].0 as int) && is_char_boundary(b, ms@[i].1 as int),
        decreases n - start,
    {
        match fancy_capture_at(p, content, start) {
            Err(e) => {
                return Err(e);
            },
            Ok(None) => {
                assert(ms@ + Seq::<(usize, usize)>::empty() =~= ms@);
                return Ok(ms);
            },
            Ok(Some(g)) => {
                let ghost before = ms@;
                assert(g@[0] is Some);
                let end = match g[0] {
                    Some(m) => m.1,
                    None => 0,
                };
                assert forall|i: int| 0 <= i < g@.len() && #[trigger] g@[i] is Some implies start + (g@[i]->0).0 <= start + (g@[i]->0).1 <= n by {
                    assert(is_byte_range_of(content@, start + (g@[i]->0).0, start + (g@[i]->0).1));
                }
                push_marks(&g, start, n, &mut ms);
                proof {
                    let mm = match_marks(g@, start as int);
                    assert forall|i: int| 0 <= i < ms@.len() implies #[trigger] ms@[i].0 <= ms@[i].1 <= n
                        && is_char_boundary(b, ms@[i].0 as int) && is_char_boundary(b, ms@[i].1 as int) by {
                        if i >= before.len() {
                            lemma_marks_in_range(g@, start as int, content@, i - before.len());
                        }
                    }
                }
                let next = if end == 0 {
                    let mut k = start + 1;
                    while k < n && !content.is_char_boundary(k)
                        invariant
                            start < k <= n,
                            n == b.len(),
                            b == content.spec_bytes(),
                            next_boundary(b, start + 1) == next_boundary(b, k as int),
                        decreases n - k,
                    {
                        k = k + 1;
                    }
                    k
                } else {
                    start + end
                };
                proof {
                    assert(next == next_search(b, start as int, end as int));
                    assert(is_char_boundary(b, next as int));
                    match hide_marks(p@, content@, next as int) {
                        Ok(rest) => {
                            assert(before + (match_marks(g@, start as int) + rest) =~= ms@ + rest);
                        },
                        Err(_) => {},
                    }
                }
                start = next;
            },
        }
    }
    assert(ms@ + Seq::<(usize, usize)>::empty() =~= ms@);
    Ok(ms)
}

proof fn lemma_marks_in_range(g: Seq<Option<(usize, usize)>>, start: int, t: Seq<char>, k: int)
    requires
        g.len() >= 1,
        0 <= start,
        forall|i: int| 0 <= i < g.len() && #[trigger] g[i] is Some ==> is_byte_range_of(t, start + (g[i]->0).0, start + (g[i]->0).1),
        0 <= k < match_marks(g, start).len(),
        encode_utf8(t).len() <= usize::MAX,
    ensures
        match_marks(g, start)[k].0 <= match_marks(g, start)[k].1 <= encode_utf8(t).len(),
        is_char_boundary(encode_utf8(t), match_marks(g, start)[k].0 as int),
        is_char_boundary(encode_utf8(t), match_marks(g, start)[k].1 as int),
{
    if g.len() > 1 {
        lemma_group_marks_in_range(g, start, t, 1, k);
    } else {
        assert(g[0] is Some ==> is_byte_range_of(t, start + (g[0]->0).0, start + (g[0]->0).1));
    }
}

proof fn lemma_group_marks_in_range(g: Seq<Option<(usize, usize)>>, start: int, t: Seq<char>, i: int, k: int)
    requires
        0 <= start,
        0 <= i,
        forall|j: int| 0 <= j < g.len() && #[trigger] g[j] is Some ==> is_byte_range_of(t, start + (g[j]->0).0, start + (g[j]->0).1),
        0 <= k < group_marks(g, start, i).len(),
        encode_utf8(t).len() <= usize::MAX,
    ensures
        group_marks(g, start, i)[k].0 <= group_marks(g, start, i)[k].1 <= encode_utf8(t).len(),
        is_char_boundary(encode_utf8(t), group_marks(g, start, i)[k].0 as int),
        is_char_boundary(encode_utf8(t), group_marks(g, start, i)[k].1 as int),
    decreases g.len() - i,
{
    if i < g.len() {
        match g[i] {
            Some(m) => {
                assert(g[i] is Some);
                assert(is_byte_range_of(t, start + m.0, start + m.1));
                if k > 0 {
                    lemma_group_marks_in_range(g, start, t, i + 1, k - 1);
                }
            },
            None => {
                lemma_group_marks_in_range(g, start, t, i + 1, k);
            },
        }
    }
}

/// Which bytes of `0..n` the ranges mark.
fn mark_mask(ms: &Vec<(usize, usize)>, n: usize) -> (r: Vec<bool>)
    requires
        forall|i: int| 0 <= i < ms@.len() ==> #[trigger] ms@[i].0 <= ms@[i].1 <= n,
    ensures
        r@.len() == n,
        forall|x: int| 0 <= x < n ==> (r@[x] <==> marked(ms@, x)),
{
    let mut mask: Vec<bool> = vec![false; n];
    let mut k: usize = 0;
    while k < ms.len()
        invariant
            mask@.len() == n,
            k <= ms@.len(),
            forall|i: int| 0 <= i < ms@.len() ==> #[trigger] ms@[i].0 <= ms@[i].1 <= n,
            forall|x: int| 0 <= x < n ==> (mask@[x] <==> marked(ms@.subrange(0, k as int), x)),
        decreases ms@.len() - k,
    {
        let (a, e) = ms[k];
        let mut y = a;
        while y < e
            invariant
                mask@.len() == n,
                k < ms@.len(),
                ms@[k as int] == (a, e),
                a <= y <= e <= n,
                forall|x: int| 0 <= x < n ==> (mask@[x] <==> (marked(ms@.subrange(0, k as int), x) || a <= x < y)),
            decreases e - y,
        {
            mask.set(y, true);
            y = y + 1;
        }
        proof {
            let s0 = ms@.subrange(0, k as int);
            let s1 = ms@.subrange(0, k + 1);
            assert forall|x: int| 0 <= x < n implies (mask@[x] <==> marked(s1, x)) by {
                if marked(s0, x) {
                    let i = choose|i: int| 0 <= i < s0.len() && (#[trigger] s0[i]).0 <= x < s0[i].1;
                    assert(s1[i] == s0[i]);
                }
                if marked(s1, x) {
                    let i = choose|i: int| 0 <= i < s1.len() && (#[trigger] s1[i]).0 <= x < s1[i].1;
                    if i < k {
                        assert(s0[i] == s1[i]);
                    }
                }
                if a <= x < e {
                    assert(s1[k as int] == (a, e));
                }
            }
        }
        k = k + 1;
    }
    assert(ms@.subrange(0, ms@.len() as int) =~= ms@);
    mask
}

/// `content` with the marked byte ranges spliced out.
pub fn splice_out(content: &str, ms: &Vec<(usize, usize)>) -> (r: String)
    requires
        forall|i: int| 0 <= i < ms@.len() ==> #[trigger] ms@[i].0 <= ms@[i].1 <= content.spec_bytes().len()
            && is_char_boundary(content.spec_bytes(), ms@[i].0 as int)
            && is_char_boundary(content.spec_bytes(), ms@[i].1 as int),
    ensures
        encode_utf8(r@) == kept(content.spec_bytes(), ms@, content.spec_bytes().len() as int),
{
    let ghost b = content.spec_bytes();
    let n = content.as_bytes().len();
    let mask = mark_mask(ms, n);
    let mut out = String::new();
    let mut i: usize = 0;
    while i < n
        invariant
            n == b.len(),
            b == content.spec_bytes(),
            i <= n,
            mask@.len() == n,
            forall|x: int| 0 <= x < n ==> (mask@[x] <==> marked(ms@, x)),
            forall|j: int| 0 <= j < ms@.len() ==> #[trigger] ms@[j].0 <= ms@[j].1 <= n
                && is_char_boundary(b, ms@[j].0 as int) && is_char_boundary(b, ms@[j].1 as int),
            encode_utf8(out@) == kept(b, ms@, i as int),
            i == 0 || i == n || mask@[i - 1] || is_char_boundary(b, i as int),
        decreases n - i,
    {
        if mask[i] {
            proof {
                assert(marked(ms@, i as int));
                let j = choose|j: int| 0 <= j < ms@.len() && (#[trigger] ms@[j]).0 <= i < ms@[j].1;
            }
            i = i + 1;
        } else {
            let a = i;
            proof {
                if a > 0 && mask@[a - 1] {
                    let j = choose|j: int| 0 <= j < ms@.len() && (#[trigger] ms@[j]).0 <= a - 1 < ms@[j].1;
                    assert(!marked(ms@, a as int));
                    assert(ms@[j].1 == a);
                }
            }
            while i < n && !mask[i]
                invariant
                    a <= i <= n,
                    mask@.len() == n,
                    forall|x: int| a <= x < i ==> !mask@[x],
                decreases n - i,
            {
                i = i + 1;
            }
            proof {
                if i < n {
                    assert(marked(ms@, i as int));
                    let j = choose|j: int| 0 <= j < ms@.len() && (#[trigger] ms@[j]).0 <= i < ms@[j].1;
                    assert(!marked(ms@, i - 1));
                    assert(ms@[j].0 == i);
                }
                lemma_kept_run(b, ms@, a as int, i as int);
            }
            let piece = byte_slice(content, a, i);
            let ghost before = out@;
            out.append(piece);
            proof {
                lemma_encode_concat(before, piece@);
            }
        }
    }
    out
}

/// The display content of `content` under the hide regex `p`, or the
/// regex's error.
pub fn hide_with(p: &FancyPattern, content: &str) -> (r: Result<String, String>)
    ensures
        match r {
            Ok(s) => hide_spec(p@, content@) == Ok::<_, Seq<char>>(s@),
            Err(e) => hide_spec(p@, content@) == Err::<Seq<char>, _>(e@),
        },
{
    match collect_marks(p, content) {
        Ok(ms) => {
            let s = splice_out(content, &ms);
            Ok(s)
        },
        Err(e) => Err(e),
    }
}

proof fn lemma_kept_all(b: Seq<u8>, ms: Seq<(usize, usize)>, n: int)
    requires
        0 <= n <= b.len(),
        forall|x: int| 0 <= x < n ==> !marked(ms, x),
    ensures
        kept(b, ms, n) == b.subrange(0, n),
    decreases n,
{
    if n > 0 {
        lemma_kept_all(b, ms, n - 1);
        assert(b.subrange(0, n - 1).push(b[n - 1]) =~= b.subrange(0, n));
    } else {
        assert(b.subrange(0, 0) =~= Seq::<u8>::empty());
    }
}

/// Hiding the display content again changes nothing when the hide regex
/// marks none of its bytes.
pub proof fn law_hide_again_when_nothing_marked(p: Seq<char>, raw: Seq<char>)
    requires
        hide_spec(p, raw) is Ok,
        hide_marks(p, hide_spec(p, raw)->Ok_0, 0) is Ok,
        forall|x: int| #![trigger marked(hide_marks(p, hide_spec(p, raw)->Ok_0, 0)->Ok_0, x)]
            !marked(hide_marks(p, hide_spec(p, raw)->Ok_0, 0)->Ok_0, x),
    ensures
        hide_spec(p, hide_spec(p, raw)->Ok_0) == hide_spec(p, raw),
{
    let d = hide_spec(p, raw)->Ok_0;
    let b = encode_utf8(d);
    let ms = hide_marks(p, d, 0)->Ok_0;
    lemma_kept_all(b, ms, b.len() as int);
    assert(b.subrange(0, b.len() as int) =~= b);
}

} // verus!
