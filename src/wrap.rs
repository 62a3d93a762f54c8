//! Wrapping styled segments into rows of a fixed width in characters.
use vstd::prelude::*;
use vstd::string::{StrSliceExecFns, StringExecFns};
use crate::highlight::HighlightStyle;

verus! {

/// The characters of one segment, each with the segment's style.
pub open spec fn styled_chars(seg: (Seq<char>, HighlightStyle)) -> Seq<(char, HighlightStyle)> {
    Seq::new(seg.0.len(), |i: int| (seg.0[i], seg.1))
}

/// The characters of a row of segments, with their styles, in order.
pub open spec fn row_chars(segs: Seq<(String, HighlightStyle)>) -> Seq<(char, HighlightStyle)>
    decreases segs.len(),
{
    if segs.len() == 0 {
        Seq::empty()
    } else {
        row_chars(segs.drop_last()) + styled_chars((segs.last().0@, segs.last().1))
    }
}

/// The characters of all rows, in order.
pub open spec fn rows_chars(rows: Seq<Vec<(String, HighlightStyle)>>) -> Seq<(char, HighlightStyle)>
    decreases rows.len(),
{
    if rows.len() == 0 {
        Seq::empty()
    } else {
        rows_chars(rows.drop_last()) + row_chars(rows.last()@)
    }
}

proof fn lemma_rows_push(rows: Seq<Vec<(String, HighlightStyle)>>, row: Vec<(String, HighlightStyle)>)
    ensures
        rows_chars(rows.push(row)) == rows_chars(rows) + row_chars(row@),
{
    assert(rows.push(row).drop_last() =~= rows);
}

proof fn lemma_row_push(segs: Seq<(String, HighlightStyle)>, seg: (String, HighlightStyle))
    ensures
        row_chars(segs.push(seg)) == row_chars(segs) + styled_chars((seg.0@, seg.1)),
{
    assert(segs.push(seg).drop_last() =~= segs);
}

/// The segments split into rows of at most `width` characters, a row
/// starting when the previous one is full; with width 0, one row.
pub fn wrap_highlighted(segs: &Vec<(String, HighlightStyle)>, width: usize) -> (r: Vec<Vec<(String, HighlightStyle)>>)
    ensures
        r@.len() >= 1,
        rows_chars(r@) == row_chars(segs@),
        width > 0 ==> forall|i: int| 0 <= i < r@.len() - 1 ==> (#[trigger] row_chars(r@[i]@)).len() == width,
        width > 0 ==> row_chars(r@.last()@).len() <= width,
{
    let mut rows: Vec<Vec<(String, HighlightStyle)>> = Vec::new();
    let mut cur: Vec<(String, HighlightStyle)> = Vec::new();
    let mut used: usize = 0;
    let mut k: usize = 0;
    while k < segs.len()
        invariant
            k <= segs@.len(),
            rows_chars(rows@) + row_chars(cur@) == row_chars(segs@.subrange(0, k as int)),
            width > 0 ==> used <= width,
            width > 0 ==> row_chars(cur@).len() == used,
            width > 0 ==> forall|i: int| 0 <= i < rows@.len() ==> (#[trigger] row_chars(rows@[i]@)).len() == width,
        decreases segs@.len() - k,
    {
        let text = segs[k].0.as_str();
        let style = segs[k].1;
        let n = text.unicode_len();
        let ghost done = row_chars(segs@.subrange(0, k as int));
        proof {
            lemma_row_push(segs@.subrange(0, k as int), segs@[k as int]);
            assert(segs@.subrange(0, k + 1) =~= segs@.subrange(0, k as int).push(segs@[k as int]));
        }
        if width == 0 {
            let ghost before = cur@;
            let whole = String::from_str(text);
            proof {
                lemma_row_push(before, (whole, style));
            }
            cur.push((whole, style));
            proof {
                assert(styled_chars((text@, style)) =~= styled_chars((segs@[k as int].0@, segs@[k as int].1)));
                assert(rows_chars(rows@) + row_chars(cur@) =~= done + styled_chars((text@, style)));
            }
        } else {
            let mut off: usize = 0;
            while off < n
                invariant
                    width > 0,
                    n == text@.len(),
                    off <= n,
                    used <= width,
                    row_chars(cur@).len() == used,
                    rows_chars(rows@) + row_chars(cur@) == done + styled_chars((text@.subrange(0, off as int), style)),
                    forall|i: int| 0 <= i < rows@.len() ==> (#[trigger] row_chars(rows@[i]@)).len() == width,
                decreases (n - off) * 2 + (if used == width { 1int } else { 0int }),
            {
                if used == width {
                    let ghost before = rows@;
                    let full = cur;
                    proof {
                        lemma_rows_push(before, full);
                    }
                    rows.push(full);
                    cur = Vec::new();
                    used = 0;
                    proof {
                        assert(row_chars(cur@) =~= Seq::<(char, HighlightStyle)>::empty());
                        assert forall|i: int| 0 <= i < rows@.len() implies (#[trigger] row_chars(rows@[i]@)).len() == width by {
                            if i < before.len() {
                                assert(rows@[i] == before[i]);
                            }
                        }
                        assert(rows_chars(rows@) + row_chars(cur@) =~= rows_chars(before) + row_chars(full@));
                    }
                } else {
                    let room = width - used;
                    let take = if n - off < room { n - off } else { room };
                    let chunk = String::from_str(text.substring_char(off, off + take));
                    let ghost before = cur@;
                    proof {
                        lemma_row_push(before, (chunk, style));
                    }
                    cur.push((chunk, style));
                    proof {
                        let pre = styled_chars((text@.subrange(0, off as int), style));
                        assert(styled_chars((text@.subrange(0, (off + take) as int), style)) =~= pre + styled_chars((
                            chunk@,
                            style,
                        )));
                        assert(rows_chars(rows@) + row_chars(cur@) =~= (rows_chars(rows@) + row_chars(before))
                            + styled_chars((chunk@, style)));
                        assert(done + pre + styled_chars((chunk@, style)) =~= done + (pre + styled_chars((chunk@, style))));
                    }
                    used = used + take;
                    off = off + take;
                }
            }
            assert(text@.subrange(0, n as int) =~= text@);
        }
        k = k + 1;
    }
    let ghost before = rows@;
    proof {
        lemma_rows_push(before, cur);
        assert(segs@.subrange(0, segs@.len() as int) =~= segs@);
    }
    rows.push(cur);
    proof {
        if width > 0 {
            assert forall|i: int| 0 <= i < rows@.len() - 1 implies (#[trigger] row_chars(rows@[i]@)).len() == width by {
                assert(rows@[i] == before[i]);
            }
            assert(rows@.last() == cur);
        }
    }
    rows
}

} // verus!
