//! Decoding text-wrapped (`#txt`) string bodies: split into lines, drop a
//! blank leading and trailing line, strip the common leading whitespace,
//! and keep blank lines as paragraph breaks.
//!
//! Whitespace here is ASCII whitespace, and the common prefix is counted
//! in bytes; both rules are deliberate and tested.

use crate::scan::{
    byte_in_set, in_set, lemma_seek_in_props, lemma_seek_not_props, seek_in, seek_not,
    spec_seek_in, spec_seek_not, ByteSet,
};
use crate::text::lossy_to_string;
use vstd::prelude::*;
use vstd::string::StringSliceAdditionalSpecFns;

verus! {

/// One line: its start and its end after trailing-whitespace trimming.
pub ghost struct LineSpan {
    pub start: int,
    pub end: int,
}

/// Where the line starting at `pos` ends: after its newline, or at the
/// buffer's end.
pub open spec fn spec_raw_end(s: Seq<u8>, pos: int) -> int {
    let e = spec_seek_in(s, pos, ByteSet::Nl);
    if e < s.len() {
        e + 1
    } else {
        e
    }
}

/// The line's end once trailing ASCII whitespace (and the terminator) are
/// trimmed.
pub open spec fn spec_trim_end(s: Seq<u8>, pos: int, raw_end: int) -> int {
    pos + crate::token::rules::last_not_ws(s.subrange(pos, raw_end)) + 1
}

/// The line spans of `s` from `pos` on.
pub open spec fn spec_lines(s: Seq<u8>, pos: int) -> Seq<LineSpan>
    decreases s.len() - pos,
    when 0 <= pos <= s.len()
    via spec_lines_decreases
{
    if pos >= s.len() {
        Seq::empty()
    } else {
        let raw_end = spec_raw_end(s, pos);
        seq![LineSpan { start: pos, end: spec_trim_end(s, pos, raw_end) }] + spec_lines(
            s,
            raw_end,
        )
    }
}

#[via_fn]
proof fn spec_lines_decreases(s: Seq<u8>, pos: int) {
    if pos < s.len() {
        lemma_seek_in_props(s, pos, ByteSet::Nl);
    }
}

/// The lines kept by the decoder: a blank first line and a blank last
/// line are dropped.
pub open spec fn spec_kept(s: Seq<u8>) -> Seq<LineSpan> {
    let all = spec_lines(s, 0);
    let no_first = if all.len() > 0 && all[0].end == all[0].start {
        all.drop_first()
    } else {
        all
    };
    if no_first.len() > 0 && no_first.last().end == no_first.last().start {
        no_first.drop_last()
    } else {
        no_first
    }
}

/// The line's leading ASCII whitespace width.
pub open spec fn spec_lead(s: Seq<u8>, ln: LineSpan) -> int {
    spec_seek_not(s, ln.start, ByteSet::Ws) - ln.start
}

/// The shortest leading whitespace among the non-blank lines (the
/// unreduced sentinel when there is none).
pub open spec fn spec_min_prefix(s: Seq<u8>, lines: Seq<LineSpan>) -> int
    decreases lines.len(),
{
    if lines.len() == 0 {
        usize::MAX as int
    } else {
        let rest = spec_min_prefix(s, lines.drop_last());
        let ln = lines.last();
        if ln.end == ln.start {
            rest
        } else if spec_lead(s, ln) < rest {
            spec_lead(s, ln)
        } else {
            rest
        }
    }
}

/// The decoded bytes: each kept line with the common prefix stripped,
/// blank lines as single newlines.
pub open spec fn spec_txt_out(s: Seq<u8>, lines: Seq<LineSpan>, prefix: int) -> Seq<u8>
    decreases lines.len(),
{
    if lines.len() == 0 {
        Seq::empty()
    } else {
        let ln = lines.last();
        spec_txt_out(s, lines.drop_last(), prefix) + (if ln.end == ln.start {
            seq![10u8]
        } else {
            s.subrange(ln.start + prefix, ln.end)
        })
    }
}

/// The whole decoding, at the byte level.
pub open spec fn spec_txt_bytes(s: Seq<u8>) -> Seq<u8> {
    spec_txt_out(s, spec_kept(s), spec_min_prefix(s, spec_kept(s)))
}

/// Every line span is ordered and lies within the buffer, and its final
/// byte is not whitespace when it is not blank.
proof fn lemma_lines_wf(s: Seq<u8>, pos: int)
    requires
        0 <= pos <= s.len(),
    ensures
        forall|k: int|
            0 <= k < spec_lines(s, pos).len() ==> ({
                let ln = #[trigger] spec_lines(s, pos)[k];
                &&& pos <= ln.start <= ln.end <= s.len()
                &&& (ln.end > ln.start ==> !in_set(ByteSet::Ws, s[ln.end - 1]))
                &&& (ln.end > ln.start ==> spec_lead(s, ln) <= ln.end - 1 - ln.start)
            }),
    decreases s.len() - pos,
{
    if pos < s.len() {
        lemma_seek_in_props(s, pos, ByteSet::Nl);
        let raw_end = spec_raw_end(s, pos);
        let sub = s.subrange(pos, raw_end);
        crate::token::comment::lemma_last_not_ws_props(sub);
        lemma_lines_wf(s, raw_end);
        let ln0 = LineSpan { start: pos, end: spec_trim_end(s, pos, raw_end) };
        assert(spec_lines(s, pos)[0] == ln0);
        if ln0.end > ln0.start {
            assert(sub[ln0.end - 1 - pos] == s[ln0.end - 1]);
            lemma_seek_not_props(s, pos, ByteSet::Ws);
            if spec_seek_not(s, pos, ByteSet::Ws) > ln0.end - 1 {
                assert(in_set(ByteSet::Ws, s[ln0.end - 1]));
            }
        }
        assert(forall|k: int|
            1 <= k < spec_lines(s, pos).len() ==> spec_lines(s, pos)[k] == spec_lines(
                s,
                raw_end,
            )[k - 1]);
    }
}

/// The common prefix fits under every non-blank kept line's own leading
/// whitespace.
proof fn lemma_min_prefix_le(s: Seq<u8>, lines: Seq<LineSpan>, k: int)
    requires
        0 <= k < lines.len(),
        lines[k].end > lines[k].start,
    ensures
        spec_min_prefix(s, lines) <= spec_lead(s, lines[k]),
    decreases lines.len(),
{
    if k == lines.len() - 1 {
        lemma_min_prefix_bound(s, lines.drop_last());
    } else {
        lemma_min_prefix_le(s, lines.drop_last(), k);
    }
}

proof fn lemma_min_prefix_bound(s: Seq<u8>, lines: Seq<LineSpan>)
    ensures
        spec_min_prefix(s, lines) <= usize::MAX,
        spec_min_prefix(s, lines) >= 0 || exists|k: int|
            0 <= k < lines.len() && spec_lead(s, #[trigger] lines[k]) == spec_min_prefix(s, lines),
    decreases lines.len(),
{
    if lines.len() > 0 {
        lemma_min_prefix_bound(s, lines.drop_last());
    }
}

/// Decode a string in the text-wrapped format.
pub fn decode_str(s: &str) -> (r: String)
    ensures
        r@ == crate::text::lossy_chars_of(spec_txt_bytes(s.spec_bytes())),
{
    let buf = s.as_bytes();
    let n = buf.len();
    // Collect the line spans.
    let mut lines: Vec<(usize, usize)> = Vec::new();
    let mut pos: usize = 0;
    proof {
        assert(lines_view(lines@) =~= spec_lines(buf@, 0).take(0));
    }
    while pos < n
        invariant
            pos <= n,
            n == buf@.len(),
            lines@.len() <= spec_lines(buf@, 0).len(),
            lines_view(lines@) == spec_lines(buf@, 0).take(lines@.len() as int),
            (pos == n && lines@.len() == spec_lines(buf@, 0).len()) || (lines@.len() < spec_lines(
                buf@,
                0,
            ).len() && spec_lines(buf@, 0)[lines@.len() as int].start == pos),
        decreases n - pos,
    {
        let e = seek_in(buf, pos, ByteSet::Nl);
        proof {
            lemma_seek_in_props(buf@, pos as int, ByteSet::Nl);
        }
        let raw_end = if e < n {
            e + 1
        } else {
            e
        };
        proof {
            let sub = buf@.subrange(pos as int, raw_end as int);
            crate::token::comment::lemma_last_not_ws_props(sub);
            lemma_lines_suffix(buf@, 0, lines@.len() as int);
            assert(spec_lines(buf@, 0)[lines@.len() as int] == (LineSpan {
                start: pos as int,
                end: spec_trim_end(buf@, pos as int, raw_end as int),
            }));
            if raw_end == n {
                assert(spec_lines(buf@, raw_end as int) =~= Seq::<LineSpan>::empty());
                assert(spec_lines(buf@, pos as int).len() == 1);
                assert(spec_lines(buf@, 0).len() == lines@.len() + 1);
            } else {
                assert(spec_lines(buf@, raw_end as int).len() >= 1);
                assert(spec_lines(buf@, pos as int).len() == 1 + spec_lines(
                    buf@,
                    raw_end as int,
                ).len());
                assert(spec_lines(buf@, 0).len() - lines@.len() == spec_lines(
                    buf@,
                    pos as int,
                ).len());
                assert(lines@.len() + 1 < spec_lines(buf@, 0).len());
                assert(spec_lines(buf@, 0)[lines@.len() as int + 1].start == spec_raw_end(
                    buf@,
                    pos as int,
                ));
            }
        }
        lines.push((pos, trim_end_of(buf, pos, raw_end)));
        proof {
            assert(lines_view(lines@) =~= spec_lines(buf@, 0).take(lines@.len() as int));
        }
        pos = raw_end;
    }
    proof {
        if lines@.len() < spec_lines(buf@, 0).len() {
            lemma_lines_suffix(buf@, 0, lines@.len() as int);
            assert(spec_lines(buf@, n as int) =~= Seq::<LineSpan>::empty());
        }
        assert(lines_view(lines@) =~= spec_lines(buf@, 0));
    }
    // Drop a blank first and a blank last line.
    decode_kept(buf, lines)
}

/// The trimmed end of the line `[pos, raw_end)`.
pub(crate) fn trim_end_of(buf: &[u8], pos: usize, raw_end: usize) -> (r: usize)
    requires
        pos <= raw_end <= buf@.len(),
    ensures
        r == spec_trim_end(buf@, pos as int, raw_end as int),
        pos <= r <= raw_end,
{
    let mut j: usize = raw_end;
    while j > pos && byte_in_set(ByteSet::Ws, buf[j - 1])
        invariant
            pos <= j <= raw_end <= buf@.len(),
            forall|k: int| j <= k < raw_end ==> in_set(ByteSet::Ws, buf@[k]),
        decreases j,
    {
        j = j - 1;
    }
    proof {
        let sub = buf@.subrange(pos as int, raw_end as int);
        crate::token::comment::lemma_last_not_ws_props(sub);
        assert(forall|k: int| 0 <= k < sub.len() ==> sub[k] == buf@[pos + k]);
        crate::token::comment::lemma_last_not_ws_unique(sub, j - pos - 1);
    }
    j
}

spec fn lines_view(v: Seq<(usize, usize)>) -> Seq<LineSpan> {
    v.map(|i: int, p: (usize, usize)| LineSpan { start: p.0 as int, end: p.1 as int })
}

proof fn lemma_lines_suffix(s: Seq<u8>, pos: int, k: int)
    requires
        0 <= pos <= s.len(),
        0 <= k < spec_lines(s, pos).len(),
    ensures
        spec_lines(s, spec_lines(s, pos)[k].start) =~= spec_lines(s, pos).skip(k),
        spec_lines(s, pos)[k].end == spec_trim_end(
            s,
            spec_lines(s, pos)[k].start,
            spec_raw_end(s, spec_lines(s, pos)[k].start),
        ),
        k + 1 < spec_lines(s, pos).len() ==> spec_lines(s, pos)[k + 1].start == spec_raw_end(
            s,
            spec_lines(s, pos)[k].start,
        ),
    decreases k,
{
    lemma_lines_wf(s, pos);
    if k == 0 {
        assert(spec_lines(s, pos).skip(0) =~= spec_lines(s, pos));
        let raw_end = spec_raw_end(s, pos);
        lemma_seek_in_props(s, pos, ByteSet::Nl);
        if 1 < spec_lines(s, pos).len() {
            assert(spec_lines(s, pos)[1] == spec_lines(s, raw_end)[0]);
            assert(spec_lines(s, raw_end)[0].start == raw_end);
        }
    } else {
        let raw_end = spec_raw_end(s, pos);
        lemma_seek_in_props(s, pos, ByteSet::Nl);
        lemma_lines_suffix(s, raw_end, k - 1);
        assert(spec_lines(s, pos)[k] == spec_lines(s, raw_end)[k - 1]);
        assert(spec_lines(s, raw_end).skip(k - 1) =~= spec_lines(s, pos).skip(k));
    }
}

fn decode_kept(buf: &[u8], lines: Vec<(usize, usize)>) -> (r: String)
    requires
        lines_view(lines@) == spec_lines(buf@, 0),
    ensures
        r@ == crate::text::lossy_chars_of(spec_txt_bytes(buf@)),
{
    let ghost all = spec_lines(buf@, 0);
    let mut kept = lines;
    let mut first_blank = false;
    if kept.len() > 0 {
        let (a, e) = kept[0];
        if a == e {
            kept.remove(0);
            first_blank = true;
        }
    }
    let ghost no_first = if all.len() > 0 && all[0].end == all[0].start {
        all.drop_first()
    } else {
        all
    };
    proof {
        assert(lines_view(kept@) =~= no_first);
    }
    if kept.len() > 0 {
        let (a, e) = kept[kept.len() - 1];
        if a == e {
            kept.pop();
        }
    }
    proof {
        assert(lines_view(kept@) =~= spec_kept(buf@));
    }
    let ghost keptv = spec_kept(buf@);
    proof {
        lemma_lines_wf(buf@, 0);
        lemma_kept_wf(buf@);
    }
    // The shortest leading whitespace among non-blank kept lines.
    let mut prefix: usize = usize::MAX;
    let kn = kept.len();
    let mut i: usize = 0;
    while i < kn
        invariant
            i <= kn,
            kn == kept@.len(),
            lines_view(kept@) == keptv,
            keptv == spec_kept(buf@),
            forall|k: int|
                0 <= k < keptv.len() ==> #[trigger] keptv[k].start <= keptv[k].end <= buf@.len(),
            prefix == spec_min_prefix(buf@, keptv.take(i as int)),
        decreases kn - i,
    {
        let (a, e) = kept[i];
        proof {
            assert(keptv.take(i + 1).drop_last() =~= keptv.take(i as int));
            assert(keptv.take(i + 1).last() == keptv[i as int]);
            assert(keptv[i as int] == lines_view(kept@)[i as int]);
            assert(keptv[i as int].start <= keptv[i as int].end <= buf@.len());
        }
        if a != e {
            let lead = seek_not(buf, a, ByteSet::Ws);
            proof {
                lemma_seek_not_props(buf@, a as int, ByteSet::Ws);
            }
            let w = lead - a;
            if w < prefix {
                prefix = w;
            }
        }
        i = i + 1;
    }
    proof {
        assert(keptv.take(kn as int) =~= keptv);
    }
    // Emit.
    let mut out: Vec<u8> = Vec::new();
    let mut i2: usize = 0;
    proof {
        assert(out@ =~= spec_txt_out(buf@, keptv.take(0), prefix as int));
    }
    while i2 < kn
        invariant
            i2 <= kn,
            kn == kept@.len(),
            lines_view(kept@) == keptv,
            keptv == spec_kept(buf@),
            prefix == spec_min_prefix(buf@, keptv),
            forall|k: int|
                0 <= k < keptv.len() ==> ({
                    let ln = #[trigger] keptv[k];
                    &&& 0 <= ln.start <= ln.end <= buf@.len()
                    &&& (ln.end > ln.start ==> spec_lead(buf@, ln) <= ln.end - 1 - ln.start)
                }),
            out@ == spec_txt_out(buf@, keptv.take(i2 as int), prefix as int),
        decreases kn - i2,
    {
        let (a, e) = kept[i2];
        proof {
            assert(keptv.take(i2 + 1).drop_last() =~= keptv.take(i2 as int));
            assert(keptv.take(i2 + 1).last() == keptv[i2 as int]);
            assert(keptv[i2 as int] == lines_view(kept@)[i2 as int]);
            assert(0 <= keptv[i2 as int].start <= keptv[i2 as int].end <= buf@.len());
        }
        if a == e {
            out.push(10);
            proof {
                assert(out@ =~= spec_txt_out(buf@, keptv.take(i2 as int), prefix as int) + seq![
                    10u8,
                ]);
            }
        } else {
            proof {
                lemma_min_prefix_le(buf@, keptv, i2 as int);
            }
            crate::token::esc::push_range(&mut out, buf, a + prefix, e);
        }
        i2 = i2 + 1;
    }
    proof {
        assert(keptv.take(kn as int) =~= keptv);
    }
    lossy_to_string(out.as_slice())
}

/// Kept lines inherit the well-formedness of all lines.
proof fn lemma_kept_wf(s: Seq<u8>)
    ensures
        forall|k: int|
            0 <= k < spec_kept(s).len() ==> ({
                let ln = #[trigger] spec_kept(s)[k];
                &&& 0 <= ln.start <= ln.end <= s.len()
                &&& (ln.end > ln.start ==> spec_lead(s, ln) <= ln.end - 1 - ln.start)
            }),
{
    lemma_lines_wf(s, 0);
    let all = spec_lines(s, 0);
    assert(forall|k: int|
        0 <= k < spec_kept(s).len() ==> exists|j: int|
            0 <= j < all.len() && all[j] == #[trigger] spec_kept(s)[k]);
}

} // verus!
