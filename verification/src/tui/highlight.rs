//! Showing a text with its matches marked.

use super::draw::{
    colored, highlight, highlight_style, patched, span_views, styled, Color, Span, SpanView, Style,
};
use super::util::{char_boundary_left, char_boundary_right};
use crate::text::{
    between, boundary_after, boundary_before, byte_len, char_index, is_boundary,
    lemma_boundary_ends, lemma_boundary_is_offset, lemma_offset_ends, lemma_offset_is_boundary,
    lemma_offset_mono, offset, str_bytes, substring,
};
use vstd::prelude::*;

verus! {

/// The positions as ranges from a first to behind a last one, runs of neighbours together.
pub open spec fn ranges_of(indices: Seq<usize>) -> Seq<(usize, usize)>
    decreases indices.len(),
{
    if indices.len() == 0 {
        seq![]
    } else {
        let rest = ranges_of(indices.drop_last());
        let i = indices.last();
        let after = (i + 1) as usize;
        if indices.len() > 1 && i == indices[indices.len() - 2] + 1 {
            rest.drop_last().push((rest.last().0, after))
        } else {
            rest.push((i, after))
        }
    }
}

proof fn lemma_ranges_last(indices: Seq<usize>)
    requires
        indices.len() > 0,
        indices.last() < usize::MAX,
    ensures
        ranges_of(indices).len() > 0,
        ranges_of(indices).last().1 == indices.last() + 1,
{
}

/// Puts positions together into ranges.
pub fn group_into_ranges(indices: &[usize]) -> (ranges: Vec<(usize, usize)>)
    requires
        forall|k: int| 0 <= k < indices@.len() ==> #[trigger] indices@[k] < usize::MAX,
    ensures
        ranges@ == ranges_of(indices@),
{
    let mut ranges: Vec<(usize, usize)> = Vec::new();
    if indices.len() == 0 {
        assert(ranges@ =~= ranges_of(indices@));
        return ranges;
    }
    let mut start = indices[0];
    let mut end = indices[0];
    let mut k: usize = 1;
    proof {
        let one = indices@.take(1);
        assert(marked(Seq::<SpanView>::empty()) =~= seq![]);
    assert(one.drop_last() =~= seq![]);
        assert(ranges_of(one.drop_last()) =~= seq![]);
        assert(ranges@.push((start, (end + 1) as usize)) =~= ranges_of(one));
    }
    while k < indices.len()
        invariant
            1 <= k <= indices@.len(),
            forall|k: int| 0 <= k < indices@.len() ==> #[trigger] indices@[k] < usize::MAX,
            end == indices@[k - 1],
            ranges@.push((start, (end + 1) as usize)) == ranges_of(indices@.take(k as int)),
        decreases indices@.len() - k,
    {
        let i = indices[k];
        let ghost before = ranges_of(indices@.take(k as int));
        proof {
            let longer = indices@.take(k + 1);
            assert(longer.drop_last() =~= indices@.take(k as int));
            assert(longer.last() == i);
            assert(before.drop_last() =~= ranges@);
            assert(before.last() == (start, (end + 1) as usize));
            assert(longer[longer.len() - 2] == indices@[k - 1]);
        }
        if i == end + 1 {
            end = i;
        } else {
            ranges.push((start, end + 1));
            assert(ranges@ =~= before);
            start = i;
            end = i;
        }
        k = k + 1;
    }
    ranges.push((start, end + 1));
    assert(indices@.take(k as int) =~= indices@);
    ranges
}

/// The positions that the ranges stand for, in order.
pub open spec fn expanded(ranges: Seq<(usize, usize)>) -> Seq<int>
    decreases ranges.len(),
{
    if ranges.len() == 0 {
        seq![]
    } else {
        let (a, b) = ranges.last();
        expanded(ranges.drop_last()) + Seq::new(
            if a < b {
                (b - a) as nat
            } else {
                0
            },
            |i: int| a + i,
        )
    }
}

/// Grouping loses nothing: the ranges stand for the positions they were made of, in the same
/// order. No range is empty, and none goes on where the one before it ends.
pub proof fn lemma_ranges_expand(indices: Seq<usize>)
    requires
        forall|k: int| 0 <= k < indices.len() ==> #[trigger] indices[k] < usize::MAX,
    ensures
        expanded(ranges_of(indices)) == indices.map_values(|i: usize| i as int),
        forall|k: int| #![trigger ranges_of(indices)[k]]
            0 <= k < ranges_of(indices).len() ==> ranges_of(indices)[k].0 < ranges_of(indices)[k].1,
        forall|k: int|
            0 < k < ranges_of(indices).len() ==> (#[trigger] ranges_of(indices)[k]).0 != ranges_of(
                indices,
            )[k - 1].1,
    decreases indices.len(),
{
    let ints = indices.map_values(|i: usize| i as int);
    if indices.len() == 0 {
        assert(expanded(ranges_of(indices)) =~= ints);
    } else {
        let front = indices.drop_last();
        let i = indices.last();
        let r = ranges_of(front);
        let t = ranges_of(indices);
        assert forall|k: int| 0 <= k < front.len() implies #[trigger] front[k] < usize::MAX by {
            assert(indices[k] < usize::MAX);
        }
        lemma_ranges_expand(front);
        assert(ints =~= front.map_values(|i: usize| i as int).push(i as int));
        if indices.len() > 1 && i == indices[indices.len() - 2] + 1 {
            lemma_ranges_last(front);
            let (a, b) = r.last();
            assert(t.drop_last() =~= r.drop_last());
            assert(Seq::new((b + 1 - a) as nat, |i: int| a + i) =~= Seq::new(
                (b - a) as nat,
                |i: int| a + i,
            ).push(b as int));
            assert(expanded(t) =~= ints);
            assert forall|k: int| 0 < k < t.len() implies (#[trigger] t[k]).0 != t[k - 1].1 by {
                assert(r[k].0 != r[k - 1].1);
            }
            assert forall|k: int| #![trigger t[k]] 0 <= k < t.len() implies t[k].0 < t[k].1 by {
                assert(r[k].0 < r[k].1);
            }
        } else {
            assert(t.drop_last() =~= r);
            assert(Seq::new(1, |j: int| i + j) =~= seq![i as int]);
            assert(expanded(t) =~= ints);
            if front.len() > 0 {
                lemma_ranges_last(front);
            }
            assert forall|k: int| 0 < k < t.len() implies (#[trigger] t[k]).0 != t[k - 1].1 by {
                if k < r.len() {
                    assert(r[k].0 != r[k - 1].1);
                }
            }
            assert forall|k: int| #![trigger t[k]] 0 <= k < t.len() implies t[k].0 < t[k].1 by {
                if k < r.len() {
                    assert(r[k].0 < r[k].1);
                }
            }
        }
    }
}

/// A span for the text, unless it is empty.
pub open spec fn some_span(text: Seq<char>, style: Style) -> Seq<SpanView> {
    if text.len() > 0 {
        seq![styled(text, style)]
    } else {
        seq![]
    }
}

/// The mark that stands for a line break.
pub open spec fn newline_span() -> SpanView {
    styled(seq!['\\', 'n'], colored(Color::Cyan))
}

/// The spans of `pending` and then `text`, with marks in place of line breaks.
pub open spec fn broken(pending: Seq<char>, text: Seq<char>, style: Style) -> Seq<SpanView>
    decreases text.len(),
{
    if text.len() == 0 {
        some_span(pending, style)
    } else if text[0] == '\n' {
        some_span(pending, style).push(newline_span()) + broken(seq![], text.skip(1), style)
    } else {
        broken(pending.push(text[0]), text.skip(1), style)
    }
}

/// The spans with marks in place of line breaks.
pub open spec fn marked(spans: Seq<SpanView>) -> Seq<SpanView>
    decreases spans.len(),
{
    if spans.len() == 0 {
        seq![]
    } else {
        marked(spans.drop_last()) + broken(seq![], spans.last().text, spans.last().style)
    }
}

fn push_some(result: &mut Vec<Span>, text: String, style: Style)
    ensures
        span_views(final(result)@) == span_views(old(result)@) + some_span(text@, style),
{
    let ghost before = span_views(result@);
    if !text.as_str().is_empty() {
        result.push(Span::styled(text, style));
    }
    assert(span_views(result@) =~= before + some_span(text@, style));
}

/// Adds the spans of a text with marks in place of line breaks.
fn push_broken(result: &mut Vec<Span>, text: &str, style: Style)
    ensures
        span_views(final(result)@) == span_views(old(result)@) + broken(seq![], text@, style),
{
    let ghost goal = span_views(result@) + broken(seq![], text@, style);
    let mut pending = String::new();
    assert(text@.skip(0) =~= text@);
    assert(pending@ =~= seq![]);
    for c in it: text.chars()
        invariant
            it.seq() == text@,
            span_views(result@) + broken(pending@, text@.skip(it.index()), style) == goal,
    {
        let ghost rest = text@.skip(it.index());
        let ghost before = span_views(result@);
        let ghost waiting = pending@;
        assert(rest[0] == c);
        assert(rest.skip(1) =~= text@.skip(it.index() + 1));
        if c == '\n' {
            proof {
                reveal_strlit("\\n");
            }
            push_some(result, pending, style);
            let ghost flushed = span_views(result@);
            let mark = Span::styled("\\n".to_owned(), Style::colored(Color::Cyan));
            result.push(mark);
            pending = String::new();
            proof {
                assert(mark@.text =~= seq!['\\', 'n']);
                assert(mark@ =~= newline_span());
                assert(span_views(result@) =~= flushed.push(mark@));
                assert(pending@ =~= seq![]);
                assert(span_views(result@) =~= before + some_span(waiting, style).push(
                    newline_span(),
                ));
                assert(before + broken(waiting, rest, style) =~= span_views(result@) + broken(
                    pending@,
                    rest.skip(1),
                    style,
                ));
            }
        } else {
            pending.push(c);
        }
    }
    assert(text@.skip(text@.len() as int) =~= seq![]);
    push_some(result, pending, style);
}

/// Puts marks in place of line breaks.
pub fn inject_newlines(spans: Vec<Span>) -> (result: Vec<Span>)
    ensures
        span_views(result@) == marked(span_views(spans@)),
{
    let mut result: Vec<Span> = Vec::new();
    let ghost all = span_views(spans@);
    let mut k: usize = 0;
    assert(span_views(result@) =~= marked(all.take(0)));
    while k < spans.len()
        invariant
            k <= spans@.len(),
            all == span_views(spans@),
            span_views(result@) == marked(all.take(k as int)),
        decreases spans@.len() - k,
    {
        proof {
            assert(all.take(k + 1).drop_last() =~= all.take(k as int));
            assert(all.take(k + 1).last() == spans@[k as int]@);
        }
        push_broken(&mut result, spans[k].text.as_str(), spans[k].style);
        k = k + 1;
    }
    assert(all.take(k as int) =~= all);
    result
}

/// The spans up to the end of the ranges, and the byte at which the last range ends. Ranges
/// grow to whole characters.
pub open spec fn range_spans(text: Seq<char>, ranges: Seq<(usize, usize)>, base: Style) -> (
    Seq<SpanView>,
    int,
)
    decreases ranges.len(),
{
    if ranges.len() == 0 {
        (seq![], 0)
    } else {
        let (spans, last) = range_spans(text, ranges.drop_last(), base);
        let start = boundary_before(text, ranges.last().0 as int);
        let end = boundary_after(text, ranges.last().1 as int);
        let with_gap = if start > last {
            spans.push(styled(between(text, last, start), base))
        } else {
            spans
        };
        let with_match = if end > start {
            with_gap.push(styled(between(text, start, end), patched(base, highlight_style())))
        } else {
            with_gap
        };
        (with_match, end)
    }
}

/// The spans of a text with its matches highlighted.
pub open spec fn highlighted(text: Seq<char>, indices: Seq<usize>, base: Style) -> Seq<SpanView> {
    if indices.len() == 0 {
        seq![styled(text, base)]
    } else {
        let (spans, last) = range_spans(text, ranges_of(indices), base);
        if last < byte_len(text) {
            spans.push(styled(between(text, last, byte_len(text) as int), base))
        } else {
            spans
        }
    }
}

/// Adds the part of a text between two boundaries.
fn push_part(spans: &mut Vec<Span>, text: &str, a: usize, b: usize, style: Style)
    requires
        is_boundary(text@, a as int),
        is_boundary(text@, b as int),
        a <= b,
    ensures
        span_views(final(spans)@) == span_views(old(spans)@).push(
            styled(between(text@, a as int, b as int), style),
        ),
{
    let part = substring(text, a, b).to_owned();
    spans.push(Span::styled(part, style));
    assert(span_views(spans@) =~= span_views(old(spans)@).push(
        styled(between(text@, a as int, b as int), style),
    ));
}

/// Shows a text with the bytes at the given positions highlighted and marks in place of line
/// breaks.
pub fn highlight_matches(text: &str, indices: &[usize], base_style: Style) -> (spans: Vec<Span>)
    requires
        forall|k: int| 0 <= k < indices@.len() ==> #[trigger] indices@[k] < usize::MAX,
    ensures
        span_views(spans@) == marked(highlighted(text@, indices@, base_style)),
{
    let mut spans: Vec<Span> = Vec::new();
    if indices.len() == 0 {
        spans.push(Span::styled(text.to_owned(), base_style));
        assert(span_views(spans@) =~= highlighted(text@, indices@, base_style));
    } else {
        let ranges = group_into_ranges(indices);
        let hl = base_style.patch(highlight());
        let mut last: usize = 0;
        let mut k: usize = 0;
        proof {
            lemma_boundary_ends(text@);
            assert(ranges@.take(0) =~= seq![]);
            assert(span_views(spans@) =~= seq![]);
        }
        while k < ranges.len()
            invariant
                k <= ranges@.len(),
                hl == patched(base_style, highlight_style()),
                is_boundary(text@, last as int),
                (span_views(spans@), last as int) == range_spans(
                    text@,
                    ranges@.take(k as int),
                    base_style,
                ),
            decreases ranges@.len() - k,
        {
            proof {
                assert(ranges@.take(k + 1).drop_last() =~= ranges@.take(k as int));
                assert(ranges@.take(k + 1).last() == ranges@[k as int]);
            }
            let start = char_boundary_left(text, ranges[k].0);
            let end = char_boundary_right(text, ranges[k].1);
            if start > last {
                push_part(&mut spans, text, last, start, base_style);
            }
            if end > start {
                push_part(&mut spans, text, start, end, hl);
            }
            last = end;
            k = k + 1;
        }
        assert(ranges@.take(k as int) =~= ranges@);
        let n = str_bytes(text);
        if last < n {
            proof {
                lemma_boundary_ends(text@);
            }
            push_part(&mut spans, text, last, n, base_style);
        }
    }
    inject_newlines(spans)
}

/// The text of the spans, in a row.
pub open spec fn text_in(spans: Seq<SpanView>) -> Seq<char>
    decreases spans.len(),
{
    if spans.len() == 0 {
        seq![]
    } else {
        text_in(spans.drop_last()) + spans.last().text
    }
}

/// Whether the ranges, grown to whole characters, come one after the other without overlap.
pub open spec fn apart(text: Seq<char>, ranges: Seq<(usize, usize)>) -> bool {
    forall|k: int|
        0 < k < ranges.len() ==> boundary_after(text, ranges[k - 1].1 as int) <= boundary_before(
            text,
            (#[trigger] ranges[k]).0 as int,
        )
}

proof fn lemma_boundary_before(s: Seq<char>, pos: int)
    requires
        pos >= 0,
    ensures
        is_boundary(s, boundary_before(s, pos)),
        0 <= boundary_before(s, pos) <= pos,
        boundary_before(s, pos) <= byte_len(s),
    decreases pos,
{
    lemma_boundary_ends(s);
    if 0 < pos <= byte_len(s) && !is_boundary(s, pos) {
        lemma_boundary_before(s, pos - 1);
    }
}

proof fn lemma_boundary_after(s: Seq<char>, pos: int)
    requires
        pos >= 0,
    ensures
        is_boundary(s, boundary_after(s, pos)),
        boundary_after(s, pos) <= byte_len(s),
        boundary_after(s, pos) >= pos || boundary_after(s, pos) == byte_len(s),
    decreases byte_len(s) - pos,
{
    lemma_boundary_ends(s);
    if pos < byte_len(s) && !is_boundary(s, pos) {
        lemma_boundary_after(s, pos + 1);
    }
}

proof fn lemma_index_mono(s: Seq<char>, a: int, b: int)
    requires
        is_boundary(s, a),
        is_boundary(s, b),
        a <= b,
    ensures
        0 <= char_index(s, a) <= char_index(s, b) <= s.len(),
{
    lemma_boundary_is_offset(s, a);
    lemma_boundary_is_offset(s, b);
    if char_index(s, b) < char_index(s, a) {
        lemma_offset_mono(s, char_index(s, b), char_index(s, a));
    }
}

proof fn lemma_text_in_push(spans: Seq<SpanView>, span: SpanView)
    ensures
        text_in(spans.push(span)) == text_in(spans) + span.text,
{
    assert(spans.push(span).drop_last() =~= spans);
}

proof fn lemma_text_in_add(a: Seq<SpanView>, b: Seq<SpanView>)
    ensures
        text_in(a + b) == text_in(a) + text_in(b),
    decreases b.len(),
{
    if b.len() == 0 {
        assert(a + b =~= a);
        assert(text_in(a) + text_in(b) =~= text_in(a));
    } else {
        lemma_text_in_add(a, b.drop_last());
        assert((a + b).drop_last() =~= a + b.drop_last());
        assert(text_in(a + b) =~= text_in(a) + text_in(b));
    }
}

proof fn lemma_grow(s: Seq<char>, spans: Seq<SpanView>, a: int, b: int, style: Style)
    requires
        is_boundary(s, a),
        is_boundary(s, b),
        a <= b,
        text_in(spans) == s.take(char_index(s, a)),
    ensures
        text_in(spans.push(styled(between(s, a, b), style))) == s.take(char_index(s, b)),
{
    lemma_index_mono(s, a, b);
    lemma_text_in_push(spans, styled(between(s, a, b), style));
    assert(s.take(char_index(s, a)) + between(s, a, b) =~= s.take(char_index(s, b)));
}

proof fn lemma_range_spans_text(text: Seq<char>, ranges: Seq<(usize, usize)>, base: Style)
    requires
        apart(text, ranges),
        forall|k: int| #![trigger ranges[k]] 0 <= k < ranges.len() ==> ranges[k].0 < ranges[k].1,
    ensures
        ({
            let (spans, last) = range_spans(text, ranges, base);
            &&& is_boundary(text, last)
            &&& text_in(spans) == text.take(char_index(text, last))
            &&& ranges.len() > 0 ==> last == boundary_after(text, ranges.last().1 as int)
            &&& ranges.len() == 0 ==> last == 0
        }),
    decreases ranges.len(),
{
    if ranges.len() == 0 {
        lemma_boundary_ends(text);
        assert(text.take(0) =~= seq![]);
    } else {
        let front = ranges.drop_last();
        assert(apart(text, front)) by {
            assert forall|k: int| 0 < k < front.len() implies boundary_after(
                text,
                front[k - 1].1 as int,
            ) <= boundary_before(text, (#[trigger] front[k]).0 as int) by {
                assert(ranges[k] == front[k]);
            }
        }
        assert forall|k: int| #![trigger front[k]] 0 <= k < front.len() implies front[k].0
            < front[k].1 by {
            assert(ranges[k] == front[k]);
        }
        lemma_range_spans_text(text, front, base);
        let (spans, last) = range_spans(text, front, base);
        let r = ranges.last();
        assert(r == ranges[ranges.len() - 1]);
        let start = boundary_before(text, r.0 as int);
        let end = boundary_after(text, r.1 as int);
        lemma_boundary_before(text, r.0 as int);
        lemma_boundary_after(text, r.1 as int);
        assert(last <= start);
        assert(start <= end);
        if start > last {
            lemma_grow(text, spans, last, start, base);
        }
        let with_gap = if start > last {
            spans.push(styled(between(text, last, start), base))
        } else {
            spans
        };
        if end > start {
            lemma_grow(text, with_gap, start, end, patched(base, highlight_style()));
        }
    }
}

/// Highlighting keeps the text: the spans hold it whole, in order and once, wherever the
/// matches, grown to whole characters, do not overlap.
pub proof fn lemma_highlighted_text(text: Seq<char>, indices: Seq<usize>, base: Style)
    requires
        forall|k: int| 0 <= k < indices.len() ==> #[trigger] indices[k] < usize::MAX,
        apart(text, ranges_of(indices)),
    ensures
        text_in(highlighted(text, indices, base)) == text,
{
    if indices.len() == 0 {
        lemma_text_in_push(seq![], styled(text, base));
        assert(seq![styled(text, base)] =~= Seq::<SpanView>::empty().push(styled(text, base)));
        assert(text_in(Seq::<SpanView>::empty()) + text =~= text);
    } else {
        lemma_ranges_expand(indices);
        let ranges = ranges_of(indices);
        lemma_range_spans_text(text, ranges, base);
        lemma_boundary_ends(text);
        let (spans, last) = range_spans(text, ranges, base);
        lemma_boundary_is_offset(text, last);
        if last < byte_len(text) {
            lemma_grow(text, spans, last, byte_len(text) as int, base);
        }
        assert(text.take(text.len() as int) =~= text);
    }
}

/// A text with a backslash and an `n` in place of each line break.
pub open spec fn on_one_line(text: Seq<char>) -> Seq<char>
    decreases text.len(),
{
    if text.len() == 0 {
        seq![]
    } else {
        (if text[0] == '\n' {
            seq!['\\', 'n']
        } else {
            seq![text[0]]
        }) + on_one_line(text.skip(1))
    }
}

proof fn lemma_one_line_add(a: Seq<char>, b: Seq<char>)
    ensures
        on_one_line(a + b) == on_one_line(a) + on_one_line(b),
    decreases a.len(),
{
    if a.len() == 0 {
        assert(a + b =~= b);
        assert(on_one_line(a) + on_one_line(b) =~= on_one_line(b));
    } else {
        lemma_one_line_add(a.skip(1), b);
        assert((a + b).skip(1) =~= a.skip(1) + b);
        assert(on_one_line(a + b) =~= on_one_line(a) + on_one_line(b));
    }
}

proof fn lemma_some_span_text(text: Seq<char>, style: Style)
    ensures
        text_in(some_span(text, style)) == text,
{
    if text.len() > 0 {
        lemma_text_in_push(seq![], styled(text, style));
        assert(some_span(text, style) =~= Seq::<SpanView>::empty().push(styled(text, style)));
        assert(text_in(Seq::<SpanView>::empty()) + text =~= text);
    } else {
        assert(text =~= seq![]);
    }
}

proof fn lemma_broken_text(pending: Seq<char>, text: Seq<char>, style: Style)
    ensures
        text_in(broken(pending, text, style)) == pending + on_one_line(text),
    decreases text.len(),
{
    if text.len() == 0 {
        lemma_some_span_text(pending, style);
        assert(pending + on_one_line(text) =~= pending);
    } else if text[0] == '\n' {
        let head = some_span(pending, style);
        lemma_some_span_text(pending, style);
        lemma_text_in_push(head, newline_span());
        lemma_broken_text(seq![], text.skip(1), style);
        lemma_text_in_add(head.push(newline_span()), broken(seq![], text.skip(1), style));
        assert(text_in(broken(pending, text, style)) =~= pending + on_one_line(text));
    } else {
        lemma_broken_text(pending.push(text[0]), text.skip(1), style);
        assert(pending.push(text[0]) + on_one_line(text.skip(1)) =~= pending + on_one_line(text));
    }
}

/// Marking line breaks changes nothing else: the spans hold the same text, on one line.
pub proof fn lemma_marked_text(spans: Seq<SpanView>)
    ensures
        text_in(marked(spans)) == on_one_line(text_in(spans)),
    decreases spans.len(),
{
    if spans.len() > 0 {
        let front = spans.drop_last();
        let x = spans.last();
        lemma_marked_text(front);
        lemma_broken_text(seq![], x.text, x.style);
        lemma_text_in_add(marked(front), broken(seq![], x.text, x.style));
        lemma_one_line_add(text_in(front), x.text);
        assert(text_in(marked(spans)) =~= on_one_line(text_in(spans)));
    }
}

proof fn lemma_broken_one_line(pending: Seq<char>, text: Seq<char>, style: Style)
    requires
        !pending.contains('\n'),
    ensures
        forall|k: int| #![trigger broken(pending, text, style)[k]]
            0 <= k < broken(pending, text, style).len() ==> !broken(
                pending,
                text,
                style,
            )[k].text.contains('\n'),
    decreases text.len(),
{
    if text.len() > 0 {
        if text[0] == '\n' {
            lemma_broken_one_line(seq![], text.skip(1), style);
        } else {
            assert forall|k: int| 0 <= k < pending.push(text[0]).len() implies #[trigger]
                pending.push(text[0])[k] != '\n' by {
                if k < pending.len() {
                    assert(pending.contains(pending[k]));
                }
            }
            lemma_broken_one_line(pending.push(text[0]), text.skip(1), style);
        }
    }
}

/// No line break is left in any span.
pub proof fn lemma_marked_one_line(spans: Seq<SpanView>)
    ensures
        forall|k: int| #![trigger marked(spans)[k]]
            0 <= k < marked(spans).len() ==> !marked(spans)[k].text.contains('\n'),
    decreases spans.len(),
{
    if spans.len() > 0 {
        lemma_marked_one_line(spans.drop_last());
        lemma_broken_one_line(seq![], spans.last().text, spans.last().style);
    }
}

/// The style of each character of the spans, in a row.
pub open spec fn styles_in(spans: Seq<SpanView>) -> Seq<Style>
    decreases spans.len(),
{
    if spans.len() == 0 {
        seq![]
    } else {
        styles_in(spans.drop_last()) + Seq::new(
            spans.last().text.len(),
            |i: int| spans.last().style,
        )
    }
}

/// Whether byte `at` lies in one of the ranges, grown to whole characters.
spec fn covered(text: Seq<char>, ranges: Seq<(usize, usize)>, at: int) -> bool {
    exists|k: int|
        0 <= k < ranges.len() && boundary_before(text, (#[trigger] ranges[k]).0 as int) <= at
            < boundary_after(text, ranges[k].1 as int)
}

proof fn lemma_last_before(s: Seq<char>, pos: int, b: int)
    requires
        is_boundary(s, b),
        0 <= b <= pos,
    ensures
        b <= boundary_before(s, pos),
    decreases pos,
{
    lemma_boundary_is_offset(s, b);
    lemma_index_mono(s, b, b);
    lemma_offset_ends(s);
    if char_index(s, b) < s.len() {
        lemma_offset_mono(s, char_index(s, b), s.len() as int);
    }
    if 0 < pos <= byte_len(s) && !is_boundary(s, pos) {
        lemma_last_before(s, pos - 1, b);
    }
}

proof fn lemma_first_after(s: Seq<char>, pos: int, b: int)
    requires
        is_boundary(s, b),
        pos <= b,
    ensures
        boundary_after(s, pos) <= b,
    decreases byte_len(s) - pos,
{
    lemma_boundary_is_offset(s, b);
    lemma_index_mono(s, b, b);
    lemma_offset_ends(s);
    if char_index(s, b) < s.len() {
        lemma_offset_mono(s, char_index(s, b), s.len() as int);
    }
    if pos < byte_len(s) && !is_boundary(s, pos) {
        lemma_first_after(s, pos + 1, b);
    }
}

proof fn lemma_before_boundary(s: Seq<char>, b: int, j: int)
    requires
        is_boundary(s, b),
        0 <= j < s.len(),
    ensures
        j < char_index(s, b) <==> offset(s, j) < b,
{
    lemma_boundary_is_offset(s, b);
    lemma_index_mono(s, b, b);
    let k = char_index(s, b);
    if j < k {
        lemma_offset_mono(s, j, k);
    } else if k < j {
        lemma_offset_mono(s, k, j);
    }
}

proof fn lemma_styles_push(spans: Seq<SpanView>, span: SpanView)
    ensures
        styles_in(spans.push(span)) == styles_in(spans) + Seq::new(
            span.text.len(),
            |i: int| span.style,
        ),
{
    assert(spans.push(span).drop_last() =~= spans);
}

#[verifier::rlimit(60)]
proof fn lemma_range_styles(text: Seq<char>, ranges: Seq<(usize, usize)>, base: Style)
    requires
        apart(text, ranges),
        forall|k: int| #![trigger ranges[k]] 0 <= k < ranges.len() ==> ranges[k].0 < ranges[k].1,
    ensures
        ({
            let (spans, last) = range_spans(text, ranges, base);
            &&& is_boundary(text, last)
            &&& styles_in(spans).len() == char_index(text, last)
            &&& 0 <= char_index(text, last) <= text.len()
            &&& forall|k: int| #![trigger ranges[k]]
                0 <= k < ranges.len() ==> boundary_after(text, ranges[k].1 as int) <= last
            &&& forall|j: int| #![trigger styles_in(spans)[j]]
                0 <= j < char_index(text, last) ==> styles_in(spans)[j] == if covered(
                    text,
                    ranges,
                    offset(text, j),
                ) {
                    patched(base, highlight_style())
                } else {
                    base
                }
        }),
    decreases ranges.len(),
{
    lemma_range_spans_text(text, ranges, base);
    if ranges.len() == 0 {
        lemma_boundary_ends(text);
        lemma_boundary_is_offset(text, 0);
        if char_index(text, 0) > 0 {
            lemma_offset_mono(text, 0, char_index(text, 0));
            lemma_offset_ends(text);
        }
    } else {
        let front = ranges.drop_last();
        let top = patched(base, highlight_style());
        assert forall|k: int| 0 < k < front.len() implies boundary_after(
            text,
            front[k - 1].1 as int,
        ) <= boundary_before(text, (#[trigger] front[k]).0 as int) by {
            assert(ranges[k] == front[k]);
        }
        assert forall|k: int| #![trigger front[k]] 0 <= k < front.len() implies front[k].0
            < front[k].1 by {
            assert(ranges[k] == front[k]);
        }
        lemma_range_styles(text, front, base);
        lemma_range_spans_text(text, front, base);
        let (spans, last) = range_spans(text, front, base);
        let n = ranges.len() - 1;
        let r = ranges[n];
        let start = boundary_before(text, r.0 as int);
        let end = boundary_after(text, r.1 as int);
        lemma_boundary_before(text, r.0 as int);
        lemma_boundary_after(text, r.1 as int);
        assert(last <= start) by {
            if n > 0 {
                assert(ranges[n - 1] == front.last());
            }
        }
        assert(start <= end);
        lemma_index_mono(text, last, start);
        lemma_index_mono(text, start, end);
        let gap = styled(between(text, last, start), base);
        let hit = styled(between(text, start, end), top);
        lemma_styles_push(spans, gap);
        let with_gap = if start > last { spans.push(gap) } else { spans };
        lemma_styles_push(with_gap, hit);
        let (all, to) = range_spans(text, ranges, base);
        assert(to == end);
        assert forall|k: int| #![trigger ranges[k]] 0 <= k < ranges.len() implies boundary_after(
            text,
            ranges[k].1 as int,
        ) <= end by {
            if k < n {
                assert(front[k] == ranges[k]);
            }
        }
        let styles = styles_in(all);
        assert(styles.len() == char_index(text, end));
        assert forall|j: int| #![trigger styles[j]] 0 <= j < char_index(text, end) implies styles[j]
            == if covered(text, ranges, offset(text, j)) {
            top
        } else {
            base
        } by {
            let at = offset(text, j);
            lemma_before_boundary(text, last, j);
            lemma_before_boundary(text, start, j);
            lemma_before_boundary(text, end, j);
            assert(covered(text, ranges, at) <==> covered(text, front, at) || start <= at < end) by {
                if covered(text, front, at) {
                    let k = choose|k: int|
                        0 <= k < front.len() && boundary_before(
                            text,
                            (#[trigger] front[k]).0 as int,
                        ) <= at < boundary_after(text, front[k].1 as int);
                    assert(ranges[k] == front[k]);
                }
                if start <= at < end {
                    assert(ranges[n] == r);
                }
                if covered(text, ranges, at) {
                    let k = choose|k: int|
                        0 <= k < ranges.len() && boundary_before(
                            text,
                            (#[trigger] ranges[k]).0 as int,
                        ) <= at < boundary_after(text, ranges[k].1 as int);
                    if k < n {
                        assert(front[k] == ranges[k]);
                    }
                }
            }
            if at >= last {
                assert(!covered(text, front, at));
            }
            if j < char_index(text, last) {
                assert(styles[j] == styles_in(spans)[j]);
            }
        }
    }
}

proof fn lemma_expanded_holds(ranges: Seq<(usize, usize)>, p: int)
    ensures
        expanded(ranges).contains(p) <==> exists|k: int|
            0 <= k < ranges.len() && (#[trigger] ranges[k]).0 <= p < ranges[k].1,
    decreases ranges.len(),
{
    if ranges.len() > 0 {
        let front = ranges.drop_last();
        let n = ranges.len() - 1;
        let (a, b) = ranges.last();
        lemma_expanded_holds(front, p);
        let e = expanded(front);
        let all = expanded(ranges);
        if all.contains(p) {
            let i = choose|i: int| 0 <= i < all.len() && all[i] == p;
            if i < e.len() {
                assert(e[i] == p);
                let k = choose|k: int|
                    0 <= k < front.len() && (#[trigger] front[k]).0 <= p < front[k].1;
                assert(ranges[k] == front[k]);
            } else {
                assert(ranges[n].0 <= p < ranges[n].1);
            }
        }
        if exists|k: int| 0 <= k < ranges.len() && (#[trigger] ranges[k]).0 <= p < ranges[k].1 {
            let k = choose|k: int|
                0 <= k < ranges.len() && (#[trigger] ranges[k]).0 <= p < ranges[k].1;
            if k < n {
                assert(front[k] == ranges[k]);
                let i = choose|i: int| 0 <= i < e.len() && e[i] == p;
                assert(all[i] == p);
            } else {
                assert(all[e.len() + p - a] == p);
            }
        }
    }
}

#[verifier::rlimit(60)]
proof fn lemma_covered_is_matched(text: Seq<char>, indices: Seq<usize>, j: int)
    requires
        forall|k: int| 0 <= k < indices.len() ==> #[trigger] indices[k] < usize::MAX,
        0 <= j < text.len(),
    ensures
        covered(text, ranges_of(indices), offset(text, j)) <==> exists|m: int|
            0 <= m < indices.len() && offset(text, j) <= #[trigger] indices[m] < offset(text, j + 1),
{
    let ranges = ranges_of(indices);
    let ints = indices.map_values(|i: usize| i as int);
    let (from, to) = (offset(text, j), offset(text, j + 1));
    lemma_ranges_expand(indices);
    lemma_offset_is_boundary(text, j);
    lemma_offset_is_boundary(text, j + 1);
    lemma_offset_mono(text, j, j + 1);
    if covered(text, ranges, from) {
        let k = choose|k: int|
            0 <= k < ranges.len() && boundary_before(text, (#[trigger] ranges[k]).0 as int) <= from
                < boundary_after(text, ranges[k].1 as int);
        let (a, b) = ranges[k];
        let p = if from < a { a as int } else { from };
        if to <= a {
            lemma_last_before(text, a as int, to);
        }
        if b <= from {
            lemma_first_after(text, b as int, from);
        }
        assert(ranges[k].0 <= p < ranges[k].1);
        lemma_expanded_holds(ranges, p);
        let m = choose|m: int| 0 <= m < ints.len() && ints[m] == p;
        assert(from <= indices[m] < to);
    }
    if exists|m: int| 0 <= m < indices.len() && from <= #[trigger] indices[m] < to {
        let m = choose|m: int| 0 <= m < indices.len() && from <= #[trigger] indices[m] < to;
        let p = indices[m] as int;
        assert(ints[m] == p);
        assert(ints.contains(p));
        lemma_expanded_holds(ranges, p);
        let k = choose|k: int| 0 <= k < ranges.len() && (#[trigger] ranges[k]).0 <= p < ranges[k].1;
        let (a, b) = ranges[k];
        lemma_boundary_before(text, a as int);
        lemma_boundary_after(text, b as int);
        let start = boundary_before(text, a as int);
        lemma_boundary_is_offset(text, start);
        lemma_index_mono(text, start, start);
        if from < start {
            let i = char_index(text, start);
            if i <= j {
                if i < j {
                    lemma_offset_mono(text, i, j);
                }
            } else if i > j + 1 {
                lemma_offset_mono(text, j + 1, i);
            }
        }
        lemma_offset_ends(text);
        if j + 1 < text.len() {
            lemma_offset_mono(text, j + 1, text.len() as int);
        }
        assert(boundary_before(text, ranges[k].0 as int) <= from < boundary_after(
            text,
            ranges[k].1 as int,
        ));
    }
}

/// A character is yellow and bold exactly if one of the matched bytes is a byte of it; it keeps the
/// ground it stands on. Every other character is shown in the style of the row.
#[verifier::rlimit(60)]
pub proof fn lemma_highlighted_styles(text: Seq<char>, indices: Seq<usize>, base: Style, j: int)
    requires
        forall|k: int| 0 <= k < indices.len() ==> #[trigger] indices[k] < usize::MAX,
        apart(text, ranges_of(indices)),
        0 <= j < text.len(),
    ensures
        styles_in(highlighted(text, indices, base)).len() == text.len(),
        ({
            let style = styles_in(highlighted(text, indices, base))[j];
            let matched = exists|m: int|
                0 <= m < indices.len() && byte_len(text.take(j)) <= #[trigger] indices[m] < byte_len(
                    text.take(j + 1),
                );
            &&& matched ==> style.fg == Some(Color::Yellow) && style.bold && style.bg == base.bg
                && style.reversed == base.reversed
            &&& !matched ==> style == base
        }),
{
    lemma_covered_is_matched(text, indices, j);
    let spans = highlighted(text, indices, base);
    let none = Seq::<SpanView>::empty();
    if indices.len() == 0 {
        lemma_styles_push(none, styled(text, base));
        assert(none.push(styled(text, base)) =~= spans);
        assert(styles_in(spans) =~= Seq::new(text.len(), |i: int| base));
    } else {
        let ranges = ranges_of(indices);
        lemma_ranges_expand(indices);
        lemma_range_styles(text, ranges, base);
        let (head, last) = range_spans(text, ranges, base);
        let n = byte_len(text) as int;
        lemma_boundary_ends(text);
        lemma_boundary_is_offset(text, last);
        lemma_boundary_is_offset(text, n);
        lemma_offset_ends(text);
        if char_index(text, n) < text.len() {
            lemma_offset_mono(text, char_index(text, n), text.len() as int);
        }
        if char_index(text, last) < text.len() {
            lemma_offset_mono(text, char_index(text, last), text.len() as int);
        }
        lemma_before_boundary(text, last, j);
        if last < n {
            lemma_styles_push(head, styled(between(text, last, n), base));
        }
        if j < char_index(text, last) {
            assert(styles_in(spans)[j] == styles_in(head)[j]);
        } else {
            assert(!covered(text, ranges, offset(text, j)));
        }
    }
}

proof fn lemma_unbroken(pending: Seq<char>, text: Seq<char>, rest: Seq<char>, style: Style)
    requires
        !text.contains('\n'),
    ensures
        broken(pending, text + rest, style) == broken(pending + text, rest, style),
    decreases text.len(),
{
    if text.len() == 0 {
        assert(text + rest =~= rest);
        assert(pending + text =~= pending);
    } else {
        assert(text.contains(text[0]));
        assert((text + rest)[0] == text[0]);
        assert((text + rest).skip(1) =~= text.skip(1) + rest);
        assert forall|k: int| 0 <= k < text.skip(1).len() implies #[trigger] text.skip(1)[k] != '\n' by {
            assert(text.contains(text[k + 1]));
        }
        lemma_unbroken(pending.push(text[0]), text.skip(1), rest, style);
        assert(pending.push(text[0]) + text.skip(1) =~= pending + text);
    }
}

/// A line break shows as a cyan mark between what stands before it and what comes behind it, each in
/// its own style. A span without a line break stays as it is.
#[verifier::rlimit(60)]
pub proof fn lemma_break_mark(line: Seq<char>, rest: Seq<char>, style: Style)
    requires
        line.len() > 0,
        !line.contains('\n'),
    ensures
        ({
            let shown = marked(seq![SpanView { text: line + seq!['\n'] + rest, style }]);
            let after = marked(seq![SpanView { text: rest, style }]);
            &&& shown.len() == 2 + after.len()
            &&& shown[0] == (SpanView { text: line, style })
            &&& shown[1].text == seq!['\\', 'n']
            &&& shown[1].style == (Style {
                fg: Some(Color::Cyan),
                bg: None,
                bold: false,
                reversed: false,
            })
            &&& shown.skip(2) == after
        }),
        marked(seq![SpanView { text: line, style }]) == seq![SpanView { text: line, style }],
{
    let none = Seq::<char>::empty();
    let one = seq![SpanView { text: line + seq!['\n'] + rest, style }];
    let two = seq![SpanView { text: rest, style }];
    let three = seq![SpanView { text: line, style }];
    assert(marked(Seq::<SpanView>::empty()) =~= seq![]);
    assert(one.drop_last() =~= seq![]);
    assert(two.drop_last() =~= seq![]);
    assert(three.drop_last() =~= seq![]);
    assert(marked(one) =~= broken(none, line + seq!['\n'] + rest, style));
    assert(marked(two) =~= broken(none, rest, style));
    assert(marked(three) =~= broken(none, line, style));
    let tail = seq!['\n'] + rest;
    assert(line + seq!['\n'] + rest =~= line + tail);
    lemma_unbroken(none, line, tail, style);
    lemma_unbroken(none, line, none, style);
    assert(line + none =~= line);
    assert(none + line =~= line);
    assert(tail.skip(1) =~= rest);
    assert(marked(one).skip(2) =~= marked(two));
}

/// Marking the breaks of spans in a row marks those of each.
pub proof fn lemma_marks_in_a_row(spans: Seq<SpanView>, span: SpanView)
    ensures
        marked(spans.push(span)) == marked(spans) + marked(seq![span]),
{
    assert(spans.push(span).drop_last() =~= spans);
    assert(marked(Seq::<SpanView>::empty()) =~= seq![]);
    assert(seq![span].drop_last() =~= seq![]);
    assert(marked(seq![span]) =~= broken(seq![], span.text, span.style));
}

} // verus!
