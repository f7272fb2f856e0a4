//! What holds of what is shown.

use super::app::{topped_up, AppView};
use super::draw::{
    centering, inner_area, may_split, patched, Borders, Color, Constraint, DrawView, ItemView, Rect,
    SpanView, Style,
};
use super::filter::Rank;
use super::highlight::{
    apart, highlighted, lemma_highlighted_text, lemma_marked_text, marked, on_one_line, ranges_of,
    text_in,
};
use super::list_laws::{lemma_topping_up, lemma_total};
use super::overlay::{OverlayFocus, OverlayRightFocus, TimeField};
use super::panes::{
    dir_pane, host_pane, name_item, name_items, over_drawn, overlay_drawn, overlay_drawn_in,
    overlay_left_drawn, page_drawn, page_item, pane_drawn, pane_drawn_in, screen_drawn,
    screen_drawn_in, time_drawn, time_drawn_in, time_style, PaneView,
};
use super::render::{
    cursor_column, cursor_line, detail_lines, details_drawn, input_drawn,
    lines_of, list_and_details_drawn, list_and_details_drawn_in, list_drawn, list_drawn_in,
    may_show_times, panel_drawn, row_entry, row_item, rows, rows_drawn, status_count,
    status_drawn, status_drawn_in, status_text, text_field_drawn,
};
use super::time::{may_read, may_show_column, may_show_full};
use crate::db::HistoryEntry;
use crate::format::{int_text, nat_text};
use crate::text::{lemma_encode_concat, trimmed};
use vstd::prelude::*;
use vstd::utf8::encode_utf8;

verus! {

/// The style without colour and emphasis.
pub open spec fn is_bare(style: Style) -> bool {
    style.fg is None && style.bg is None && !style.bold && !style.reversed
}

proof fn lemma_text_of_one(a: SpanView)
    ensures
        text_in(seq![a]) == a.text,
{
    assert(seq![a].drop_last() =~= Seq::<SpanView>::empty());
    assert(text_in(Seq::<SpanView>::empty()) + a.text =~= a.text);
}

proof fn lemma_text_of_two(a: SpanView, b: SpanView)
    ensures
        text_in(seq![a, b]) == a.text + b.text,
{
    lemma_text_of_one(a);
    assert(seq![a, b].drop_last() =~= seq![a]);
}

proof fn lemma_text_of_three(a: SpanView, b: SpanView, c: SpanView)
    ensures
        text_in(seq![a, b, c]) == a.text + b.text + c.text,
{
    lemma_text_of_two(a, b);
    assert(seq![a, b, c].drop_last() =~= seq![a, b]);
}

proof fn lemma_text_behind(head: Seq<SpanView>, tail: Seq<SpanView>)
    ensures
        text_in(head + tail) == text_in(head) + text_in(tail),
    decreases tail.len(),
{
    if tail.len() == 0 {
        assert(head + tail =~= head);
        assert(text_in(head) + text_in(tail) =~= text_in(head));
    } else {
        lemma_text_behind(head, tail.drop_last());
        assert((head + tail).drop_last() =~= head + tail.drop_last());
        assert(text_in(head + tail) =~= text_in(head) + text_in(tail));
    }
}

/// The styles: bold for titles, yellow and bold for matches, bold on a grey ground for the selected
/// row.
pub proof fn lemma_styles(c: Color)
    ensures
        is_bare(super::draw::plain()),
        super::draw::bold_style() == (Style { fg: None, bg: None, bold: true, reversed: false }),
        super::draw::colored(c) == (Style { fg: Some(c), bg: None, bold: false, reversed: false }),
        super::draw::highlight_style() == (Style {
            fg: Some(Color::Yellow),
            bg: None,
            bold: true,
            reversed: false,
        }),
        super::draw::selected_style() == (Style {
            fg: None,
            bg: Some(Color::Indexed(234)),
            bold: true,
            reversed: false,
        }),
{
}

/// Of two styles on top of each other the colours of the upper one win where it has any, those of
/// the lower one show through otherwise, and emphasis adds up.
pub proof fn lemma_style_on_style(base: Style, top: Style)
    ensures
        top.fg is Some ==> patched(base, top).fg == top.fg,
        top.fg is None ==> patched(base, top).fg == base.fg,
        top.bg is Some ==> patched(base, top).bg == top.bg,
        top.bg is None ==> patched(base, top).bg == base.bg,
        patched(base, top).bold == (base.bold || top.bold),
        patched(base, top).reversed == (base.reversed || top.reversed),
{
}

/// The inside of a frame with borders all around leaves out one row and one column on each side. One
/// without borders, or with one at the right, leaves out that column and the row of its title.
pub proof fn lemma_inside_of_frame(area: Rect)
    requires
        area.x < 65535,
        area.y < 65535,
        area.width >= 2,
        area.height >= 2,
    ensures
        inner_area(Borders::All, true, area) == (Rect {
            x: (area.x + 1) as u16,
            y: (area.y + 1) as u16,
            width: (area.width - 2) as u16,
            height: (area.height - 2) as u16,
        }),
        inner_area(Borders::Bare, true, area) == (Rect {
            x: area.x,
            y: (area.y + 1) as u16,
            width: area.width,
            height: (area.height - 1) as u16,
        }),
        inner_area(Borders::Bare, false, area) == area,
        inner_area(Borders::Right, false, area) == (Rect {
            width: (area.width - 1) as u16,
            ..area
        }),
{
}

/// The inside of a frame is never larger than the frame and never outside it; a frame that is too
/// small has nothing inside.
pub proof fn lemma_inside_is_inside(borders: Borders, has_title: bool, area: Rect)
    requires
        area.x + area.width < 65536,
        area.y + area.height < 65536,
    ensures
        ({
            let inner = inner_area(borders, has_title, area);
            &&& area.x <= inner.x && inner.x + inner.width <= area.x + area.width
            &&& area.y <= inner.y && inner.y + inner.height <= area.y + area.height
            &&& borders == Borders::All && area.width < 2 ==> inner.width == 0
            &&& borders == Borders::All && area.height < 2 ==> inner.height == 0
            &&& borders == Borders::Right && area.width == 0 ==> inner.width == 0
            &&& has_title && area.height == 0 ==> inner.height == 0
        }),
{
}

/// A frame shows its title in the style that is asked for and nothing else in any; that of the list is
/// bold, and that of the overlay too, whose border is cyan.
pub proof fn lemma_frames(borders: Borders, title: Seq<char>, style: Style)
    ensures
        super::draw::titled(borders, title, style).borders == borders,
        super::draw::titled(borders, title, style).title == Some(title),
        super::draw::titled(borders, title, style).title_style == style,
        is_bare(super::draw::titled(borders, title, style).border_style),
        is_bare(super::draw::titled(borders, title, style).style),
        super::render::list_block().title_style.bold,
        is_bare(super::render::list_block().border_style),
        super::panes::overlay_block().borders == Borders::All,
        super::panes::overlay_block().title_style.bold,
        super::panes::overlay_block().border_style.fg == Some(Color::Cyan),
        is_bare(super::panes::overlay_block().style),
{
}

/// What is centred lies in the middle of the three columns of the middle of three rows.
pub proof fn lemma_centred(width: u16, height: u16, area: Rect, r: Rect)
    requires
        super::draw::may_centre(width, height, area, r),
        width <= 100,
        height <= 100,
    ensures
        exists|rows: Seq<Rect>, columns: Seq<Rect>|
            #![trigger may_split(area, true, centering(height), rows),
                may_split(rows[1], false, centering(width), columns)]
            {
                &&& may_split(area, true, centering(height), rows)
                &&& may_split(rows[1], false, centering(width), columns)
                &&& r == columns[1] && r.y == rows[1].y && r.height == rows[1].height
            },
{
    let (rows, columns) = choose|rows: Seq<Rect>, columns: Seq<Rect>|
        #![trigger may_split(area, true, centering(height), rows),
            may_split(rows[1], false, centering(width), columns)]
        may_split(area, true, centering(height), rows) && may_split(
            rows[1],
            false,
            centering(width),
            columns,
        ) && r == columns[1];
    assert(may_split(area, true, centering(height), rows));
    assert(may_split(rows[1], false, centering(width), columns));
}

/// What lies in the middle gets its percentage, and each side half of the rest.
pub proof fn lemma_centering(percent: u16)
    requires
        percent <= 100,
    ensures
        centering(percent).len() == 3,
        centering(percent)[1] == Constraint::Percentage(percent),
        centering(percent)[0] == centering(percent)[2],
        centering(percent)[0] matches Constraint::Percentage(p) && 2 * p <= 100 - percent < 2 * p + 2,
{
}

/// A text with a cursor in it is shown whole; the character at the cursor, and no other, is reversed,
/// and behind the text nothing is.
pub proof fn lemma_cursor_shown(before: Seq<char>, after: Seq<char>, style: Style)
    ensures
        ({
            let line = cursor_line(before + after, encode_utf8(before).len() as int, style);
            &&& text_in(line) == before + after
            &&& line.len() == 3
            &&& line[0].text == before && line[0].style == style
            &&& after.len() > 0 ==> line[1].text == seq![after[0]] && line[2].text == after.skip(1)
            &&& after.len() == 0 ==> line[1].text.len() == 0 && line[2].text.len() == 0
            &&& line[1].style == (Style { reversed: true, ..style })
            &&& line[2].style == style
        }),
{
    let s = before + after;
    let n = before.len() as int;
    assert(s.take(n) =~= before);
    crate::text::lemma_offset_is_boundary(s, n);
    let line = cursor_line(s, encode_utf8(before).len() as int, style);
    lemma_text_of_three(line[0], line[1], line[2]);
    assert(line =~= seq![line[0], line[1], line[2]]);
    if after.len() > 0 {
        assert(s.subrange(n, n + 1) =~= seq![after[0]]);
        assert(s.skip(n + 1) =~= after.skip(1));
    }
    assert(text_in(line) =~= s);
}

/// The column of a cursor lies as many bytes to the right of the text's start as there are before it.
pub proof fn lemma_cursor_column(x: u16, cursor: int)
    requires
        0 <= cursor,
    ensures
        x + cursor < 65536 ==> cursor_column(x, cursor) == x + cursor,
        (x + cursor - cursor_column(x, cursor)) % 65536 == 0,
{
}

/// The input line shows what is typed, in a frame with the title Search, with the cursor inside; and a
/// hint while nothing is typed.
#[verifier::rlimit(60)]
pub proof fn lemma_input_shown(s: AppView, before: Seq<char>, after: Seq<char>, area: Rect)
    requires
        s.input == before + after,
        s.cursor == encode_utf8(before).len(),
        area.x < 65535,
        area.y < 65535,
        area.width >= 2,
        area.height >= 2,
        area.x + 1 + encode_utf8(before).len() < 65536,
    ensures
        ({
            let draws = input_drawn(s, area);
            &&& draws.len() >= 1
            &&& draws[0] matches DrawView::Paragraph(lines, Some(block), at) && {
                &&& at == area && lines.len() == 1 && block.borders == Borders::All && block.title
                    == Some("Search"@)
                &&& s.input.len() > 0 ==> text_in(lines[0]) == s.input && lines[0] == cursor_line(
                    s.input,
                    s.cursor as int,
                    Style { fg: None, bg: None, bold: false, reversed: false },
                )
                &&& s.input.len() == 0 ==> text_in(lines[0]) == "Type to filter..."@
                    && lines[0].len() == 1 && lines[0][0].style.fg == Some(Color::DarkGray)
                &&& block.title_style.bold && is_bare(block.border_style) && is_bare(block.style)
            }
            &&& s.input.len() == 0 ==> draws.len() == 1
            &&& s.input.len() > 0 ==> draws.len() == 2 && draws[1] == DrawView::Cursor(
                (area.x + 1 + encode_utf8(before).len()) as u16,
                (area.y + 1) as u16,
            )
        }),
{
    lemma_cursor_shown(before, after, super::draw::plain());
    lemma_text_of_one(
        super::draw::styled("Type to filter..."@, super::draw::colored(Color::DarkGray)),
    );
}

/// A text field shows its text in its style, or its title where it has none; an active one shows its
/// cursor and has a cyan title; a highlighted one has a grey ground.
#[verifier::rlimit(60)]
pub proof fn lemma_field_shown(
    area: Rect,
    before: Seq<char>,
    after: Seq<char>,
    active: bool,
    title: Seq<char>,
    style: Style,
    highlight: bool,
)
    ensures
        ({
            let text = before + after;
            let cursor = encode_utf8(before).len() as int;
            let draws = text_field_drawn(area, text, cursor, active, title, style, highlight);
            &&& draws.len() == (if active && text.len() > 0 { 2int } else { 1 })
            &&& draws[0] matches DrawView::Paragraph(lines, Some(block), at) && {
                &&& at == area && lines.len() == 1 && block.title == Some(title) && block.borders
                    == Borders::All
                &&& text_in(lines[0]) == (if text.len() > 0 { text } else { title })
                &&& active && text.len() > 0 ==> lines[0] == cursor_line(text, cursor, style)
                &&& !active && text.len() > 0 ==> lines[0].len() == 1 && lines[0][0].style == style
                &&& text.len() == 0 ==> lines[0][0].style.fg == Some(Color::DarkGray)
                &&& block.title_style.fg == (if active { Some(Color::Cyan) } else { None })
                &&& block.style.bg == (if highlight { Some(Color::Indexed(234)) } else { None })
            }
            &&& draws.len() == 2 ==> (draws[1] matches DrawView::Cursor(x, y) && x == cursor_column(
                inner_area(Borders::All, true, area).x,
                cursor,
            ) && y == inner_area(Borders::All, true, area).y)
        }),
{
    let text = before + after;
    lemma_cursor_shown(before, after, style);
    lemma_encode_concat(before, after);
    lemma_text_of_one(super::draw::styled(title, super::draw::colored(Color::DarkGray)));
    lemma_text_of_one(super::draw::styled(text, style));
}

/// A cursor behind the end of a text is shown at its end.
pub proof fn lemma_cursor_behind_text(
    area: Rect,
    text: Seq<char>,
    cursor: int,
    active: bool,
    title: Seq<char>,
    style: Style,
    highlight: bool,
)
    requires
        cursor >= encode_utf8(text).len(),
    ensures
        text_field_drawn(area, text, cursor, active, title, style, highlight) == text_field_drawn(
            area,
            text,
            encode_utf8(text).len() as int,
            active,
            title,
            style,
            highlight,
        ),
{
}

/// The texts, with a line break between each two of them.
pub open spec fn with_breaks(lines: Seq<Seq<char>>) -> Seq<char>
    decreases lines.len(),
{
    if lines.len() == 0 {
        seq![]
    } else if lines.len() == 1 {
        lines[0]
    } else {
        lines[0] + seq!['\n'] + with_breaks(lines.skip(1))
    }
}

/// Splitting a text into lines loses nothing but the line breaks between them, and leaves none.
pub proof fn lemma_lines(pending: Seq<char>, text: Seq<char>)
    requires
        !pending.contains('\n'),
    ensures
        with_breaks(lines_of(pending, text)) == pending + text,
        lines_of(pending, text).len() >= 1,
        forall|k: int| #![trigger lines_of(pending, text)[k]]
            0 <= k < lines_of(pending, text).len() ==> !lines_of(pending, text)[k].contains('\n'),
    decreases text.len(),
{
    let lines = lines_of(pending, text);
    if text.len() == 0 {
        assert(pending + text =~= pending);
    } else if text[0] == '\n' {
        lemma_lines(seq![], text.skip(1));
        let rest = lines_of(seq![], text.skip(1));
        assert(lines.skip(1) =~= rest);
        assert(seq![] + text.skip(1) =~= text.skip(1));
        assert(pending + seq!['\n'] + text.skip(1) =~= pending + text);
        assert forall|k: int| #![trigger lines[k]] 0 <= k < lines.len() implies !lines[k].contains(
            '\n',
        ) by {
            if k > 0 {
                assert(lines[k] == rest[k - 1]);
            }
        }
    } else {
        assert forall|k: int| 0 <= k < pending.push(text[0]).len() implies #[trigger]
            pending.push(text[0])[k] != '\n' by {
            if k < pending.len() {
                assert(pending.contains(pending[k]));
            }
        }
        lemma_lines(pending.push(text[0]), text.skip(1));
        assert(pending.push(text[0]) + text.skip(1) =~= pending + text);
    }
}

/// The details of an entry show, each behind its label, the host, the session, the directory, the
/// start time, the score where there is a match, how long it ran and its exit status; then the
/// command, line by line.
#[verifier::rlimit(60)]
pub proof fn lemma_details_shown(e: HistoryEntry, rank: Rank, time: Seq<char>)
    ensures
        ({
            let lines = detail_lines(e, rank, time);
            let matched = rank.score != 0 || rank.begin != 0 || rank.end != 0 || rank.length != 0
                || rank.index != 0 || rank.path_name_offset != 0;
            let n: int = if matched { 5 } else { 4 };
            let command = lines_of(seq![], e.argv@);
            &&& lines.len() == n + 4 + command.len()
            &&& text_in(lines[0]) == "Host:        "@ + e.host@
            &&& text_in(lines[1]) == "Session:     "@ + int_text(e.session as int)
            &&& text_in(lines[2]) == "Directory:   "@ + e.dir@
            &&& text_in(lines[3]) == "Start Time:  "@ + time
            &&& matched ==> text_in(lines[4]) == "Score:       "@ + int_text(rank.score as int)
            &&& e.duration matches Some(d) ==> text_in(lines[n]) == "Runtime:     "@ + (int_text(
                d as int,
            ) + "ms"@)
            &&& e.duration is None ==> text_in(lines[n]) == "Runtime:     "@ + seq!['-']
            &&& e.exit_status matches Some(x) ==> text_in(lines[n + 1]) == "Exit Status: "@
                + int_text(x as int)
            &&& e.exit_status is None ==> text_in(lines[n + 1]) == "Exit Status: "@ + seq!['-']
            &&& text_in(lines[n + 2]) == "Command:     "@
            &&& lines[n + 3].len() == 0
            &&& forall|k: int| #![trigger lines[k]]
                0 <= k < n + 2 ==> lines[k].len() == 2 && lines[k][0].style.bold && is_bare(
                    lines[k][1].style,
                )
            &&& forall|k: int| #![trigger lines[k]]
                n + 4 <= k < lines.len() ==> lines[k].len() == 1 && is_bare(lines[k][0].style)
            &&& forall|k: int| #![trigger command[k]]
                0 <= k < command.len() ==> text_in(lines[n + 4 + k]) == command[k]
        }),
{
    let lines = detail_lines(e, rank, time);
    let matched = rank.score != 0 || rank.begin != 0 || rank.end != 0 || rank.length != 0
        || rank.index != 0 || rank.path_name_offset != 0;
    let n: int = if matched { 5 } else { 4 };
    let command = lines_of(seq![], e.argv@);
    assert(matched <==> rank != super::filter::no_rank());
    assert forall|k: int| 0 <= k < n + 2 && (#[trigger] lines[k]).len() == 2 implies text_in(lines[k])
        == lines[k][0].text + lines[k][1].text by {
        lemma_text_of_two(lines[k][0], lines[k][1]);
        assert(lines[k] =~= seq![lines[k][0], lines[k][1]]);
    }
    assert(lines[0].len() == 2 && lines[1].len() == 2 && lines[2].len() == 2 && lines[3].len() == 2
        && lines[n].len() == 2 && lines[n + 1].len() == 2);
    assert(matched ==> lines[4].len() == 2);
    lemma_text_of_one(lines[n + 2][0]);
    assert(lines[n + 2] =~= seq![lines[n + 2][0]]);
    assert forall|k: int| #![trigger command[k]] 0 <= k < command.len() implies text_in(
        lines[n + 4 + k],
    ) == command[k] by {
        lemma_text_of_one(super::draw::raw(command[k]));
        assert(lines[n + 4 + k] == seq![super::draw::raw(command[k])]);
    }
}

/// The panel of details shows those of the entry in the selected row, under a title with its id, and
/// nothing where no entry is selected.
#[verifier::rlimit(60)]
pub proof fn lemma_details_panel(s: AppView, area: Rect, draws: Option<Seq<DrawView>>)
    requires
        details_drawn(s, area, draws),
    ensures
        s.selected < s.filtered.len() && s.filtered[s.selected as int].idx < s.entries.len() ==> {
            let fe = s.filtered[s.selected as int];
            let e = s.entries[fe.idx as int];
            match draws {
                Some(d) => exists|time: Seq<char>| #[trigger]
                    may_show_full(e.start_time, Some(time)) && d.len() == 1 && (d[0]
                        matches DrawView::Paragraph(lines, Some(block), at) && {
                        let shown = detail_lines(e, fe.rank, time);
                        &&& at == area
                        &&& block.title == Some("Details for "@ + int_text(e.id as int))
                        &&& block.borders == Borders::All && block.title_style.bold
                        &&& lines.len() >= shown.len()
                        &&& forall|k: int| #![trigger lines[k]]
                            0 <= k < lines.len() ==> if k < shown.len() {
                                lines[k] == shown[k]
                            } else {
                                lines[k].len() == 0
                            }
                    }),
                None => may_show_full(e.start_time, None),
            }
        },
        !(s.selected < s.filtered.len() && s.filtered[s.selected as int].idx < s.entries.len())
            ==> {
            &&& draws is Some && draws->0.len() == 1
            &&& draws->0[0] matches DrawView::Paragraph(lines, Some(block), at) && {
                &&& at == area && block.title == Some("Details"@)
                &&& forall|k: int| #![trigger lines[k]] 0 <= k < lines.len() ==> lines[k].len() == 0
            }
        },
{
    if s.selected < s.filtered.len() && s.filtered[s.selected as int].idx < s.entries.len() {
        let fe = s.filtered[s.selected as int];
        let e = s.entries[fe.idx as int];
        if let Some(d) = draws {
            let time = choose|time: Seq<char>| #[trigger]
                may_show_full(e.start_time, Some(time)) && d == panel_drawn(
                    detail_lines(e, fe.rank, time),
                    "Details for "@ + int_text(e.id as int),
                    area,
                );
            assert(may_show_full(e.start_time, Some(time)));
        }
    }
}

/// The row of a result shows the time in its column, two spaces, and the whole command on one line;
/// the selected row, and no other, has a ground.
pub proof fn lemma_row_shown(s: AppView, k: int, entry: HistoryEntry, time: Seq<char>)
    requires
        0 <= k,
        s.scroll + k < s.filtered.len(),
        forall|i: int|
            0 <= i < s.filtered[s.scroll + k].match_indices.len() ==> #[trigger] s.filtered[s.scroll
                + k].match_indices[i] < usize::MAX,
        apart(entry.argv@, ranges_of(s.filtered[s.scroll + k].match_indices)),
    ensures
        text_in(row_item(s, k, entry, time).line) == time + "  "@ + on_one_line(entry.argv@),
        s.scroll + k == s.selected ==> row_item(s, k, entry, time).style.bg == Some(
            Color::Indexed(234),
        ) && row_item(s, k, entry, time).style.bold,
        s.scroll + k != s.selected ==> is_bare(row_item(s, k, entry, time).style),
{
    let at = s.scroll + k;
    let base = row_item(s, k, entry, time).style;
    let spans = highlighted(entry.argv@, s.filtered[at].match_indices, base);
    lemma_highlighted_text(entry.argv@, s.filtered[at].match_indices, base);
    lemma_marked_text(spans);
    let head = seq![super::draw::raw(time), super::draw::raw("  "@)];
    lemma_text_of_two(head[0], head[1]);
    lemma_text_behind(head, marked(spans));
}

/// Whether `item` is the row of the result that lies `k` below the first in view, with its entry and
/// the start time of that entry.
pub open spec fn shows_row(s: AppView, k: int, item: ItemView) -> bool {
    let entry = s.entries[s.filtered[s.scroll + k].idx as int];
    exists|time: Seq<char>|
        may_show_column(entry.start_time, Some(time)) && item == #[trigger] row_item(
            s,
            k,
            entry,
            time,
        )
}

/// The rows of the list are those of the results from the first in view on, one below the other, as
/// many as fit, each for its own entry and with its own start time.
#[verifier::rlimit(60)]
pub proof fn lemma_rows_shown(s: AppView, n: int, items: Option<Seq<ItemView>>)
    requires
        rows_drawn(s, n, items),
        0 <= n,
        forall|i: int| #![trigger s.filtered[i]]
            0 <= i < s.filtered.len() ==> s.filtered[i].idx < s.entries.len(),
    ensures
        match items {
            Some(v) => {
                let left = if s.scroll < s.filtered.len() { s.filtered.len() - s.scroll } else { 0 };
                &&& v.len() == (if n < left { n } else { left })
                &&& forall|k: int| #![trigger v[k]]
                    0 <= k < v.len() ==> shows_row(s, k, v[k])
            },
            None => exists|k: int|
                0 <= k < n && s.scroll + k < s.filtered.len() && may_show_column(
                    s.entries[(#[trigger] s.filtered[s.scroll + k]).idx as int].start_time,
                    None,
                ),
        },
{
    match items {
        Some(v) => {
            let times = choose|times: Seq<Seq<char>>| #[trigger]
                may_show_times(s, n, times) && v == rows(s, n, times);
            lemma_rows_exact(s, n, times);
            assert forall|k: int| #![trigger v[k]] 0 <= k < v.len() implies shows_row(s, k, v[k]) by {
                assert(super::render::may_show_row(s, k, times[k]));
                assert(s.filtered[s.scroll + k].idx < s.entries.len());
                assert(v[k] == row_item(
                    s,
                    k,
                    s.entries[s.filtered[s.scroll + k].idx as int],
                    times[k],
                ));
            }
        },
        None => {
            let k = choose|k: int|
                0 <= k < n && (#[trigger] row_entry(s, k) matches Some(e) && may_show_column(
                    e.start_time,
                    None,
                ));
            assert(s.filtered[s.scroll + k].idx < s.entries.len());
        },
    }
}

proof fn lemma_rows_exact(s: AppView, n: int, times: Seq<Seq<char>>)
    requires
        0 <= n <= times.len(),
        forall|i: int| #![trigger s.filtered[i]]
            0 <= i < s.filtered.len() ==> s.filtered[i].idx < s.entries.len(),
    ensures
        ({
            let left = if s.scroll < s.filtered.len() { s.filtered.len() - s.scroll } else { 0 };
            &&& rows(s, n, times).len() == (if n < left { n } else { left })
            &&& forall|k: int| #![trigger rows(s, n, times)[k]]
                0 <= k < rows(s, n, times).len() ==> rows(s, n, times)[k] == row_item(
                    s,
                    k,
                    s.entries[s.filtered[s.scroll + k].idx as int],
                    times[k],
                )
        }),
    decreases n,
{
    if n > 0 {
        lemma_rows_exact(s, n - 1, times);
        if s.scroll + n - 1 < s.filtered.len() {
            assert(s.filtered[s.scroll + n - 1].idx < s.entries.len());
        }
        let all = rows(s, n, times);
        let rest = rows(s, n - 1, times);
        assert forall|k: int| #![trigger all[k]] 0 <= k < all.len() implies all[k] == row_item(
            s,
            k,
            s.entries[s.filtered[s.scroll + k].idx as int],
            times[k],
        ) by {
            if k < rest.len() {
                assert(all[k] == rest[k]);
            }
        }
    }
}

/// The list is drawn in a frame with the title History: a header over its columns and below it the
/// rows, as many as the lower part is high; that height is noted.
pub proof fn lemma_list_shown(
    s: AppView,
    area: Rect,
    parts: Seq<Rect>,
    t: AppView,
    draws: Option<Seq<DrawView>>,
)
    requires
        list_drawn_in(s, area, parts, t, draws),
    ensures
        t.list_height == parts[1].height,
        draws is None ==> rows_drawn(t, parts[1].height as int, None),
        draws matches Some(d) ==> {
            &&& d.len() == 3
            &&& d[0] matches DrawView::Frame(block, at) && at == area && block.title == Some(
                "History"@,
            ) && block.borders == Borders::All
            &&& d[1] matches DrawView::Paragraph(lines, None, at) && at == parts[0] && lines.len() == 1
                && text_in(lines[0]) == "       Time  Command"@ && lines[0].len() == 1
                && lines[0][0].style.bold
            &&& d[2] matches DrawView::List(items, None, at) && at == parts[1] && rows_drawn(
                t,
                parts[1].height as int,
                Some(items),
            )
        },
{
    lemma_text_of_one(
        super::draw::styled("       Time  Command"@, super::draw::bold_style()),
    );
}

/// Drawing the list changes nothing but what is listed and the height that is noted; and it lists so
/// many results that the rows in view are full, or all there are.
#[verifier::rlimit(60)]
pub proof fn lemma_view_filled(
    s: AppView,
    area: Rect,
    parts: Seq<Rect>,
    t: AppView,
    draws: Option<Seq<DrawView>>,
)
    requires
        list_drawn_in(s, area, parts, t, draws),
        s.filtered.len() + s.heap.len() < usize::MAX,
    ensures
        t == (AppView {
            filtered: t.filtered,
            heap: t.heap,
            list_height: parts[1].height,
            ..s
        }),
        s.filter_done ==> t.filtered.len() >= s.scroll + parts[1].height || t.filtered.len()
            == s.filtered.len() + s.heap.len(),
        s.filter_done ==> forall|k: int|
            0 <= k < s.filtered.len() ==> #[trigger] t.filtered[k] == s.filtered[k],
        !s.filter_done ==> t.filtered.len() >= s.scroll + parts[1].height || t.filtered.len()
            >= s.heap.len(),
{
    let height = parts[1].height;
    let u = AppView { list_height: height, ..s };
    let most = if s.filter_done { s.filtered.len() + s.heap.len() } else { s.heap.len() };
    lemma_total(u);
    let needed = if s.scroll + height < most { s.scroll + height } else { most as int };
    lemma_topping_up(u, needed, t);
}

/// The list is on the left and the details are on the right, each in one half; both show the state
/// that drawing leaves behind, in which the selected result is listed.
#[verifier::rlimit(60)]
pub proof fn lemma_list_beside_details(s: AppView, area: Rect, t: AppView, draws: Seq<DrawView>)
    requires
        list_and_details_drawn(s, area, t, Some(draws)),
        s.filtered.len() + s.heap.len() < usize::MAX,
    ensures
        exists|m: AppView, parts: Seq<Rect>, list: Seq<DrawView>, details: Seq<DrawView>|
            #![trigger list_drawn(m, parts[0], t, Some(list)),
                details_drawn(t, parts[1], Some(details))]
            {
                &&& may_split(
                    area,
                    false,
                    seq![Constraint::Percentage(50), Constraint::Percentage(50)],
                    parts,
                )
                &&& m == (AppView { filtered: m.filtered, heap: m.heap, ..s })
                &&& list_drawn(m, parts[0], t, Some(list))
                &&& details_drawn(t, parts[1], Some(details))
                &&& draws == list + details
            },
        s.filter_done && s.selected < s.filtered.len() + s.heap.len() ==> s.selected
            < t.filtered.len(),
        t == (AppView { filtered: t.filtered, heap: t.heap, list_height: t.list_height, ..s }),
{
    let (m, parts) = choose|m: AppView, parts: Seq<Rect>|
        topped_up(s, s.selected + 1, m) && may_split(
            area,
            false,
            super::render::halves(),
            parts,
        ) && #[trigger] list_and_details_drawn_in(m, parts, t, Some(draws));
    lemma_topping_up(s, s.selected + 1, m);
    let (list, details) = choose|list: Seq<DrawView>, details: Seq<DrawView>|
        #![trigger list_drawn(m, parts[0], t, Some(list)),
            details_drawn(t, parts[1], Some(details))]
        list_drawn(m, parts[0], t, Some(list)) && details_drawn(t, parts[1], Some(details)) && draws
            == list + details;
    assert(list_drawn(m, parts[0], t, Some(list)));
    assert(details_drawn(t, parts[1], Some(details)));
    let inner = choose|inner: Seq<Rect>|
        may_split(
            inner_area(Borders::All, true, parts[0]),
            true,
            super::render::list_constraints(),
            inner,
        ) && #[trigger] list_drawn_in(m, parts[0], inner, t, Some(list));
    super::laws::lemma_topped_up_keeps_results(s, s.selected + 1, m);
    if s.filter_done {
        assert(m.filtered.to_multiset().add(m.heap).len() == s.filtered.to_multiset().add(
            s.heap,
        ).len());
        lemma_view_filled(m, parts[0], inner, t, Some(list));
    } else {
        let height = inner[1].height;
        assert(t.list_height == height);
    }
}

/// The status line shows for each of host, session and directory a filled dot where any is selected
/// and an empty one where none is, and then the keys.
#[verifier::rlimit(60)]
pub proof fn lemma_status_shown(s: AppView)
    ensures
        ({
            let text = status_text(s);
            let tail = " \u{2191}\u{2193}:nav  enter:select  ^c:copy  ^f:filter  esc:quit "@;
            &&& text.len() == 10 + tail.len()
            &&& text.skip(10) == tail
            &&& text[0] == ' ' && text[3] == ' ' && text[6] == ' ' && text[9] == ' '
            &&& text[2] == 'h' && text[5] == 's' && text[8] == 'd'
            &&& (exists|h: Seq<char>| s.selected_hosts.contains(h)) ==> text[1] == '\u{25cf}'
            &&& (forall|h: Seq<char>| !s.selected_hosts.contains(h)) ==> text[1] == '\u{25cb}'
            &&& (exists|n: i64| s.selected_sessions.contains(n)) ==> text[4] == '\u{25cf}'
            &&& (forall|n: i64| !s.selected_sessions.contains(n)) ==> text[4] == '\u{25cb}'
            &&& (exists|d: Seq<char>| s.selected_dirs.contains(d)) ==> text[7] == '\u{25cf}'
            &&& (forall|d: Seq<char>| !s.selected_dirs.contains(d)) ==> text[7] == '\u{25cb}'
        }),
{
    let tail = " \u{2191}\u{2193}:nav  enter:select  ^c:copy  ^f:filter  esc:quit "@;
    assert(status_text(s).skip(10) =~= tail);
    assert((forall|h: Seq<char>| !s.selected_hosts.contains(h)) ==> s.selected_hosts
        =~= Set::<Seq<char>>::empty());
    assert((forall|n: i64| !s.selected_sessions.contains(n)) ==> s.selected_sessions
        =~= Set::<i64>::empty());
    assert((forall|d: Seq<char>| !s.selected_dirs.contains(d)) ==> s.selected_dirs
        =~= Set::<Seq<char>>::empty());
}

/// The count shows how many results there are of how many entries, and says when the history is
/// still loading or a search still runs.
pub proof fn lemma_count_shown(s: AppView)
    requires
        s.filtered.len() + s.heap.len() < usize::MAX,
    ensures
        ({
            let n = if s.filter_done { s.filtered.len() + s.heap.len() } else { s.heap.len() };
            let of = seq!['/'] + nat_text(s.entries.len());
            &&& s.loading ==> status_count(s) == seq![' '] + nat_text(s.filtered.len()) + of
                + " (loading...) "@
            &&& !s.loading && !s.filter_done && trimmed(s.input).len() > 0 ==> status_count(s) == seq![
                ' ',
            ] + nat_text(n) + of + " (filtering...) "@
            &&& !s.loading && (s.filter_done || trimmed(s.input).len() == 0) ==> status_count(s)
                == seq![' '] + nat_text(n) + of + seq![' ']
        }),
{
    reveal_strlit(" ");
    reveal_strlit("/");
    assert(" "@ =~= seq![' ']);
    assert("/"@ =~= seq!['/']);
}

/// The status line has the keys on its left and the count on its right.
pub proof fn lemma_status_line(s: AppView, area: Rect, draws: Seq<DrawView>)
    requires
        status_drawn(s, area, draws),
    ensures
        draws.len() == 2,
        draws[0] matches DrawView::Paragraph(lines, None, _) && lines.len() == 1 && text_in(lines[0])
            == status_text(s) && lines[0].len() == 1 && lines[0][0].style.bg == Some(
            Color::Indexed(234),
        ),
        draws[1] matches DrawView::Paragraph(lines, None, _) && lines.len() == 1 && text_in(lines[0])
            == status_count(s) && lines[0].len() == 1 && is_bare(lines[0][0].style),
        exists|parts: Seq<Rect>|
            #![trigger may_split(area, false, super::render::status_constraints(s), parts)]
            may_split(area, false, super::render::status_constraints(s), parts)
                && draws[0]->Paragraph_2 == parts[0] && draws[1]->Paragraph_2 == parts[1],
{
    let parts = choose|parts: Seq<Rect>| #[trigger]
        may_split(area, false, super::render::status_constraints(s), parts) && draws
            == status_drawn_in(s, parts);
    let bar = Style { bg: Some(Color::Indexed(234)), ..super::draw::plain() };
    lemma_text_of_one(super::draw::styled(status_text(s), bar));
    lemma_text_of_one(super::draw::raw(status_count(s)));
}

/// The left side of the overlay names the three pages; an arrow stands before the active one alone,
/// and that row alone is marked.
#[verifier::rlimit(60)]
pub proof fn lemma_pages_shown(s: AppView, area: Rect)
    ensures
        ({
            let draws = overlay_left_drawn(s, area);
            &&& draws.len() == 1
            &&& draws[0] matches DrawView::List(items, Some(block), at) && at == area && items.len()
                == 3 && block.borders == Borders::Right && block.title is None && {
                &&& forall|i: int| #![trigger items[i]]
                    0 <= i < 3 ==> {
                        let name = if i == 0 {
                            "Host"@
                        } else if i == 1 {
                            "Directory"@
                        } else {
                            "Time Range"@
                        };
                        let active = s.overlay_active_item == i;
                        let mark = if !active {
                            "   "@
                        } else if s.overlay_focus == OverlayFocus::Left {
                            " \u{25b6} "@
                        } else {
                            " \u{25b8} "@
                        };
                        &&& text_in(items[i].line) == mark + name
                        &&& items[i].line.len() == 1
                        &&& active ==> items[i].line[0].style.bg == Some(Color::Indexed(234))
                        &&& !active ==> is_bare(items[i].line[0].style)
                    }
            }
        }),
{
    lemma_text_of_one(page_item(s, 0).line[0]);
    lemma_text_of_one(page_item(s, 1).line[0]);
    lemma_text_of_one(page_item(s, 2).line[0]);
    assert(page_item(s, 0).line =~= seq![page_item(s, 0).line[0]]);
    assert(page_item(s, 1).line =~= seq![page_item(s, 1).line[0]]);
    assert(page_item(s, 2).line =~= seq![page_item(s, 2).line[0]]);
}

/// The row of a name shows whether it is chosen and the whole name on one line; the selected row is
/// marked while keys go to this side.
pub proof fn lemma_name_shown(s: AppView, p: PaneView, at: int)
    requires
        0 <= at < p.filtered.len(),
        p.filtered[at].idx < p.names.len(),
        forall|i: int|
            0 <= i < p.filtered[at].match_indices.len() ==> #[trigger] p.filtered[at].match_indices[i]
                < usize::MAX,
        apart(p.names[p.filtered[at].idx as int], ranges_of(p.filtered[at].match_indices)),
    ensures
        ({
            let name = p.names[p.filtered[at].idx as int];
            let item = name_item(s, p, at);
            &&& p.chosen.contains(name) ==> text_in(item.line) == "[x] "@ + on_one_line(name)
            &&& !p.chosen.contains(name) ==> text_in(item.line) == "[ ] "@ + on_one_line(name)
            &&& item.line.len() > 0
            &&& at == p.selected && s.overlay_focus == OverlayFocus::Right ==> item.line[0].style.bg
                == Some(Color::Indexed(234))
            &&& at != p.selected || s.overlay_focus == OverlayFocus::Left ==> is_bare(
                item.line[0].style,
            )
        }),
{
    let name = p.names[p.filtered[at].idx as int];
    let item = name_item(s, p, at);
    let style = item.line[0].style;
    let spans = highlighted(name, p.filtered[at].match_indices, style);
    lemma_highlighted_text(name, p.filtered[at].match_indices, style);
    lemma_marked_text(spans);
    let head = seq![item.line[0]];
    lemma_text_of_one(item.line[0]);
    lemma_text_behind(head, marked(spans));
    assert(item.line =~= head + marked(spans));
}

proof fn lemma_names_exact(s: AppView, p: PaneView, start: int, end: int)
    requires
        0 <= start <= end,
        forall|i: int| #![trigger p.filtered[i]]
            0 <= i < p.filtered.len() ==> p.filtered[i].idx < p.names.len(),
    ensures
        ({
            let stop = if end < p.filtered.len() { end } else { p.filtered.len() as int };
            let items = name_items(s, p, start, end);
            &&& items.len() == (if start < stop { stop - start } else { 0 })
            &&& forall|k: int| #![trigger items[k]]
                0 <= k < items.len() ==> items[k] == name_item(s, p, start + k)
        }),
    decreases end - start,
{
    if start < end {
        lemma_names_exact(s, p, start, end - 1);
        if end - 1 < p.filtered.len() {
            assert(p.filtered[end - 1].idx < p.names.len());
        }
        let items = name_items(s, p, start, end);
        let rest = name_items(s, p, start, end - 1);
        assert forall|k: int| #![trigger items[k]] 0 <= k < items.len() implies items[k] == name_item(
            s,
            p,
            start + k,
        ) by {
            if k < rest.len() {
                assert(items[k] == rest[k]);
            }
        }
    }
}

/// A page with names shows its filter and below it, under a title with their number, the names that
/// are offered, in order, from the first so far down that the selected one is the last in view.
#[verifier::rlimit(60)]
pub proof fn lemma_names_shown(s: AppView, p: PaneView, parts: Seq<Rect>)
    requires
        forall|i: int| #![trigger p.filtered[i]]
            0 <= i < p.filtered.len() ==> p.filtered[i].idx < p.names.len(),
        parts[1].height >= 2,
        0 <= p.selected,
    ensures
        ({
            let draws = pane_drawn_in(s, p, parts);
            let rows = parts[1].height - 1;
            let first = if p.selected < rows { 0 } else { p.selected - rows + 1 };
            let active = s.overlay_focus == OverlayFocus::Right && s.overlay_active_item == p.item
                && s.overlay_right_subfocus == OverlayRightFocus::Filter;
            &&& draws.len() >= 2
            &&& draws.drop_last() == text_field_drawn(
                parts[0],
                p.filter,
                p.cursor,
                active,
                p.title,
                Style { fg: None, bg: None, bold: false, reversed: false },
                false,
            )
            &&& draws.last() matches DrawView::List(items, Some(block), at) && {
                &&& at == parts[1]
                &&& block.title == Some(nat_text(p.filtered.len()) + " "@ + p.label)
                &&& block.borders == Borders::Bare && block.title_style.bold
                &&& items.len() == (if first + rows <= p.filtered.len() {
                    rows
                } else if first <= p.filtered.len() {
                    p.filtered.len() - first
                } else {
                    0
                })
                &&& forall|k: int| #![trigger items[k]]
                    0 <= k < items.len() ==> items[k] == name_item(s, p, first + k)
            }
        }),
{
    let rows = parts[1].height - 1;
    let first = if p.selected < rows { 0 } else { p.selected - rows + 1 };
    lemma_names_exact(s, p, first, first + rows);
    let draws = pane_drawn_in(s, p, parts);
    let active = s.overlay_focus == OverlayFocus::Right && s.overlay_active_item == p.item
        && s.overlay_right_subfocus == OverlayRightFocus::Filter;
    assert(draws.drop_last() =~= text_field_drawn(
        parts[0],
        p.filter,
        p.cursor,
        active,
        p.title,
        Style { fg: None, bg: None, bold: false, reversed: false },
        false,
    ));
}

/// The page of the hosts shows what belongs to the hosts, and the page of the directories what belongs
/// to the directories.
pub proof fn lemma_pages_hold_their_own(s: AppView)
    ensures
        host_pane(s).item == 0,
        host_pane(s).filter == s.overlay_host_filter,
        host_pane(s).cursor == s.overlay_host_filter_cursor,
        host_pane(s).filtered == s.overlay_host_filtered,
        host_pane(s).selected == s.overlay_host_selected,
        host_pane(s).names == s.all_hosts,
        host_pane(s).chosen == s.selected_hosts,
        host_pane(s).title == "Host"@,
        host_pane(s).label == "hosts"@,
        dir_pane(s).item == 1,
        dir_pane(s).filter == s.overlay_dir_filter,
        dir_pane(s).cursor == s.overlay_dir_filter_cursor,
        dir_pane(s).filtered == s.overlay_dir_filtered,
        dir_pane(s).selected == s.overlay_dir_selected,
        dir_pane(s).names == s.all_dirs,
        dir_pane(s).chosen == s.selected_dirs,
        dir_pane(s).title == "Dir"@,
        dir_pane(s).label == "dirs"@,
{
}

/// An end of the time range is green where it can be read and red where it cannot, and bold where
/// keys go to it; an empty one has no style.
pub proof fn lemma_time_colours(text: Seq<char>, focused: bool, readable: bool)
    ensures
        text.len() == 0 ==> is_bare(time_style(text, focused, readable)),
        text.len() > 0 && readable ==> time_style(text, focused, readable).fg == Some(Color::Green),
        text.len() > 0 && !readable ==> time_style(text, focused, readable).fg == Some(Color::Red),
        text.len() > 0 ==> time_style(text, focused, readable).bold == focused,
{
}

/// The page of the time range shows its start and its end, each in the colour that says whether it can
/// be read, the second as the end of a range; and the one that keys go to, if any, is active and
/// highlighted.
#[verifier::rlimit(60)]
pub proof fn lemma_times_page(s: AppView, area: Rect, draws: Seq<DrawView>)
    requires
        time_drawn(s, area, draws),
    ensures
        exists|parts: Seq<Rect>, first: Option<i64>, last: Option<i64>|
            #![trigger may_split(
                inner_area(Borders::Bare, true, area),
                true,
                super::panes::time_constraints(),
                parts,
            ), may_read(s.overlay_start_time, false, first), may_read(s.overlay_end_time, true, last)]
            {
                let right = s.overlay_focus == OverlayFocus::Right;
                let on_start = right && s.overlay_active_time_field == TimeField::Start;
                let on_end = right && s.overlay_active_time_field == TimeField::End;
                let a = text_field_drawn(
                    parts[0],
                    s.overlay_start_time,
                    s.overlay_start_cursor as int,
                    on_start,
                    "Start"@,
                    time_style(s.overlay_start_time, on_start, first is Some),
                    on_start,
                );
                let b = text_field_drawn(
                    parts[1],
                    s.overlay_end_time,
                    s.overlay_end_cursor as int,
                    on_end,
                    "End"@,
                    time_style(s.overlay_end_time, on_end, last is Some),
                    on_end,
                );
                &&& may_split(
                    inner_area(Borders::Bare, true, area),
                    true,
                    seq![
                        Constraint::Length(3),
                        Constraint::Length(3),
                        Constraint::Length(1),
                        Constraint::Min(0),
                    ],
                    parts,
                )
                &&& may_read(s.overlay_start_time, false, first)
                &&& may_read(s.overlay_end_time, true, last)
                &&& draws.len() == a.len() + b.len() + 2
                &&& draws.subrange(1, 1 + a.len() as int) == a
                &&& draws.subrange(1 + a.len() as int, 1 + a.len() + b.len() as int) == b
                &&& draws[0] matches DrawView::Frame(block, at) && at == area && block.title == Some(
                    "Time Range"@,
                ) && block.borders == Borders::Bare && block.title_style.bold
                &&& draws.last() matches DrawView::Paragraph(lines, None, at) && at == parts[2]
                    && lines.len() == 1 && text_in(lines[0])
                    == "Format: YYYY-MM-DD or YYYY-MM-DD HH:MM"@ && lines[0].len() == 1
                    && lines[0][0].style.fg == Some(Color::DarkGray)
            },
{
    let (parts, start, end) = choose|parts: Seq<Rect>, start: bool, end: bool|
        may_split(
            inner_area(Borders::Bare, true, area),
            true,
            super::panes::time_constraints(),
            parts,
        ) && super::panes::may_be_readable(s.overlay_start_time, false, start)
            && super::panes::may_be_readable(s.overlay_end_time, true, end) && draws
            == #[trigger] time_drawn_in(s, area, parts, start, end);
    let first = choose|time: Option<i64>| #[trigger]
        may_read(s.overlay_start_time, false, time) && start == (time is Some);
    let last = choose|time: Option<i64>| #[trigger]
        may_read(s.overlay_end_time, true, time) && end == (time is Some);
    let right = s.overlay_focus == OverlayFocus::Right;
    let on_start = right && s.overlay_active_time_field == TimeField::Start;
    let on_end = right && s.overlay_active_time_field == TimeField::End;
    let a = text_field_drawn(
        parts[0],
        s.overlay_start_time,
        s.overlay_start_cursor as int,
        on_start,
        "Start"@,
        time_style(s.overlay_start_time, on_start, first is Some),
        on_start,
    );
    let b = text_field_drawn(
        parts[1],
        s.overlay_end_time,
        s.overlay_end_cursor as int,
        on_end,
        "End"@,
        time_style(s.overlay_end_time, on_end, last is Some),
        on_end,
    );
    assert(draws.subrange(1, 1 + a.len() as int) =~= a);
    assert(draws.subrange(1 + a.len() as int, 1 + a.len() + b.len() as int) =~= b);
    lemma_text_of_one(
        super::draw::styled(
            "Format: YYYY-MM-DD or YYYY-MM-DD HH:MM"@,
            super::draw::colored(Color::DarkGray),
        ),
    );
    assert(may_split(
        inner_area(Borders::Bare, true, area),
        true,
        seq![
            Constraint::Length(3),
            Constraint::Length(3),
            Constraint::Length(1),
            Constraint::Min(0),
        ],
        parts,
    ));
    assert(may_read(s.overlay_start_time, false, first));
    assert(may_read(s.overlay_end_time, true, last));
}

/// The overlay shows the page that is active.
pub proof fn lemma_active_page_shown(s: AppView, area: Rect, draws: Seq<DrawView>)
    requires
        page_drawn(s, area, draws),
        s.overlay_active_item <= 2,
    ensures
        s.overlay_active_item == 0 ==> pane_drawn(s, host_pane(s), area, draws),
        s.overlay_active_item == 1 ==> pane_drawn(s, dir_pane(s), area, draws),
        s.overlay_active_item == 2 ==> time_drawn(s, area, draws),
{
}

/// How the screen and its parts are divided.
pub proof fn lemma_layouts(s: AppView)
    ensures
        super::panes::screen_constraints() == seq![
            Constraint::Length(3),
            Constraint::Min(1),
            Constraint::Length(1),
        ],
        super::render::list_constraints() == seq![Constraint::Length(1), Constraint::Min(1)],
        super::render::halves() == seq![Constraint::Percentage(50), Constraint::Percentage(50)],
        super::panes::pane_constraints() == seq![Constraint::Length(3), Constraint::Min(1)],
        super::panes::overlay_constraints() == seq![
            Constraint::Percentage(30),
            Constraint::Percentage(70),
        ],
        encode_utf8(status_count(s)).len() < 65536 ==> super::render::status_constraints(s) == seq![
            Constraint::Min(0),
            Constraint::Length(encode_utf8(status_count(s)).len() as u16),
        ],
{
}

/// The screen shows the input line, below it the list and the details of the state that drawing leaves
/// behind, the status line, and over them the overlay where it is open.
#[verifier::rlimit(60)]
pub proof fn lemma_screen_shown(s: AppView, area: Rect, t: AppView, draws: Option<Seq<DrawView>>)
    requires
        screen_drawn(s, area, t, draws),
    ensures
        draws matches Some(d) ==> exists|
            parts: Seq<Rect>,
            middle: Seq<DrawView>,
            status: Seq<DrawView>,
            over: Seq<DrawView>,
        |
            #![trigger list_and_details_drawn(s, parts[1], t, Some(middle)),
                status_drawn(t, parts[2], status), over_drawn(t, area, over)]
            {
                &&& may_split(
                    area,
                    true,
                    seq![Constraint::Length(3), Constraint::Min(1), Constraint::Length(1)],
                    parts,
                )
                &&& list_and_details_drawn(s, parts[1], t, Some(middle))
                &&& status_drawn(t, parts[2], status)
                &&& t.show_overlay ==> overlay_drawn(t, area, over)
                &&& !t.show_overlay ==> over.len() == 0
                &&& d == input_drawn(s, parts[0]) + middle + status + over
            },
{
    let parts = choose|parts: Seq<Rect>|
        may_split(area, true, super::panes::screen_constraints(), parts) && #[trigger]
            screen_drawn_in(s, area, parts, t, draws);
    if let Some(d) = draws {
        let (middle, status, over) = choose|
            middle: Seq<DrawView>,
            status: Seq<DrawView>,
            over: Seq<DrawView>,
        |
            #![trigger list_and_details_drawn(s, parts[1], t, Some(middle)),
                status_drawn(t, parts[2], status), over_drawn(t, area, over)]
            list_and_details_drawn(s, parts[1], t, Some(middle)) && status_drawn(
                t,
                parts[2],
                status,
            ) && over_drawn(t, area, over) && d == input_drawn(s, parts[0]) + middle + status
                + over;
        assert(list_and_details_drawn(s, parts[1], t, Some(middle)));
        assert(status_drawn(t, parts[2], status));
        assert(over_drawn(t, area, over));
    }
}

/// The overlay clears its place, which takes seventy percent of the screen's width and sixty-five of
/// its height, and shows there, in a cyan frame with the title Filter, the names of its pages and the
/// active page.
#[verifier::rlimit(60)]
pub proof fn lemma_overlay_shown(s: AppView, area: Rect, draws: Seq<DrawView>)
    requires
        overlay_drawn(s, area, draws),
    ensures
        exists|popup: Rect, parts: Seq<Rect>, page: Seq<DrawView>|
            #![trigger super::draw::may_centre(70, 65, area, popup), page_drawn(s, parts[1], page)]
            {
                &&& super::draw::may_centre(70, 65, area, popup)
                &&& may_split(
                    inner_area(Borders::All, true, popup),
                    false,
                    seq![Constraint::Percentage(30), Constraint::Percentage(70)],
                    parts,
                )
                &&& page_drawn(s, parts[1], page)
                &&& draws.len() == 3 + page.len()
                &&& draws[0] == DrawView::Clear(popup)
                &&& draws[1] matches DrawView::Frame(block, at) && at == popup && block.title == Some(
                    "Filter"@,
                ) && block.border_style.fg == Some(Color::Cyan)
                &&& seq![draws[2]] == overlay_left_drawn(s, parts[0])
                &&& draws.skip(3) == page
            },
{
    let (popup, parts) = choose|popup: Rect, parts: Seq<Rect>|
        super::draw::may_centre(70, 65, area, popup) && may_split(
            inner_area(Borders::All, true, popup),
            false,
            super::panes::overlay_constraints(),
            parts,
        ) && #[trigger] overlay_drawn_in(s, popup, parts, draws);
    let page = choose|page: Seq<DrawView>| #[trigger]
        page_drawn(s, parts[1], page) && draws == seq![
            DrawView::Clear(popup),
            DrawView::Frame(super::panes::overlay_block(), popup),
        ] + overlay_left_drawn(s, parts[0]) + page;
    assert(seq![draws[2]] =~= overlay_left_drawn(s, parts[0]));
    assert(draws.skip(3) =~= page);
    assert(super::draw::may_centre(70, 65, area, popup));
    assert(page_drawn(s, parts[1], page));
}

} // verus!
