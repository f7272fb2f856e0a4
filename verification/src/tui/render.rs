//! What the browser shows.

use super::app::{selected_history, selection, topped_up, total, App, AppView};
use super::draw::{
    bold_style, colored, draw_views, inner_area, item_views, line_views, may_split, plain, raw,
    selected_style, span_views, split, styled, titled, Block, BlockView, Borders, Color, Constraint,
    Draw, DrawView, Item, ItemView, Line, Rect, Span, SpanView, Style,
};
use super::filter::{no_rank, Rank};
use super::highlight::{highlighted, marked};
use super::time::{format_time_column, may_show_column, may_show_full};
use crate::db::{format_opt, number_or_dash, HistoryEntry};
use crate::format::{format_i64, format_u64, int_text, nat_text};
use crate::text::{
    byte_len, char_index, is_boundary, lemma_boundary_ends, lemma_boundary_is_offset, next_boundary,
    split_text, str_bytes, trimmed,
};
use vstd::prelude::*;
use vstd::string::StringExecFns;

pub use super::draw::{bold, centered_rect, highlight};
pub use super::highlight::{group_into_ranges, highlight_matches};
pub use super::time::{format_full_time, format_short_time};

verus! {

/// A text with the character at the cursor reversed.
pub open spec fn cursor_line(text: Seq<char>, cursor: int, style: Style) -> Seq<SpanView> {
    let k = char_index(text, cursor);
    let after = if k < text.len() { k + 1 } else { k };
    seq![
        styled(text.take(k), style),
        styled(text.subrange(k, after), Style { reversed: true, ..style }),
        styled(text.skip(after), style),
    ]
}

/// The column of a cursor, counted in 16 bits.
pub open spec fn cursor_column(x: u16, cursor: int) -> u16 {
    ((x + cursor % 65536) % 65536) as u16
}

fn column_of(x: u16, cursor: usize) -> (r: u16)
    ensures
        r == cursor_column(x, cursor as int),
{
    let at = (cursor % 65536) as u32 + x as u32;
    (at % 65536) as u16
}

/// Shows a text with the character at the cursor reversed.
fn line_with_cursor(text: &str, cursor: usize, style: Style) -> (l: Line)
    requires
        is_boundary(text@, cursor as int),
    ensures
        l@ == cursor_line(text@, cursor as int, style),
{
    let (before, rest) = split_text(text, cursor);
    let n = str_bytes(text);
    proof {
        lemma_boundary_is_offset(text@, cursor as int);
        lemma_boundary_ends(text@);
    }
    let reversed = Style { fg: style.fg, bg: style.bg, bold: style.bold, reversed: true };
    let ghost k = char_index(text@, cursor as int);
    if cursor < n {
        let next = next_boundary(text, cursor);
        let (head, after) = split_text(text, next);
        proof {
            assert(head@.take(k) =~= text@.take(k));
            crate::text::lemma_offset_is_boundary(head@, k);
        }
        let at = split_text(head, cursor).1;
        proof {
            assert(at@ =~= text@.subrange(k, k + 1));
        }
        Line::triple(
            Span::styled(before.to_owned(), style),
            Span::styled(at.to_owned(), reversed),
            Span::styled(after.to_owned(), style),
        )
    } else {
        proof {
            assert(cursor == n);
            assert(k == text@.len());
            assert(text@.subrange(k, k) =~= seq![]);
            assert(text@.skip(k) =~= seq![]);
        }
        let none = String::new();
        assert(none@ =~= seq![]);
        Line::triple(
            Span::styled(before.to_owned(), style),
            Span::styled(String::new(), reversed),
            Span::styled(none, style),
        )
    }
}

/// One line in a frame, and the cursor in it where it is shown.
pub open spec fn field_drawn(
    line: Seq<SpanView>,
    block: BlockView,
    area: Rect,
    cursor: Option<int>,
) -> Seq<DrawView> {
    let field = DrawView::Paragraph(seq![line], Some(block), area);
    match cursor {
        Some(c) => {
            let inner = inner_area(block.borders, block.title is Some, area);
            seq![field, DrawView::Cursor(cursor_column(inner.x, c), inner.y)]
        },
        None => seq![field],
    }
}

fn draw_field(line: Line, block: Block, area: Rect, cursor: Option<usize>) -> (draws: Vec<Draw>)
    ensures
        draw_views(draws@) == field_drawn(
            line@,
            block@,
            area,
            match cursor {
                Some(c) => Some(c as int),
                None => None,
            },
        ),
{
    let inner = block.inner(area);
    let mut lines: Vec<Line> = Vec::new();
    lines.push(line);
    let mut draws: Vec<Draw> = Vec::new();
    let field = Draw::Paragraph(lines, Some(block), area);
    assert(field@ == DrawView::Paragraph(seq![line@], Some(block@), area)) by {
        assert(line_views(lines@) =~= seq![line@]);
    }
    draws.push(field);
    if let Some(c) = cursor {
        draws.push(Draw::Cursor(column_of(inner.x, c), inner.y));
        assert(draw_views(draws@) =~= seq![
            field@,
            DrawView::Cursor(cursor_column(inner.x, c as int), inner.y),
        ]);
    } else {
        assert(draw_views(draws@) =~= seq![field@]);
    }
    draws
}

/// The input line.
pub open spec fn input_drawn(s: AppView, area: Rect) -> Seq<DrawView> {
    let block = titled(Borders::All, "Search"@, bold_style());
    if s.input.len() == 0 {
        field_drawn(
            seq![styled("Type to filter..."@, colored(Color::DarkGray))],
            block,
            area,
            None,
        )
    } else {
        field_drawn(
            cursor_line(s.input, s.cursor as int, plain()),
            block,
            area,
            Some(s.cursor as int),
        )
    }
}

/// What is drawn of a text field: its title in place of a missing text, a cursor where it is
/// active, and a background where it is highlighted.
pub open spec fn text_field_drawn(
    area: Rect,
    text: Seq<char>,
    cursor: int,
    active: bool,
    title: Seq<char>,
    style: Style,
    highlight: bool,
) -> Seq<DrawView> {
    let at = if cursor < byte_len(text) { cursor } else { byte_len(text) as int };
    let line = if text.len() == 0 {
        seq![styled(title, colored(Color::DarkGray))]
    } else if active {
        cursor_line(text, at, style)
    } else {
        seq![styled(text, style)]
    };
    let title_style = if active { colored(Color::Cyan) } else { plain() };
    let block = BlockView {
        style: if highlight {
            Style { bg: Some(Color::Indexed(234)), ..plain() }
        } else {
            plain()
        },
        ..titled(Borders::All, title, title_style)
    };
    field_drawn(
        line,
        block,
        area,
        if active && text.len() > 0 {
            Some(at)
        } else {
            None
        },
    )
}

/// The lines of a text.
pub open spec fn lines_of(pending: Seq<char>, text: Seq<char>) -> Seq<Seq<char>>
    decreases text.len(),
{
    if text.len() == 0 {
        seq![pending]
    } else if text[0] == '\n' {
        seq![pending] + lines_of(seq![], text.skip(1))
    } else {
        lines_of(pending.push(text[0]), text.skip(1))
    }
}

/// Each of the texts as a line without a style.
pub open spec fn raw_lines(s: Seq<Seq<char>>) -> Seq<Seq<SpanView>> {
    s.map_values(|t: Seq<char>| seq![raw(t)])
}

/// A label and a value.
pub open spec fn labelled(label: Seq<char>, value: Seq<char>) -> Seq<SpanView> {
    seq![styled(label, bold_style()), raw(value)]
}

/// How long a command ran.
pub open spec fn runtime_text(duration: Option<i64>) -> Seq<char> {
    match duration {
        Some(d) => int_text(d as int) + "ms"@,
        None => seq!['-'],
    }
}

/// The details of an entry, when its start is shown as `time`. The score is that of a match.
pub open spec fn detail_lines(
    e: HistoryEntry,
    rank: Rank,
    time: Seq<char>,
) -> Seq<Seq<SpanView>> {
    let first = seq![
        labelled("Host:        "@, e.host@),
        labelled("Session:     "@, int_text(e.session as int)),
        labelled("Directory:   "@, e.dir@),
        labelled("Start Time:  "@, time),
    ];
    let score = if rank != no_rank() {
        seq![labelled("Score:       "@, int_text(rank.score as int))]
    } else {
        seq![]
    };
    let last = seq![
        labelled("Runtime:     "@, runtime_text(e.duration)),
        labelled("Exit Status: "@, number_or_dash(e.exit_status)),
        seq![styled("Command:     "@, bold_style())],
        seq![],
    ];
    first + score + last + raw_lines(lines_of(seq![], e.argv@))
}

/// The lines, and empty ones behind them up to `n`.
pub open spec fn filled(lines: Seq<Seq<SpanView>>, n: int) -> Seq<Seq<SpanView>> {
    if lines.len() < n {
        lines + Seq::new((n - lines.len()) as nat, |i: int| Seq::<SpanView>::empty())
    } else {
        lines
    }
}

/// The panel with the details.
pub open spec fn panel_drawn(
    lines: Seq<Seq<SpanView>>,
    title: Seq<char>,
    area: Rect,
) -> Seq<DrawView> {
    let visible: int = if area.height > 2 { area.height - 2 } else { 0 };
    seq![
        DrawView::Paragraph(
            filled(lines, visible),
            Some(titled(Borders::All, title, bold_style())),
            area,
        ),
    ]
}

/// Whether `draws` may be what is drawn of the selected entry; nothing can be drawn of one whose
/// start time cannot be shown.
pub open spec fn details_drawn(s: AppView, area: Rect, draws: Option<Seq<DrawView>>) -> bool {
    match selected_history(s) {
        Some(e) => match draws {
            Some(d) => exists|time: Seq<char>| #[trigger]
                may_show_full(e.start_time, Some(time)) && d == panel_drawn(
                    detail_lines(e, selection(s)->0.rank, time),
                    "Details for "@ + int_text(e.id as int),
                    area,
                ),
            None => may_show_full(e.start_time, None),
        },
        None => draws == Some(panel_drawn(seq![], "Details"@, area)),
    }
}

/// What the draws hold, where there are any.
pub open spec fn opt_draws(d: Option<Vec<Draw>>) -> Option<Seq<DrawView>> {
    match d {
        Some(v) => Some(draw_views(v@)),
        None => None,
    }
}

fn labelled_line(label: &str, value: String) -> (l: Line)
    ensures
        l@ == labelled(label@, value@),
{
    Line::pair(Span::styled(label.to_owned(), bold()), Span::raw(value))
}

fn push_line(lines: &mut Vec<Line>, line: Line)
    ensures
        line_views(final(lines)@) == line_views(old(lines)@).push(line@),
{
    lines.push(line);
    assert(line_views(lines@) =~= line_views(old(lines)@).push(line@));
}

/// Adds each line of a text.
fn push_text_lines(lines: &mut Vec<Line>, text: &str)
    ensures
        line_views(final(lines)@) == line_views(old(lines)@) + raw_lines(lines_of(seq![], text@)),
{
    let ghost goal = line_views(lines@) + raw_lines(lines_of(seq![], text@));
    let mut pending = String::new();
    assert(pending@ =~= seq![]);
    assert(text@.skip(0) =~= text@);
    for c in it: text.chars()
        invariant
            it.seq() == text@,
            line_views(lines@) + raw_lines(lines_of(pending@, text@.skip(it.index()))) == goal,
    {
        let ghost rest = text@.skip(it.index());
        let ghost before = line_views(lines@);
        let ghost waiting = pending@;
        assert(rest[0] == c);
        assert(rest.skip(1) =~= text@.skip(it.index() + 1));
        if c == '\n' {
            push_line(lines, Line::of(Span::raw(pending)));
            pending = String::new();
            proof {
                assert(pending@ =~= seq![]);
                let more = lines_of(seq![], rest.skip(1));
                assert(raw_lines(seq![waiting] + more) =~= seq![seq![raw(waiting)]] + raw_lines(
                    more,
                ));
                assert(before + raw_lines(lines_of(waiting, rest)) =~= line_views(lines@)
                    + raw_lines(more));
            }
        } else {
            pending.push(c);
        }
    }
    let ghost before = line_views(lines@);
    let ghost waiting = pending@;
    proof {
        assert(text@.skip(text@.len() as int) =~= seq![]);
        assert(raw_lines(seq![waiting]) =~= seq![seq![raw(waiting)]]);
    }
    push_line(lines, Line::of(Span::raw(pending)));
    assert(line_views(lines@) =~= before + raw_lines(seq![waiting]));
}

/// Adds empty lines until there are `n`.
fn fill_lines(lines: &mut Vec<Line>, n: usize)
    ensures
        line_views(final(lines)@) == filled(line_views(old(lines)@), n as int),
{
    let ghost start = line_views(lines@);
    let m = lines.len();
    while lines.len() < n
        invariant
            m == start.len(),
            lines@.len() <= n || lines@.len() == m,
            m <= lines@.len(),
            line_views(lines@) == start + Seq::new(
                (lines@.len() - m) as nat,
                |i: int| Seq::<SpanView>::empty(),
            ),
        decreases n - lines@.len(),
    {
        let ghost before = line_views(lines@);
        let empty = Line { spans: Vec::new() };
        assert(empty@ =~= Seq::<SpanView>::empty());
        push_line(lines, empty);
        assert(line_views(lines@) =~= start + Seq::new(
            (lines@.len() - m) as nat,
            |i: int| Seq::<SpanView>::empty(),
        ));
    }
    assert(line_views(lines@) =~= filled(start, n as int));
}

pub(crate) fn one_draw(draw: Draw) -> (draws: Vec<Draw>)
    ensures
        draw_views(draws@) == seq![draw@],
{
    let mut draws: Vec<Draw> = Vec::new();
    draws.push(draw);
    assert(draw_views(draws@) =~= seq![draw@]);
    draws
}

fn draw_panel(lines: Vec<Line>, title: String, area: Rect) -> (draws: Vec<Draw>)
    ensures
        draw_views(draws@) == panel_drawn(line_views(lines@), title@, area),
{
    let mut lines = lines;
    fill_lines(&mut lines, area.height.saturating_sub(2) as usize);
    let block = Block::titled(Borders::All, title, bold());
    one_draw(Draw::Paragraph(lines, Some(block), area))
}

/// How a running time is shown.
fn format_runtime(duration: Option<i64>) -> (s: String)
    ensures
        s@ == runtime_text(duration),
{
    match duration {
        Some(d) => format_i64(d).concat("ms"),
        None => format_opt(None),
    }
}

/// Lists the details of an entry whose start is shown as `time`.
fn list_details(e: &HistoryEntry, rank: &Rank, time: String) -> (lines: Vec<Line>)
    ensures
        line_views(lines@) == detail_lines(*e, *rank, time@),
{
    let mut lines: Vec<Line> = Vec::new();
    assert(line_views(lines@) =~= seq![]);
    let ghost shown = time@;
    push_line(&mut lines, labelled_line("Host:        ", e.host.clone()));
    push_line(&mut lines, labelled_line("Session:     ", format_i64(e.session)));
    push_line(&mut lines, labelled_line("Directory:   ", e.dir.clone()));
    push_line(&mut lines, labelled_line("Start Time:  ", time));
    let ghost first = line_views(lines@);
    if *rank != Rank::default() {
        push_line(&mut lines, labelled_line("Score:       ", format_i64(rank.score as i64)));
    }
    let ghost second = line_views(lines@);
    push_line(&mut lines, labelled_line("Runtime:     ", format_runtime(e.duration)));
    push_line(&mut lines, labelled_line("Exit Status: ", format_opt(e.exit_status)));
    push_line(&mut lines, Line::of(Span::styled("Command:     ".to_owned(), bold())));
    let empty = Line { spans: Vec::new() };
    assert(empty@ =~= Seq::<SpanView>::empty());
    push_line(&mut lines, empty);
    let ghost third = line_views(lines@);
    push_text_lines(&mut lines, e.argv.as_str());
    proof {
        let all = detail_lines(*e, *rank, shown);
        let tail = raw_lines(lines_of(seq![], e.argv@));
        assert(third + tail =~= all);
    }
    lines
}

impl App {
    /// Draws the input line.
    pub fn render_input(&self, area: Rect) -> (draws: Vec<Draw>)
        requires
            self.wf(),
        ensures
            draw_views(draws@) == input_drawn(self@, area),
    {
        let block = Block::titled(Borders::All, "Search".to_owned(), bold());
        if self.input.as_str().is_empty() {
            let hint = Span::styled(
                "Type to filter...".to_owned(),
                Style::colored(Color::DarkGray),
            );
            draw_field(Line::of(hint), block, area, None)
        } else {
            draw_field(self.render_input_with_cursor(), block, area, Some(self.cursor))
        }
    }

    /// Shows the input line with the character at the cursor reversed.
    pub fn render_input_with_cursor(&self) -> (l: Line)
        requires
            self.wf(),
        ensures
            l@ == cursor_line(self@.input, self@.cursor as int, plain()),
    {
        line_with_cursor(self.input.as_str(), self.cursor, Style::default())
    }

    /// Draws a text field.
    pub fn render_filter_input(
        &self,
        area: Rect,
        text: &str,
        cursor: usize,
        active: bool,
        title: &str,
        style: Style,
        highlight: bool,
    ) -> (draws: Vec<Draw>)
        requires
            active && cursor < byte_len(text@) ==> is_boundary(text@, cursor as int),
        ensures
            draw_views(draws@) == text_field_drawn(
                area,
                text@,
                cursor as int,
                active,
                title@,
                style,
                highlight,
            ),
    {
        let n = str_bytes(text);
        let c = if cursor < n { cursor } else { n };
        proof {
            lemma_boundary_ends(text@);
        }
        let empty = text.is_empty();
        let line = if empty {
            Line::of(Span::styled(title.to_owned(), Style::colored(Color::DarkGray)))
        } else if active {
            line_with_cursor(text, c, style)
        } else {
            Line::of(Span::styled(text.to_owned(), style))
        };
        let title_style = if active { Style::colored(Color::Cyan) } else { Style::default() };
        let mut block = Block::titled(Borders::All, title.to_owned(), title_style);
        if highlight {
            block.style = Style {
                fg: None,
                bg: Some(Color::Indexed(234)),
                bold: false,
                reversed: false,
            };
        }
        let at = if active && !empty { Some(c) } else { None };
        draw_field(line, block, area, at)
    }

    /// Draws the details of the selected entry. `None` if its start time cannot be shown.
    pub fn render_details(&self, area: Rect) -> (draws: Option<Vec<Draw>>)
        ensures
            details_drawn(self@, area, opt_draws(draws)),
    {
        match (self.selected_entry(), self.selected_filtered()) {
            (Some(e), Some(fe)) => {
                let time = match format_full_time(e.start_time) {
                    Some(time) => time,
                    None => {
                        return None;
                    },
                };
                assert(may_show_full(e.start_time, Some(time@)));
                let lines = list_details(e, &fe.rank, time);
                let mut title = "Details for ".to_owned();
                title.append(format_i64(e.id).as_str());
                Some(draw_panel(lines, title, area))
            },
            _ => {
                let lines: Vec<Line> = Vec::new();
                assert(line_views(lines@) =~= seq![]);
                Some(draw_panel(lines, "Details".to_owned(), area))
            },
        }
    }
}

/// The entry in row `k` of the list, where there is one.
pub open spec fn row_entry(s: AppView, k: int) -> Option<HistoryEntry> {
    let at = s.scroll + k;
    if 0 <= at < s.filtered.len() && s.filtered[at].idx < s.entries.len() {
        Some(s.entries[s.filtered[at].idx as int])
    } else {
        None
    }
}

/// Row `k` of the list: the time, the command with its matches highlighted, and a background
/// where it is selected.
pub open spec fn row_item(s: AppView, k: int, entry: HistoryEntry, time: Seq<char>) -> ItemView {
    let at = s.scroll + k;
    let base = if at == s.selected { selected_style() } else { plain() };
    ItemView {
        line: seq![raw(time), raw("  "@)] + marked(
            highlighted(entry.argv@, s.filtered[at].match_indices, base),
        ),
        style: base,
    }
}

/// The first `n` rows of the list, when the times in them are shown as in `times`.
pub open spec fn rows(s: AppView, n: int, times: Seq<Seq<char>>) -> Seq<ItemView>
    decreases n,
{
    if n <= 0 {
        seq![]
    } else {
        let rest = rows(s, n - 1, times);
        match row_entry(s, n - 1) {
            Some(entry) => rest.push(row_item(s, n - 1, entry, times[n - 1])),
            None => rest,
        }
    }
}

/// Whether the time in row `k`, if there is an entry, can be shown, and shown as `time`.
pub open spec fn may_show_row(s: AppView, k: int, time: Seq<char>) -> bool {
    match row_entry(s, k) {
        Some(e) => may_show_column(e.start_time, Some(time)),
        None => true,
    }
}

/// Whether the times of the first `n` rows may be shown as in `times`.
pub open spec fn may_show_times(s: AppView, n: int, times: Seq<Seq<char>>) -> bool {
    &&& times.len() == n
    &&& forall|k: int| 0 <= k < n ==> may_show_row(s, k, #[trigger] times[k])
}

/// Whether `items` may be the first `n` rows of the list; there are none if a start time among
/// them cannot be shown.
pub open spec fn rows_drawn(s: AppView, n: int, items: Option<Seq<ItemView>>) -> bool {
    match items {
        Some(v) => exists|times: Seq<Seq<char>>| #[trigger]
            may_show_times(s, n, times) && v == rows(s, n, times),
        None => exists|k: int|
            0 <= k < n && (#[trigger] row_entry(s, k) matches Some(e) && may_show_column(
                e.start_time,
                None,
            )),
    }
}

/// The frame of the list.
pub open spec fn list_block() -> BlockView {
    titled(Borders::All, "History"@, bold_style())
}

/// How the inside of the list's frame is divided: a header and the rows.
pub open spec fn list_constraints() -> Seq<Constraint> {
    seq![Constraint::Length(1), Constraint::Min(1)]
}

/// The state in which the list is drawn into rows of the given height.
pub open spec fn list_fitted(s: AppView, height: u16, t: AppView) -> bool {
    let u = AppView { list_height: height, ..s };
    let needed = if s.scroll + height < total(u) { s.scroll + height } else { total(u) };
    topped_up(u, needed, t)
}

/// Whether drawing the list in `area`, whose inside is divided into `parts`, leads from `s` to
/// `t` and gives `draws`.
pub open spec fn list_drawn_in(
    s: AppView,
    area: Rect,
    parts: Seq<Rect>,
    t: AppView,
    draws: Option<Seq<DrawView>>,
) -> bool {
    let height = parts[1].height;
    &&& list_fitted(s, height, t)
    &&& match draws {
        Some(d) => exists|items: Seq<ItemView>| #[trigger]
            rows_drawn(t, height as int, Some(items)) && d == seq![
                DrawView::Frame(list_block(), area),
                DrawView::Paragraph(
                    seq![seq![styled("       Time  Command"@, bold_style())]],
                    None,
                    parts[0],
                ),
                DrawView::List(items, None, parts[1]),
            ],
        None => rows_drawn(t, height as int, None),
    }
}

/// Whether drawing the list in `area` may lead from `s` to `t` and give `draws`.
pub open spec fn list_drawn(
    s: AppView,
    area: Rect,
    t: AppView,
    draws: Option<Seq<DrawView>>,
) -> bool {
    exists|parts: Seq<Rect>|
        may_split(inner_area(Borders::All, true, area), true, list_constraints(), parts)
            && #[trigger] list_drawn_in(s, area, parts, t, draws)
}

pub(crate) fn push_draw(draws: &mut Vec<Draw>, draw: Draw)
    ensures
        draw_views(final(draws)@) == draw_views(old(draws)@).push(draw@),
{
    draws.push(draw);
    assert(draw_views(draws@) =~= draw_views(old(draws)@).push(draw@));
}

pub(crate) fn push_draws(draws: &mut Vec<Draw>, more: Vec<Draw>)
    ensures
        draw_views(final(draws)@) == draw_views(old(draws)@) + draw_views(more@),
{
    let mut rest = more;
    draws.append(&mut rest);
    assert(draw_views(draws@) =~= draw_views(old(draws)@) + draw_views(more@));
}

pub(crate) fn one_line(line: Line) -> (lines: Vec<Line>)
    ensures
        line_views(lines@) == seq![line@],
{
    let mut lines: Vec<Line> = Vec::new();
    lines.push(line);
    assert(line_views(lines@) =~= seq![line@]);
    lines
}

proof fn lemma_rows_same(s: AppView, n: int, a: Seq<Seq<char>>, b: Seq<Seq<char>>)
    requires
        a.len() >= n,
        b.len() >= n,
        forall|k: int| 0 <= k < n ==> a[k] == b[k],
    ensures
        rows(s, n, a) == rows(s, n, b),
    decreases n,
{
    if n > 0 {
        lemma_rows_same(s, n - 1, a, b);
    }
}

proof fn lemma_times_push(s: AppView, k: int, times: Seq<Seq<char>>, time: Seq<char>)
    requires
        0 <= k,
        may_show_times(s, k, times),
        may_show_row(s, k, time),
    ensures
        may_show_times(s, k + 1, times.push(time)),
        rows(s, k, times.push(time)) == rows(s, k, times),
{
    let longer = times.push(time);
    lemma_rows_same(s, k, times, longer);
    assert forall|j: int| 0 <= j < k + 1 implies may_show_row(s, j, #[trigger] longer[j]) by {
        if j < k {
            assert(longer[j] == times[j]);
        }
    }
}

impl App {
    /// Draws the row of the result at `at`.
    fn draw_row(&self, at: usize, entry: &HistoryEntry, time: String) -> (item: Item)
        requires
            self.wf(),
            at < self.filtered@.len(),
            at >= self.scroll,
        ensures
            item@ == row_item(self@, at - self.scroll, *entry, time@),
    {
        let base = if at == self.selected { Style::selected() } else { Style::default() };
        let fe = &self.filtered[at];
        proof {
            assert(self@.filtered[at as int] == fe@);
            assert(crate::tui::app::usable(fe@));
        }
        let mut command = highlight_matches(entry.argv.as_str(), fe.match_indices.as_slice(), base);
        let ghost marks = span_views(command@);
        let mut spans: Vec<Span> = Vec::new();
        spans.push(Span::raw(time));
        spans.push(Span::raw("  ".to_owned()));
        spans.append(&mut command);
        let line = Line { spans };
        assert(line@ =~= seq![raw(time@), raw("  "@)] + marks);
        Item { line, style: base }
    }

    /// Draws the first `n` rows of the list. `None` if a start time cannot be shown.
    pub fn draw_rows(&self, n: u16) -> (items: Option<Vec<Item>>)
        requires
            self.wf(),
        ensures
            rows_drawn(
                self@,
                n as int,
                match items {
                    Some(v) => Some(item_views(v@)),
                    None => None,
                },
            ),
    {
        let mut items: Vec<Item> = Vec::new();
        let ghost mut times: Seq<Seq<char>> = seq![];
        let ghost s = self@;
        let mut k: u16 = 0;
        assert(item_views(items@) =~= seq![]);
        while k < n
            invariant
                self.wf(),
                s == self@,
                k <= n,
                may_show_times(s, k as int, times),
                item_views(items@) == rows(s, k as int, times),
            decreases n - k,
        {
            let at = self.scroll as usize + k as usize;
            let ghost before = item_views(items@);
            if at < self.filtered.len() && self.filtered[at].idx < self.entries.len() {
                assert(s.filtered[at as int] == self.filtered@[at as int]@);
                let entry = &self.entries[self.filtered[at].idx];
                assert(row_entry(s, k as int) == Some(*entry));
                let time = match format_time_column(entry.start_time) {
                    Some(time) => time,
                    None => {
                        return None;
                    },
                };
                proof {
                    lemma_times_push(s, k as int, times, time@);
                    times = times.push(time@);
                }
                let item = self.draw_row(at, entry, time);
                items.push(item);
                assert(item_views(items@) =~= before.push(item@));
            } else {
                proof {
                    if at < self.filtered@.len() {
                        assert(s.filtered[at as int] == self.filtered@[at as int]@);
                    }
                    assert(row_entry(s, k as int) is None);
                    lemma_times_push(s, k as int, times, seq![]);
                    times = times.push(seq![]);
                }
            }
            k = k + 1;
        }
        Some(items)
    }

    /// Draws the list into the parts of its frame, and takes note of how many rows fit.
    pub fn render_list_in(&mut self, area: Rect, header: Rect, body: Rect) -> (draws: Option<
        Vec<Draw>,
    >)
        requires
            old(self).wf(),
        ensures
            final(self).wf(),
            list_drawn_in(
                old(self)@,
                area,
                seq![header, body],
                final(self)@,
                opt_draws(draws),
            ),
    {
        let ghost s = self@;
        self.list_height = body.height;
        assert(self@ =~= (AppView { list_height: body.height, ..s }));
        let wanted = self.scroll as usize + body.height as usize;
        let total = self.total_filtered();
        self.ensure_filtered_len(if wanted < total { wanted } else { total });
        match self.draw_rows(body.height) {
            Some(items) => {
                let mut draws: Vec<Draw> = Vec::new();
                let ghost views = item_views(items@);
                assert(draw_views(draws@) =~= seq![]);
                let block = Block::titled(Borders::All, "History".to_owned(), bold());
                push_draw(&mut draws, Draw::Frame(block, area));
                let title = Line::of(Span::styled("       Time  Command".to_owned(), bold()));
                push_draw(&mut draws, Draw::Paragraph(one_line(title), None, header));
                push_draw(&mut draws, Draw::List(items, None, body));
                proof {
                    assert(rows_drawn(self@, body.height as int, Some(views)));
                    assert(draw_views(draws@) =~= seq![
                        DrawView::Frame(list_block(), area),
                        DrawView::Paragraph(
                            seq![seq![styled("       Time  Command"@, bold_style())]],
                            None,
                            header,
                        ),
                        DrawView::List(views, None, body),
                    ]);
                }
                Some(draws)
            },
            None => None,
        }
    }

    /// Draws the list. `None` if a start time in it cannot be shown.
    pub fn render_list(&mut self, area: Rect) -> (draws: Option<Vec<Draw>>)
        requires
            old(self).wf(),
        ensures
            final(self).wf(),
            list_drawn(old(self)@, area, final(self)@, opt_draws(draws)),
    {
        let block = Block::titled(Borders::All, "History".to_owned(), bold());
        let inner = block.inner(area);
        let mut constraints: Vec<Constraint> = Vec::new();
        constraints.push(Constraint::Length(1));
        constraints.push(Constraint::Min(1));
        assert(constraints@ =~= list_constraints());
        let parts = split(inner, true, &constraints);
        assert(parts@ =~= seq![parts@[0], parts@[1]]);
        self.render_list_in(area, parts[0], parts[1])
    }
}

/// Whether drawing the list and the details into `parts` leads from `s` to `t` and gives
/// `draws`.
pub open spec fn list_and_details_drawn_in(
    s: AppView,
    parts: Seq<Rect>,
    t: AppView,
    draws: Option<Seq<DrawView>>,
) -> bool {
    match draws {
        Some(d) => exists|list: Seq<DrawView>, details: Seq<DrawView>|
            #![trigger list_drawn(s, parts[0], t, Some(list)),
                details_drawn(t, parts[1], Some(details))]
            list_drawn(s, parts[0], t, Some(list)) && details_drawn(t, parts[1], Some(details))
                && d == list + details,
        None => list_drawn(s, parts[0], t, None) || exists|list: Seq<DrawView>|
            #[trigger] list_drawn(s, parts[0], t, Some(list)) && details_drawn(t, parts[1], None),
    }
}

/// Two parts of equal size.
pub open spec fn halves() -> Seq<Constraint> {
    seq![Constraint::Percentage(50), Constraint::Percentage(50)]
}

/// Whether drawing the list and the details may lead from `s` to `t` and give `draws`. The
/// selected result is made to be listed first.
pub open spec fn list_and_details_drawn(
    s: AppView,
    area: Rect,
    t: AppView,
    draws: Option<Seq<DrawView>>,
) -> bool {
    exists|m: AppView, parts: Seq<Rect>|
        topped_up(s, s.selected + 1, m) && may_split(area, false, halves(), parts)
            && #[trigger] list_and_details_drawn_in(m, parts, t, draws)
}

/// A filled dot where something is selected, an empty one where nothing is.
pub open spec fn dot(on: bool) -> char {
    if on {
        '\u{25cf}'
    } else {
        '\u{25cb}'
    }
}

/// The left side of the status line: which criteria are set, and the keys.
pub open spec fn status_text(s: AppView) -> Seq<char> {
    seq![
        ' ',
        dot(s.selected_hosts != Set::<Seq<char>>::empty()),
        'h',
        ' ',
        dot(s.selected_sessions != Set::<i64>::empty()),
        's',
        ' ',
        dot(s.selected_dirs != Set::<Seq<char>>::empty()),
        'd',
        ' ',
    ] + " \u{2191}\u{2193}:nav  enter:select  ^c:copy  ^f:filter  esc:quit "@
}

/// The right side of the status line: how many results there are of how many entries, and
/// whether more are on their way.
pub open spec fn status_count(s: AppView) -> Seq<char> {
    let of = "/"@ + nat_text(s.entries.len());
    if s.loading {
        " "@ + nat_text(s.filtered.len()) + of + " (loading...) "@
    } else if !s.filter_done && trimmed(s.input).len() > 0 {
        " "@ + nat_text(total(s) as nat) + of + " (filtering...) "@
    } else {
        " "@ + nat_text(total(s) as nat) + of + " "@
    }
}

/// How the status line is divided.
pub open spec fn status_constraints(s: AppView) -> Seq<Constraint> {
    seq![
        Constraint::Min(0),
        Constraint::Length((byte_len(status_count(s)) % 65536) as u16),
    ]
}

/// The status line, divided into `parts`.
pub open spec fn status_drawn_in(s: AppView, parts: Seq<Rect>) -> Seq<DrawView> {
    let bar = Style { bg: Some(Color::Indexed(234)), ..plain() };
    seq![
        DrawView::Paragraph(seq![seq![styled(status_text(s), bar)]], None, parts[0]),
        DrawView::Paragraph(seq![seq![raw(status_count(s))]], None, parts[1]),
    ]
}

/// Whether `draws` may be what is drawn of the status line.
pub open spec fn status_drawn(s: AppView, area: Rect, draws: Seq<DrawView>) -> bool {
    exists|parts: Seq<Rect>| #[trigger]
        may_split(area, false, status_constraints(s), parts) && draws == status_drawn_in(s, parts)
}

fn dot_of(on: bool) -> (c: char)
    ensures
        c == dot(on),
{
    if on {
        '\u{25cf}'
    } else {
        '\u{25cb}'
    }
}

fn count_text(n: usize, of: usize, note: &str) -> (s: String)
    ensures
        s@ == " "@ + nat_text(n as nat) + ("/"@ + nat_text(of as nat)) + note@,
{
    let mut s = " ".to_owned();
    s.append(format_u64(n as u64).as_str());
    let mut tail = "/".to_owned();
    tail.append(format_u64(of as u64).as_str());
    s.append(tail.as_str());
    s.append(note);
    s
}

impl App {
    /// Draws the list and the details of the selected entry. `None` if a start time that would
    /// be seen cannot be shown.
    pub fn render_list_and_details(&mut self, area: Rect) -> (draws: Option<Vec<Draw>>)
        requires
            old(self).wf(),
        ensures
            final(self).wf(),
            list_and_details_drawn(old(self)@, area, final(self)@, opt_draws(draws)),
    {
        self.ensure_filtered_len(self.selected.saturating_add(1));
        let ghost m = self@;
        let mut constraints: Vec<Constraint> = Vec::new();
        constraints.push(Constraint::Percentage(50));
        constraints.push(Constraint::Percentage(50));
        assert(constraints@ =~= halves());
        let parts = split(area, false, &constraints);
        let list = self.render_list(parts[0]);
        let ghost lv = opt_draws(list);
        let mut list = match list {
            Some(list) => list,
            None => {
                assert(list_and_details_drawn_in(m, parts@, self@, None));
                return None;
            },
        };
        let details = self.render_details(parts[1]);
        let ghost dv = opt_draws(details);
        match details {
            Some(details) => {
                push_draws(&mut list, details);
                assert(list_drawn(m, parts@[0], self@, Some(lv->0)));
                assert(details_drawn(self@, parts@[1], Some(dv->0)));
                assert(list_and_details_drawn_in(m, parts@, self@, Some(draw_views(list@))));
                Some(list)
            },
            None => {
                assert(list_drawn(m, parts@[0], self@, Some(lv->0)));
                assert(list_and_details_drawn_in(m, parts@, self@, None));
                None
            },
        }
    }

    fn format_status(&self) -> (s: String)
        ensures
            s@ == status_text(self@),
    {
        let hosts = !self.selected_hosts.is_empty();
        let sessions = !self.selected_sessions.is_empty();
        let dirs = !self.selected_dirs.is_empty();
        let mut s = String::new();
        s.push(' ');
        s.push(dot_of(hosts));
        s.push('h');
        s.push(' ');
        s.push(dot_of(sessions));
        s.push('s');
        s.push(' ');
        s.push(dot_of(dirs));
        s.push('d');
        s.push(' ');
        s.append(" \u{2191}\u{2193}:nav  enter:select  ^c:copy  ^f:filter  esc:quit ");
        assert(s@ =~= status_text(self@));
        s
    }

    fn format_count(&self) -> (s: String)
        ensures
            s@ == status_count(self@),
    {
        let of = self.entries.len();
        if self.loading {
            count_text(self.filtered.len(), of, " (loading...) ")
        } else if !self.filter_done && !self.input.as_str().trim().is_empty() {
            count_text(self.total_filtered(), of, " (filtering...) ")
        } else {
            count_text(self.total_filtered(), of, " ")
        }
    }

    /// Draws the status line into its two parts.
    pub fn render_status_in(&self, left: Rect, right: Rect) -> (draws: Vec<Draw>)
        ensures
            draw_views(draws@) == status_drawn_in(self@, seq![left, right]),
    {
        let bar = Style { fg: None, bg: Some(Color::Indexed(234)), bold: false, reversed: false };
        let status = Line::of(Span::styled(self.format_status(), bar));
        let count = Line::of(Span::raw(self.format_count()));
        let mut draws: Vec<Draw> = Vec::new();
        assert(draw_views(draws@) =~= seq![]);
        push_draw(&mut draws, Draw::Paragraph(one_line(status), None, left));
        push_draw(&mut draws, Draw::Paragraph(one_line(count), None, right));
        assert(draw_views(draws@) =~= status_drawn_in(self@, seq![left, right]));
        draws
    }

    /// Draws the status line.
    pub fn render_status(&self, area: Rect) -> (draws: Vec<Draw>)
        ensures
            status_drawn(self@, area, draw_views(draws@)),
    {
        let count = self.format_count();
        let width = (str_bytes(count.as_str()) % 65536) as u16;
        let mut constraints: Vec<Constraint> = Vec::new();
        constraints.push(Constraint::Min(0));
        constraints.push(Constraint::Length(width));
        assert(constraints@ =~= status_constraints(self@));
        let parts = split(area, false, &constraints);
        let draws = self.render_status_in(parts[0], parts[1]);
        assert(seq![parts@[0], parts@[1]] =~= parts@);
        draws
    }
}

} // verus!
