//! What the filter overlay shows, and the whole screen.

use super::app::{App, AppView};
use super::draw::{
    bold, bold_style, centered_rect, colored, draw_views, inner_area, item_views, may_centre,
    may_split, plain, selected_style, span_views, split, styled, titled, Block, BlockView, Borders,
    Color, Constraint, Draw, DrawView, Item, ItemView, Line, Rect, Span, Style,
};
use super::highlight::{highlight_matches, highlighted, marked};
use super::listing::{overlay_views, usable_items, OverlayFiltered, OverlayFilteredView};
use super::matching::texts;
use super::names::NameSet;
use super::overlay::{OverlayFocus, OverlayRightFocus, TimeField};
use super::render::{
    input_drawn, list_and_details_drawn, one_draw, one_line, opt_draws, push_draw, push_draws,
    status_drawn, text_field_drawn,
};
use super::time::{may_read, parse_time_input};
use crate::format::{format_u64, nat_text};
use crate::text::is_boundary;
use vstd::prelude::*;
use vstd::string::StringExecFns;

verus! {

/// The names of the overlay's pages.
pub open spec fn page_label(i: int) -> Seq<char> {
    if i == 0 {
        "Host"@
    } else if i == 1 {
        "Directory"@
    } else {
        "Time Range"@
    }
}

/// What stands before the name of a page: an arrow before the active one, filled where keys go
/// to this side.
pub open spec fn page_prefix(s: AppView, i: int) -> Seq<char> {
    if s.overlay_active_item == i && s.overlay_focus == OverlayFocus::Left {
        " \u{25b6} "@
    } else if s.overlay_active_item == i {
        " \u{25b8} "@
    } else {
        "   "@
    }
}

/// The row of a page on the overlay's left side.
pub open spec fn page_item(s: AppView, i: int) -> ItemView {
    ItemView {
        line: seq![
            styled(
                page_prefix(s, i) + page_label(i),
                if s.overlay_active_item == i {
                    selected_style()
                } else {
                    plain()
                },
            ),
        ],
        style: plain(),
    }
}

/// The overlay's left side.
pub open spec fn overlay_left_drawn(s: AppView, area: Rect) -> Seq<DrawView> {
    let block = BlockView {
        borders: Borders::Right,
        title: None,
        title_style: plain(),
        border_style: plain(),
        style: plain(),
    };
    seq![DrawView::List(seq![page_item(s, 0), page_item(s, 1), page_item(s, 2)], Some(block), area)]
}

/// A page with a filter and a list of names.
pub struct FilterPane<'a> {
    pub item: usize,
    pub filter: &'a str,
    pub cursor: usize,
    pub title: &'a str,
    pub filtered: &'a Vec<OverlayFiltered>,
    pub selected: usize,
    pub names: &'a Vec<String>,
    pub chosen: &'a NameSet,
    pub label: &'a str,
}

impl<'a> View for FilterPane<'a> {
    type V = PaneView;

    open spec fn view(&self) -> PaneView {
        PaneView {
            item: self.item as int,
            filter: self.filter@,
            cursor: self.cursor as int,
            title: self.title@,
            filtered: overlay_views(self.filtered@),
            selected: self.selected as int,
            names: texts(self.names@),
            chosen: self.chosen@,
            label: self.label@,
        }
    }
}

impl<'a> FilterPane<'a> {
    /// The cursor is at a boundary, and match positions are usable.
    pub open spec fn wf(&self) -> bool {
        is_boundary(self.filter@, self.cursor as int) && usable_items(self@.filtered)
    }
}

/// What a page with a filter and a list of names holds.
#[verifier::ext_equal]
pub struct PaneView {
    pub item: int,
    pub filter: Seq<char>,
    pub cursor: int,
    pub title: Seq<char>,
    pub filtered: Seq<OverlayFilteredView>,
    pub selected: int,
    pub names: Seq<Seq<char>>,
    pub chosen: Set<Seq<char>>,
    pub label: Seq<char>,
}

/// The row of the item at `at`: whether its name is chosen, and the name with the matches of
/// the filter highlighted.
pub open spec fn name_item(s: AppView, p: PaneView, at: int) -> ItemView {
    let name = p.names[p.filtered[at].idx as int];
    let marker = if p.chosen.contains(name) { "[x] "@ } else { "[ ] "@ };
    let style = if s.overlay_focus == OverlayFocus::Right && at == p.selected {
        selected_style()
    } else {
        plain()
    };
    ItemView {
        line: seq![styled(marker, style)] + marked(
            highlighted(name, p.filtered[at].match_indices, style),
        ),
        style: plain(),
    }
}

/// The rows of the items from `start` to `end`.
pub open spec fn name_items(s: AppView, p: PaneView, start: int, end: int) -> Seq<ItemView>
    decreases end - start,
{
    if end <= start {
        seq![]
    } else {
        let rest = name_items(s, p, start, end - 1);
        if end - 1 < p.filtered.len() && p.filtered[end - 1].idx < p.names.len() {
            rest.push(name_item(s, p, end - 1))
        } else {
            rest
        }
    }
}

/// The first item that is visible among `visible` rows, so that the selected one is visible.
pub open spec fn first_visible(selected: int, visible: int) -> int {
    let above = if visible > 0 { visible - 1 } else { 0 };
    if selected > above {
        selected - above
    } else {
        0
    }
}

/// How a page with a filter is divided.
pub open spec fn pane_constraints() -> Seq<Constraint> {
    seq![Constraint::Length(3), Constraint::Min(1)]
}

/// A page with a filter and a list of names, divided into `parts`.
pub open spec fn pane_drawn_in(s: AppView, p: PaneView, parts: Seq<Rect>) -> Seq<DrawView> {
    let active = s.overlay_focus == OverlayFocus::Right && s.overlay_active_item == p.item
        && s.overlay_right_subfocus == OverlayRightFocus::Filter;
    let visible: int = if parts[1].height > 0 { parts[1].height - 1 } else { 0 };
    let start = first_visible(p.selected, visible);
    let count = nat_text(p.filtered.len()) + " "@ + p.label;
    text_field_drawn(parts[0], p.filter, p.cursor, active, p.title, plain(), false).push(
        DrawView::List(
            name_items(s, p, start, start + visible),
            Some(titled(Borders::Bare, count, bold_style())),
            parts[1],
        ),
    )
}

/// Whether `draws` may be what is drawn of a page with a filter and a list of names.
pub open spec fn pane_drawn(s: AppView, p: PaneView, area: Rect, draws: Seq<DrawView>) -> bool {
    exists|parts: Seq<Rect>| #[trigger]
        may_split(area, true, pane_constraints(), parts) && draws == pane_drawn_in(s, p, parts)
}

/// The page of the hosts.
pub open spec fn host_pane(s: AppView) -> PaneView {
    PaneView {
        item: 0,
        filter: s.overlay_host_filter,
        cursor: s.overlay_host_filter_cursor as int,
        title: "Host"@,
        filtered: s.overlay_host_filtered,
        selected: s.overlay_host_selected as int,
        names: s.all_hosts,
        chosen: s.selected_hosts,
        label: "hosts"@,
    }
}

/// The page of the directories.
pub open spec fn dir_pane(s: AppView) -> PaneView {
    PaneView {
        item: 1,
        filter: s.overlay_dir_filter,
        cursor: s.overlay_dir_filter_cursor as int,
        title: "Dir"@,
        filtered: s.overlay_dir_filtered,
        selected: s.overlay_dir_selected as int,
        names: s.all_dirs,
        chosen: s.selected_dirs,
        label: "dirs"@,
    }
}

/// The style of an end of the time range: green where it can be read, red where it cannot.
pub open spec fn time_style(text: Seq<char>, focused: bool, readable: bool) -> Style {
    if text.len() == 0 {
        plain()
    } else {
        Style {
            bold: focused,
            ..colored(
                if readable {
                    Color::Green
                } else {
                    Color::Red
                },
            )
        }
    }
}

/// How the page of the time range is divided.
pub open spec fn time_constraints() -> Seq<Constraint> {
    seq![Constraint::Length(3), Constraint::Length(3), Constraint::Length(1), Constraint::Min(0)]
}

/// The page of the time range, divided into `parts`, when its ends can be read or not.
pub open spec fn time_drawn_in(
    s: AppView,
    area: Rect,
    parts: Seq<Rect>,
    start_readable: bool,
    end_readable: bool,
) -> Seq<DrawView> {
    let right = s.overlay_focus == OverlayFocus::Right;
    let start_focused = right && s.overlay_active_time_field == TimeField::Start;
    let end_focused = right && s.overlay_active_time_field == TimeField::End;
    let start = text_field_drawn(
        parts[0],
        s.overlay_start_time,
        s.overlay_start_cursor as int,
        start_focused,
        "Start"@,
        time_style(s.overlay_start_time, start_focused, start_readable),
        start_focused,
    );
    let end = text_field_drawn(
        parts[1],
        s.overlay_end_time,
        s.overlay_end_cursor as int,
        end_focused,
        "End"@,
        time_style(s.overlay_end_time, end_focused, end_readable),
        end_focused,
    );
    let hint = DrawView::Paragraph(
        seq![
            seq![
                styled("Format: YYYY-MM-DD or YYYY-MM-DD HH:MM"@, colored(Color::DarkGray)),
            ],
        ],
        None,
        parts[2],
    );
    seq![DrawView::Frame(titled(Borders::Bare, "Time Range"@, bold_style()), area)] + start + end
        + seq![hint]
}

/// Whether an end of the time range may be readable or not.
pub open spec fn may_be_readable(text: Seq<char>, end_of_day: bool, readable: bool) -> bool {
    exists|time: Option<i64>| #[trigger]
        may_read(text, end_of_day, time) && readable == (time is Some)
}

/// Whether `draws` may be what is drawn of the page of the time range.
pub open spec fn time_drawn(s: AppView, area: Rect, draws: Seq<DrawView>) -> bool {
    exists|parts: Seq<Rect>, start: bool, end: bool|
        may_split(inner_area(Borders::Bare, true, area), true, time_constraints(), parts)
            && may_be_readable(s.overlay_start_time, false, start) && may_be_readable(
            s.overlay_end_time,
            true,
            end,
        ) && draws == #[trigger] time_drawn_in(s, area, parts, start, end)
}

/// The frame of the overlay.
pub open spec fn overlay_block() -> BlockView {
    BlockView {
        border_style: colored(Color::Cyan),
        ..titled(Borders::All, "Filter"@, bold_style())
    }
}

/// How the inside of the overlay is divided.
pub open spec fn overlay_constraints() -> Seq<Constraint> {
    seq![Constraint::Percentage(30), Constraint::Percentage(70)]
}

/// Whether `draws` may be what is drawn of the active page.
pub open spec fn page_drawn(s: AppView, area: Rect, draws: Seq<DrawView>) -> bool {
    if s.overlay_active_item == 0 {
        pane_drawn(s, host_pane(s), area, draws)
    } else if s.overlay_active_item == 1 {
        pane_drawn(s, dir_pane(s), area, draws)
    } else {
        time_drawn(s, area, draws)
    }
}

/// Whether `draws` may be what is drawn of the overlay when it lies at `popup` and is divided
/// into `parts`.
pub open spec fn overlay_drawn_in(
    s: AppView,
    popup: Rect,
    parts: Seq<Rect>,
    draws: Seq<DrawView>,
) -> bool {
    exists|page: Seq<DrawView>| #[trigger]
        page_drawn(s, parts[1], page) && draws == seq![
            DrawView::Clear(popup),
            DrawView::Frame(overlay_block(), popup),
        ] + overlay_left_drawn(s, parts[0]) + page
}

/// Whether `draws` may be what is drawn of the overlay on a screen.
pub open spec fn overlay_drawn(s: AppView, area: Rect, draws: Seq<DrawView>) -> bool {
    exists|popup: Rect, parts: Seq<Rect>|
        may_centre(70, 65, area, popup) && may_split(
            inner_area(Borders::All, true, popup),
            false,
            overlay_constraints(),
            parts,
        ) && #[trigger] overlay_drawn_in(s, popup, parts, draws)
}

fn push_item(items: &mut Vec<Item>, item: Item)
    ensures
        item_views(final(items)@) == item_views(old(items)@).push(item@),
{
    items.push(item);
    assert(item_views(items@) =~= item_views(old(items)@).push(item@));
}

/// The style of an end of the time range.
fn style_of_time(text: &str, focused: bool, readable: bool) -> (s: Style)
    ensures
        s == time_style(text@, focused, readable),
{
    if text.is_empty() {
        Style::default()
    } else {
        let fg = if readable { Color::Green } else { Color::Red };
        Style { fg: Some(fg), bg: None, bold: focused, reversed: false }
    }
}

impl App {
    fn draw_page_item(&self, i: usize, label: &str) -> (item: Item)
        requires
            i < 3,
            label@ == page_label(i as int),
        ensures
            item@ == page_item(self@, i as int),
    {
        let active = i == self.overlay_active_item;
        let prefix = if active && self.overlay_focus == OverlayFocus::Left {
            " \u{25b6} "
        } else if active {
            " \u{25b8} "
        } else {
            "   "
        };
        let style = if active { Style::selected() } else { Style::default() };
        let text = prefix.to_owned().concat(label);
        let line = Line::of(Span::styled(text, style));
        Item { line, style: Style::default() }
    }

    /// Draws the overlay's left side, the names of its pages.
    pub fn render_overlay_left(&self, area: Rect) -> (draws: Vec<Draw>)
        ensures
            draw_views(draws@) == overlay_left_drawn(self@, area),
    {
        let mut items: Vec<Item> = Vec::new();
        assert(item_views(items@) =~= seq![]);
        push_item(&mut items, self.draw_page_item(0, "Host"));
        push_item(&mut items, self.draw_page_item(1, "Directory"));
        push_item(&mut items, self.draw_page_item(2, "Time Range"));
        let block = Block {
            borders: Borders::Right,
            title: None,
            title_style: Style::default(),
            border_style: Style::default(),
            style: Style::default(),
        };
        assert(item_views(items@) =~= seq![
            page_item(self@, 0),
            page_item(self@, 1),
            page_item(self@, 2),
        ]);
        one_draw(Draw::List(items, Some(block), area))
    }

    fn draw_name_item(&self, pane: &FilterPane, at: usize) -> (row: Item)
        requires
            pane.wf(),
            at < pane.filtered@.len(),
            pane.filtered@[at as int].idx < pane.names@.len(),
        ensures
            row@ == name_item(self@, pane@, at as int),
    {
        let item = &pane.filtered[at];
        let name = &pane.names[item.idx];
        let marker = if pane.chosen.contains(name) { "[x] " } else { "[ ] " };
        let style = if self.overlay_focus == OverlayFocus::Right && at == pane.selected {
            Style::selected()
        } else {
            Style::default()
        };
        proof {
            assert(pane@.filtered[at as int] == item@);
            assert forall|k: int| 0 <= k < item.match_indices@.len() implies #[trigger]
                item.match_indices@[k] < usize::MAX by {
                assert(pane@.filtered[at as int].match_indices[k] < usize::MAX);
            }
        }
        let mut marks = highlight_matches(name.as_str(), item.match_indices.as_slice(), style);
        let ghost shown = span_views(marks@);
        let mut spans: Vec<Span> = Vec::new();
        spans.push(Span::styled(marker.to_owned(), style));
        spans.append(&mut marks);
        let line = Line { spans };
        assert(line@ =~= seq![styled(marker@, style)] + shown);
        Item { line, style: Style::default() }
    }

    /// Draws a page with a filter and a list of names into its two parts.
    pub fn render_filter_list_in(&self, top: Rect, bottom: Rect, pane: &FilterPane) -> (draws: Vec<
        Draw,
    >)
        requires
            pane.wf(),
        ensures
            draw_views(draws@) == pane_drawn_in(self@, pane@, seq![top, bottom]),
    {
        let active = self.overlay_focus == OverlayFocus::Right && self.overlay_active_item
            == pane.item && self.overlay_right_subfocus == OverlayRightFocus::Filter;
        let mut draws = self.render_filter_input(
            top,
            pane.filter,
            pane.cursor,
            active,
            pane.title,
            Style::default(),
            false,
        );
        let visible = bottom.height.saturating_sub(1) as usize;
        let start = pane.selected.saturating_sub(visible.saturating_sub(1));
        let n = pane.filtered.len();
        let mut items: Vec<Item> = Vec::new();
        let mut k: usize = 0;
        assert(item_views(items@) =~= seq![]);
        while k < visible
            invariant
                k <= visible,
                pane.wf(),
                n == pane.filtered@.len(),
                item_views(items@) == name_items(self@, pane@, start as int, start + k),
            decreases visible - k,
        {
            if start < n && k < n - start {
                let at = start + k;
                assert(pane@.filtered[at as int] == pane.filtered@[at as int]@);
                if pane.filtered[at].idx < pane.names.len() {
                    push_item(&mut items, self.draw_name_item(pane, at));
                }
            }
            k = k + 1;
        }
        let mut count = format_u64(n as u64);
        count.append(" ");
        count.append(pane.label);
        let block = Block::titled(Borders::Bare, count, bold());
        push_draw(&mut draws, Draw::List(items, Some(block), bottom));
        draws
    }

    /// Draws a page with a filter and a list of names.
    pub fn render_overlay_filter_list(&self, area: Rect, pane: &FilterPane) -> (draws: Vec<Draw>)
        requires
            pane.wf(),
        ensures
            pane_drawn(self@, pane@, area, draw_views(draws@)),
    {
        let mut constraints: Vec<Constraint> = Vec::new();
        constraints.push(Constraint::Length(3));
        constraints.push(Constraint::Min(1));
        assert(constraints@ =~= pane_constraints());
        let parts = split(area, true, &constraints);
        assert(seq![parts@[0], parts@[1]] =~= parts@);
        self.render_filter_list_in(parts[0], parts[1], pane)
    }

    /// Draws the page of the hosts.
    pub fn render_overlay_hosts(&self, area: Rect) -> (draws: Vec<Draw>)
        requires
            self.wf(),
        ensures
            pane_drawn(self@, host_pane(self@), area, draw_views(draws@)),
    {
        let pane = FilterPane {
            item: 0,
            filter: self.overlay_host_filter.as_str(),
            cursor: self.overlay_host_filter_cursor,
            title: "Host",
            filtered: &self.overlay_host_filtered,
            selected: self.overlay_host_selected,
            names: &self.all_hosts,
            chosen: &self.selected_hosts,
            label: "hosts",
        };
        assert(pane@ =~= host_pane(self@));
        self.render_overlay_filter_list(area, &pane)
    }

    /// Draws the page of the directories.
    pub fn render_overlay_dirs(&self, area: Rect) -> (draws: Vec<Draw>)
        requires
            self.wf(),
        ensures
            pane_drawn(self@, dir_pane(self@), area, draw_views(draws@)),
    {
        let pane = FilterPane {
            item: 1,
            filter: self.overlay_dir_filter.as_str(),
            cursor: self.overlay_dir_filter_cursor,
            title: "Dir",
            filtered: &self.overlay_dir_filtered,
            selected: self.overlay_dir_selected,
            names: &self.all_dirs,
            chosen: &self.selected_dirs,
            label: "dirs",
        };
        assert(pane@ =~= dir_pane(self@));
        self.render_overlay_filter_list(area, &pane)
    }

    /// Draws the page of the time range into its parts, when its ends can be read or not.
    pub fn render_time_in(
        &self,
        area: Rect,
        parts: &Vec<Rect>,
        start_readable: bool,
        end_readable: bool,
    ) -> (draws: Vec<Draw>)
        requires
            self.wf(),
            parts@.len() == 4,
        ensures
            draw_views(draws@) == time_drawn_in(
                self@,
                area,
                parts@,
                start_readable,
                end_readable,
            ),
    {
        let right = self.overlay_focus == OverlayFocus::Right;
        let start_focused = right && self.overlay_active_time_field == TimeField::Start;
        let end_focused = right && self.overlay_active_time_field == TimeField::End;
        let start_text = self.overlay_start_time.as_str();
        let end_text = self.overlay_end_time.as_str();
        let block = Block::titled(Borders::Bare, "Time Range".to_owned(), bold());
        let mut draws = one_draw(Draw::Frame(block, area));
        push_draws(
            &mut draws,
            self.render_filter_input(
                parts[0],
                start_text,
                self.overlay_start_cursor,
                start_focused,
                "Start",
                style_of_time(start_text, start_focused, start_readable),
                start_focused,
            ),
        );
        push_draws(
            &mut draws,
            self.render_filter_input(
                parts[1],
                end_text,
                self.overlay_end_cursor,
                end_focused,
                "End",
                style_of_time(end_text, end_focused, end_readable),
                end_focused,
            ),
        );
        let hint = Span::styled(
            "Format: YYYY-MM-DD or YYYY-MM-DD HH:MM".to_owned(),
            Style::colored(Color::DarkGray),
        );
        let ghost before = draw_views(draws@);
        let last = Draw::Paragraph(one_line(Line::of(hint)), None, parts[2]);
        push_draw(&mut draws, last);
        assert(before.push(last@) =~= before + seq![last@]);
        draws
    }

    /// Draws the page of the time range.
    pub fn render_overlay_time(&self, area: Rect) -> (draws: Vec<Draw>)
        requires
            self.wf(),
        ensures
            time_drawn(self@, area, draw_views(draws@)),
    {
        let block = Block::titled(Borders::Bare, "Time Range".to_owned(), bold());
        let inner = block.inner(area);
        let mut constraints: Vec<Constraint> = Vec::new();
        constraints.push(Constraint::Length(3));
        constraints.push(Constraint::Length(3));
        constraints.push(Constraint::Length(1));
        constraints.push(Constraint::Min(0));
        assert(constraints@ =~= time_constraints());
        let parts = split(inner, true, &constraints);
        let start = parse_time_input(self.overlay_start_time.as_str(), false);
        let end = parse_time_input(self.overlay_end_time.as_str(), true);
        assert(may_be_readable(self@.overlay_start_time, false, start is Some));
        assert(may_be_readable(self@.overlay_end_time, true, end is Some));
        self.render_time_in(area, &parts, start.is_some(), end.is_some())
    }

    /// Draws the overlay on a screen.
    pub fn render_overlay(&self, area: Rect) -> (draws: Vec<Draw>)
        requires
            self.wf(),
        ensures
            overlay_drawn(self@, area, draw_views(draws@)),
    {
        let popup = centered_rect(70, 65, area);
        let mut block = Block::titled(Borders::All, "Filter".to_owned(), bold());
        block.border_style = Style::colored(Color::Cyan);
        let inner = block.inner(popup);
        let mut constraints: Vec<Constraint> = Vec::new();
        constraints.push(Constraint::Percentage(30));
        constraints.push(Constraint::Percentage(70));
        assert(constraints@ =~= overlay_constraints());
        let parts = split(inner, false, &constraints);
        let mut draws: Vec<Draw> = Vec::new();
        assert(draw_views(draws@) =~= seq![]);
        push_draw(&mut draws, Draw::Clear(popup));
        assert(block@ =~= overlay_block());
        push_draw(&mut draws, Draw::Frame(block, popup));
        assert(draw_views(draws@) =~= seq![
            DrawView::Clear(popup),
            DrawView::Frame(overlay_block(), popup),
        ]);
        push_draws(&mut draws, self.render_overlay_left(parts[0]));
        let page = if self.overlay_active_item == 0 {
            self.render_overlay_hosts(parts[1])
        } else if self.overlay_active_item == 1 {
            self.render_overlay_dirs(parts[1])
        } else {
            self.render_overlay_time(parts[1])
        };
        assert(page_drawn(self@, parts@[1], draw_views(page@)));
        push_draws(&mut draws, page);
        assert(overlay_drawn_in(self@, popup, parts@, draw_views(draws@)));
        draws
    }
}

/// How the screen is divided: the input line, the list and the details, the status line.
pub open spec fn screen_constraints() -> Seq<Constraint> {
    seq![Constraint::Length(3), Constraint::Min(1), Constraint::Length(1)]
}

/// Whether `over` may be what is drawn over the rest: the overlay, where it is open.
pub open spec fn over_drawn(s: AppView, area: Rect, over: Seq<DrawView>) -> bool {
    if s.show_overlay {
        overlay_drawn(s, area, over)
    } else {
        over.len() == 0
    }
}

/// Whether drawing the screen, divided into `parts`, leads from `s` to `t` and gives `draws`.
pub open spec fn screen_drawn_in(
    s: AppView,
    area: Rect,
    parts: Seq<Rect>,
    t: AppView,
    draws: Option<Seq<DrawView>>,
) -> bool {
    match draws {
        Some(d) => exists|middle: Seq<DrawView>, status: Seq<DrawView>, over: Seq<DrawView>|
            #![trigger list_and_details_drawn(s, parts[1], t, Some(middle)),
                status_drawn(t, parts[2], status), over_drawn(t, area, over)]
            list_and_details_drawn(s, parts[1], t, Some(middle)) && status_drawn(
                t,
                parts[2],
                status,
            ) && over_drawn(t, area, over) && d == input_drawn(s, parts[0]) + middle + status
                + over,
        None => list_and_details_drawn(s, parts[1], t, None),
    }
}

/// Whether drawing the screen may lead from `s` to `t` and give `draws`.
pub open spec fn screen_drawn(
    s: AppView,
    area: Rect,
    t: AppView,
    draws: Option<Seq<DrawView>>,
) -> bool {
    exists|parts: Seq<Rect>|
        may_split(area, true, screen_constraints(), parts) && #[trigger] screen_drawn_in(
            s,
            area,
            parts,
            t,
            draws,
        )
}

impl App {
    /// Draws the screen. `None` if a start time that would be seen cannot be shown.
    pub fn render(&mut self, area: Rect) -> (draws: Option<Vec<Draw>>)
        requires
            old(self).wf(),
        ensures
            final(self).wf(),
            screen_drawn(old(self)@, area, final(self)@, opt_draws(draws)),
    {
        let ghost s = self@;
        let mut constraints: Vec<Constraint> = Vec::new();
        constraints.push(Constraint::Length(3));
        constraints.push(Constraint::Min(1));
        constraints.push(Constraint::Length(1));
        assert(constraints@ =~= screen_constraints());
        let parts = split(area, true, &constraints);
        let mut draws = self.render_input(parts[0]);
        let middle = self.render_list_and_details(parts[1]);
        let ghost listed = opt_draws(middle);
        let middle = match middle {
            Some(middle) => middle,
            None => {
                assert(screen_drawn_in(s, area, parts@, self@, None));
                return None;
            },
        };
        let status = self.render_status(parts[2]);
        let over = if self.show_overlay { self.render_overlay(area) } else { Vec::new() };
        let ghost (m, st, o) = (draw_views(middle@), draw_views(status@), draw_views(over@));
        proof {
            assert(list_and_details_drawn(s, parts@[1], self@, Some(m)));
            assert(status_drawn(self@, parts@[2], st));
            assert(over_drawn(self@, area, o));
        }
        push_draws(&mut draws, middle);
        push_draws(&mut draws, status);
        push_draws(&mut draws, over);
        assert(screen_drawn_in(s, area, parts@, self@, Some(draw_views(draws@))));
        Some(draws)
    }
}

} // verus!
