//! What is drawn on the screen, and where.

use crate::db::opt_text;
use ratatui::layout::{Direction, Layout};
use vstd::prelude::*;

verus! {

/// An area of the screen.
#[derive(Clone, Copy, Debug, PartialEq, Eq, Structural)]
pub struct Rect {
    pub x: u16,
    pub y: u16,
    pub width: u16,
    pub height: u16,
}

/// How much of an area a part of it gets.
#[derive(Clone, Copy, Debug, PartialEq, Eq, Structural)]
pub enum Constraint {
    Length(u16),
    Min(u16),
    Percentage(u16),
}

/// A colour of the terminal.
#[derive(Clone, Copy, Debug, PartialEq, Eq, Structural)]
pub enum Color {
    Yellow,
    Cyan,
    DarkGray,
    Green,
    Red,
    Indexed(u8),
}

/// Colours and emphasis.
#[derive(Clone, Copy, Debug, PartialEq, Eq)]
pub struct Style {
    pub fg: Option<Color>,
    pub bg: Option<Color>,
    pub bold: bool,
    pub reversed: bool,
}

/// The style without colours and emphasis.
pub open spec fn plain() -> Style {
    Style { fg: None, bg: None, bold: false, reversed: false }
}

/// The style in one colour.
pub open spec fn colored(fg: Color) -> Style {
    Style { fg: Some(fg), ..plain() }
}

/// The style of a title.
pub open spec fn bold_style() -> Style {
    Style { bold: true, ..plain() }
}

/// The style of a match.
pub open spec fn highlight_style() -> Style {
    Style { fg: Some(Color::Yellow), bold: true, ..plain() }
}

/// The style of a selected row.
pub open spec fn selected_style() -> Style {
    Style { bg: Some(Color::Indexed(234)), bold: true, ..plain() }
}

/// One style on top of another: its colours win, and emphasis adds up.
pub open spec fn patched(base: Style, top: Style) -> Style {
    Style {
        fg: if top.fg is Some {
            top.fg
        } else {
            base.fg
        },
        bg: if top.bg is Some {
            top.bg
        } else {
            base.bg
        },
        bold: base.bold || top.bold,
        reversed: base.reversed || top.reversed,
    }
}

impl Default for Style {
    fn default() -> (s: Self)
        ensures
            s == plain(),
    {
        Style { fg: None, bg: None, bold: false, reversed: false }
    }
}

impl Style {
    /// The style in one colour.
    pub fn colored(fg: Color) -> (s: Self)
        ensures
            s == colored(fg),
    {
        Style { fg: Some(fg), bg: None, bold: false, reversed: false }
    }

    /// The style of a selected row.
    pub fn selected() -> (s: Self)
        ensures
            s == selected_style(),
    {
        Style { fg: None, bg: Some(Color::Indexed(234)), bold: true, reversed: false }
    }

    /// This style with another one on top.
    pub fn patch(self, other: Style) -> (s: Self)
        ensures
            s == patched(self, other),
    {
        Style {
            fg: if other.fg.is_some() {
                other.fg
            } else {
                self.fg
            },
            bg: if other.bg.is_some() {
                other.bg
            } else {
                self.bg
            },
            bold: self.bold || other.bold,
            reversed: self.reversed || other.reversed,
        }
    }
}

/// The style of a title.
pub fn bold() -> (s: Style)
    ensures
        s == bold_style(),
{
    Style { fg: None, bg: None, bold: true, reversed: false }
}

/// The style of a match.
pub fn highlight() -> (s: Style)
    ensures
        s == highlight_style(),
{
    Style { fg: Some(Color::Yellow), bg: None, bold: true, reversed: false }
}

/// Text in one style.
#[derive(Debug)]
pub struct Span {
    pub text: String,
    pub style: Style,
}

/// What a span holds.
#[verifier::ext_equal]
pub struct SpanView {
    pub text: Seq<char>,
    pub style: Style,
}

impl View for Span {
    type V = SpanView;

    open spec fn view(&self) -> SpanView {
        SpanView { text: self.text@, style: self.style }
    }
}

/// What each of the spans holds.
pub open spec fn span_views(s: Seq<Span>) -> Seq<SpanView> {
    s.map_values(|x: Span| x@)
}

/// Text without a style.
pub open spec fn raw(text: Seq<char>) -> SpanView {
    SpanView { text, style: plain() }
}

/// Text in a style.
pub open spec fn styled(text: Seq<char>, style: Style) -> SpanView {
    SpanView { text, style }
}

impl Span {
    /// Text without a style.
    pub fn raw(text: String) -> (s: Self)
        ensures
            s@ == raw(text@),
    {
        Span { text, style: Style::default() }
    }

    /// Text in a style.
    pub fn styled(text: String, style: Style) -> (s: Self)
        ensures
            s@ == styled(text@, style),
    {
        Span { text, style }
    }
}

/// A row of text.
#[derive(Debug)]
pub struct Line {
    pub spans: Vec<Span>,
}

impl View for Line {
    type V = Seq<SpanView>;

    open spec fn view(&self) -> Seq<SpanView> {
        span_views(self.spans@)
    }
}

/// What each of the lines holds.
pub open spec fn line_views(s: Seq<Line>) -> Seq<Seq<SpanView>> {
    s.map_values(|x: Line| x@)
}

impl Line {
    /// A row of one span.
    pub fn of(span: Span) -> (l: Self)
        ensures
            l@ == seq![span@],
    {
        let mut spans: Vec<Span> = Vec::new();
        spans.push(span);
        let l = Line { spans };
        assert(l@ =~= seq![span@]);
        l
    }

    /// A row of two spans.
    pub fn pair(a: Span, b: Span) -> (l: Self)
        ensures
            l@ == seq![a@, b@],
    {
        let mut spans: Vec<Span> = Vec::new();
        spans.push(a);
        spans.push(b);
        let l = Line { spans };
        assert(l@ =~= seq![a@, b@]);
        l
    }

    /// A row of three spans.
    pub fn triple(a: Span, b: Span, c: Span) -> (l: Self)
        ensures
            l@ == seq![a@, b@, c@],
    {
        let mut spans: Vec<Span> = Vec::new();
        spans.push(a);
        spans.push(b);
        spans.push(c);
        let l = Line { spans };
        assert(l@ =~= seq![a@, b@, c@]);
        l
    }
}

/// A row of a list, on a background.
#[derive(Debug)]
pub struct Item {
    pub line: Line,
    pub style: Style,
}

/// What a row of a list holds.
#[verifier::ext_equal]
pub struct ItemView {
    pub line: Seq<SpanView>,
    pub style: Style,
}

impl View for Item {
    type V = ItemView;

    open spec fn view(&self) -> ItemView {
        ItemView { line: self.line@, style: self.style }
    }
}

/// What each of the rows holds.
pub open spec fn item_views(s: Seq<Item>) -> Seq<ItemView> {
    s.map_values(|x: Item| x@)
}

/// The sides of a block that have a border.
#[derive(Clone, Copy, Debug, PartialEq, Eq, Structural)]
pub enum Borders {
    Bare,
    Right,
    All,
}

/// A frame with a title.
#[derive(Debug)]
pub struct Block {
    pub borders: Borders,
    pub title: Option<String>,
    pub title_style: Style,
    pub border_style: Style,
    pub style: Style,
}

/// What a frame holds.
#[verifier::ext_equal]
pub struct BlockView {
    pub borders: Borders,
    pub title: Option<Seq<char>>,
    pub title_style: Style,
    pub border_style: Style,
    pub style: Style,
}

impl View for Block {
    type V = BlockView;

    open spec fn view(&self) -> BlockView {
        BlockView {
            borders: self.borders,
            title: opt_text(self.title),
            title_style: self.title_style,
            border_style: self.border_style,
            style: self.style,
        }
    }
}

/// A frame with borders as given, a title, and no other style than that of the title.
pub open spec fn titled(borders: Borders, title: Seq<char>, title_style: Style) -> BlockView {
    BlockView {
        borders,
        title: Some(title),
        title_style,
        border_style: plain(),
        style: plain(),
    }
}

/// `a - b`, or nothing.
pub open spec fn less(a: u16, b: u16) -> u16 {
    if a > b {
        (a - b) as u16
    } else {
        0
    }
}

/// `a + 1`, but no more than where the area ends that starts at `a` and is `extent` long.
pub open spec fn one_in(a: u16, extent: u16) -> u16 {
    if extent == 0 || a == u16::MAX {
        a
    } else {
        (a + 1) as u16
    }
}

/// The area inside a frame. A title takes the first row even where there is no border.
pub open spec fn inner_area(borders: Borders, has_title: bool, area: Rect) -> Rect {
    match borders {
        Borders::All => Rect {
            x: one_in(area.x, area.width),
            y: one_in(area.y, area.height),
            width: less(area.width, 2),
            height: less(area.height, 2),
        },
        _ => {
            let width = if borders == Borders::Right {
                less(area.width, 1)
            } else {
                area.width
            };
            if has_title {
                Rect {
                    x: area.x,
                    y: one_in(area.y, area.height),
                    width,
                    height: less(area.height, 1),
                }
            } else {
                Rect { width, ..area }
            }
        },
    }
}

fn step_in(a: u16, extent: u16) -> (r: u16)
    ensures
        r == one_in(a, extent),
{
    if extent == 0 || a == 65535 {
        a
    } else {
        a + 1
    }
}

impl Block {
    /// A frame with borders as given and a title.
    pub fn titled(borders: Borders, title: String, title_style: Style) -> (b: Self)
        ensures
            b@ == titled(borders, title@, title_style),
    {
        Block {
            borders,
            title: Some(title),
            title_style,
            border_style: Style::default(),
            style: Style::default(),
        }
    }

    /// The area inside this frame.
    pub fn inner(&self, area: Rect) -> (r: Rect)
        ensures
            r == inner_area(self.borders, self.title is Some, area),
    {
        match self.borders {
            Borders::All => Rect {
                x: step_in(area.x, area.width),
                y: step_in(area.y, area.height),
                width: area.width.saturating_sub(2),
                height: area.height.saturating_sub(2),
            },
            _ => {
                let width = match self.borders {
                    Borders::Right => area.width.saturating_sub(1),
                    _ => area.width,
                };
                if self.title.is_some() {
                    Rect {
                        x: area.x,
                        y: step_in(area.y, area.height),
                        width,
                        height: area.height.saturating_sub(1),
                    }
                } else {
                    Rect { x: area.x, y: area.y, width, height: area.height }
                }
            },
        }
    }
}

/// Something to draw.
#[derive(Debug)]
pub enum Draw {
    Clear(Rect),
    Frame(Block, Rect),
    Paragraph(Vec<Line>, Option<Block>, Rect),
    List(Vec<Item>, Option<Block>, Rect),
    Cursor(u16, u16),
}

/// What something to draw holds.
#[verifier::ext_equal]
pub enum DrawView {
    Clear(Rect),
    Frame(BlockView, Rect),
    Paragraph(Seq<Seq<SpanView>>, Option<BlockView>, Rect),
    List(Seq<ItemView>, Option<BlockView>, Rect),
    Cursor(u16, u16),
}

/// What a frame holds, where there is one.
pub open spec fn block_view(b: Option<Block>) -> Option<BlockView> {
    match b {
        Some(x) => Some(x@),
        None => None,
    }
}

impl View for Draw {
    type V = DrawView;

    open spec fn view(&self) -> DrawView {
        match *self {
            Draw::Clear(area) => DrawView::Clear(area),
            Draw::Frame(block, area) => DrawView::Frame(block@, area),
            Draw::Paragraph(lines, block, area) => DrawView::Paragraph(
                line_views(lines@),
                block_view(block),
                area,
            ),
            Draw::List(items, block, area) => DrawView::List(
                item_views(items@),
                block_view(block),
                area,
            ),
            Draw::Cursor(x, y) => DrawView::Cursor(x, y),
        }
    }
}

/// What each of the things to draw holds.
pub open spec fn draw_views(s: Seq<Draw>) -> Seq<DrawView> {
    s.map_values(|x: Draw| x@)
}

/// Whether `parts` may be what a ratatui layout makes of an area.
pub uninterp spec fn may_lay_out(
    area: Rect,
    vertical: bool,
    constraints: Seq<Constraint>,
    parts: Seq<Rect>,
) -> bool;

/// Calls `Layout::split` of ratatui on the area with the same four fields.
///
/// Trusted: there is one part for each constraint, and the parts are as wide as the area where
/// they lie one below the other, and as high where they lie side by side. How the other extent
/// is shared out is left unsaid: where not all constraints can be met it depends on the order
/// in which the solver walks its hash maps, and their hashers are seeded anew in each process.
#[verifier::external_body]
fn lay_out(area: Rect, vertical: bool, constraints: &Vec<Constraint>) -> (parts: Vec<Rect>)
    ensures
        may_lay_out(area, vertical, constraints@, parts@),
        parts@.len() == constraints@.len(),
        forall|i: int| #![trigger parts@[i]]
            0 <= i < parts@.len() ==> if vertical {
                parts@[i].x == area.x && parts@[i].width == area.width
            } else {
                parts@[i].y == area.y && parts@[i].height == area.height
            },
{
    let direction = if vertical { Direction::Vertical } else { Direction::Horizontal };
    let layout = Layout::default().direction(direction).constraints(constraints.iter().map(|c| match c {
        Constraint::Length(n) => ratatui::layout::Constraint::Length(*n),
        Constraint::Min(n) => ratatui::layout::Constraint::Min(*n),
        Constraint::Percentage(n) => ratatui::layout::Constraint::Percentage(*n),
    }));
    let Rect { x, y, width, height } = area;
    let parts = layout.split(ratatui::layout::Rect { x, y, width, height });
    parts.iter().map(|r| Rect { x: r.x, y: r.y, width: r.width, height: r.height }).collect()
}

/// Whether `parts` may be the parts of an area, one for each constraint.
pub open spec fn may_split(
    area: Rect,
    vertical: bool,
    constraints: Seq<Constraint>,
    parts: Seq<Rect>,
) -> bool {
    &&& may_lay_out(area, vertical, constraints, parts)
    &&& parts.len() == constraints.len()
    &&& forall|i: int| #![trigger parts[i]]
        0 <= i < parts.len() ==> if vertical {
            parts[i].x == area.x && parts[i].width == area.width
        } else {
            parts[i].y == area.y && parts[i].height == area.height
        }
}

/// Splits an area into parts.
pub fn split(area: Rect, vertical: bool, constraints: &Vec<Constraint>) -> (parts: Vec<Rect>)
    ensures
        may_split(area, vertical, constraints@, parts@),
{
    lay_out(area, vertical, constraints)
}

/// The constraints of an area centred in another, of which it takes `percent` percent.
pub open spec fn centering(percent: u16) -> Seq<Constraint> {
    let margin = ((100 - percent) / 2) as u16;
    seq![
        Constraint::Percentage(margin),
        Constraint::Percentage(percent),
        Constraint::Percentage(margin),
    ]
}

fn centering_parts(area: Rect, vertical: bool, percent: u16) -> (parts: Vec<Rect>)
    requires
        percent <= 100,
    ensures
        may_split(area, vertical, centering(percent), parts@),
{
    let margin = (100 - percent) / 2;
    let mut constraints: Vec<Constraint> = Vec::new();
    constraints.push(Constraint::Percentage(margin));
    constraints.push(Constraint::Percentage(percent));
    constraints.push(Constraint::Percentage(margin));
    assert(constraints@ =~= centering(percent));
    split(area, vertical, &constraints)
}

/// Whether `r` may be the middle of an area.
pub open spec fn may_centre(width_pct: u16, height_pct: u16, area: Rect, r: Rect) -> bool {
    exists|rows: Seq<Rect>, columns: Seq<Rect>|
        #![trigger may_split(area, true, centering(height_pct), rows),
            may_split(rows[1], false, centering(width_pct), columns)]
        may_split(area, true, centering(height_pct), rows) && may_split(
            rows[1],
            false,
            centering(width_pct),
            columns,
        ) && r == columns[1]
}

/// The middle of an area, of the given percentages of its width and height.
pub fn centered_rect(width_pct: u16, height_pct: u16, r: Rect) -> (c: Rect)
    requires
        width_pct <= 100,
        height_pct <= 100,
    ensures
        may_centre(width_pct, height_pct, r, c),
{
    let rows = centering_parts(r, true, height_pct);
    let columns = centering_parts(rows[1], false, width_pct);
    columns[1]
}

} // verus!
