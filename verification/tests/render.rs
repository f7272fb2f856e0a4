use zhist::db::{HistdbInfo, HistoryEntry};
use zhist::tui::draw::{
    centered_rect, split, Block, Borders, Color, Constraint, Draw, Rect, Span, Style,
};
use zhist::tui::filter::{FilteredEntry, Rank};
use zhist::tui::highlight::inject_newlines;
use zhist::tui::keys::{KeyCode, KeyEvent};
use zhist::tui::names::NameSet;
use zhist::tui::overlay::OverlayFiltered;
use zhist::tui::panes::FilterPane;
use zhist::tui::render::{bold, group_into_ranges, highlight, highlight_matches};
use zhist::tui::App;

fn rect(x: u16, y: u16, width: u16, height: u16) -> Rect {
    Rect { x, y, width, height }
}

fn entry(id: i64, argv: &str) -> HistoryEntry {
    HistoryEntry {
        id,
        session: 4,
        exit_status: None,
        start_time: 1_000_000_000,
        duration: Some(25),
        argv: argv.into(),
        host: "box".into(),
        dir: "/src".into(),
    }
}

fn app_with(entries: Vec<HistoryEntry>) -> App {
    let mut app = App::new(None, HistdbInfo::from_env(None, None, None, false), None);
    app.receiving = true;
    app.try_load_chunk(vec![entries], true);
    app
}

fn texts(spans: &[Span]) -> Vec<&str> {
    spans.iter().map(|s| s.text.as_str()).collect()
}

fn row(spans: &[Span]) -> String {
    spans.iter().map(|s| s.text.as_str()).collect()
}

#[test]
fn group_ranges() {
    let ranges = group_into_ranges(&[0, 1, 2, 5, 6, 9]);
    assert_eq!(ranges, vec![(0, 3), (5, 7), (9, 10)]);
}

#[test]
fn ranges_stand_for_their_positions() {
    for indices in [vec![], vec![4], vec![1, 2, 3], vec![3, 1, 2, 2], vec![0, 2, 4, 5]] {
        let mut back = vec![];
        for (a, b) in group_into_ranges(&indices) {
            back.extend(a..b);
        }
        assert_eq!(back, indices);
    }
}

#[test]
fn matches_are_highlighted() {
    let spans = highlight_matches("abcdef", &[1, 2, 5], Style::default());
    assert_eq!(texts(&spans), vec!["a", "bc", "de", "f"]);
    assert_eq!(spans[0].style, Style::default());
    assert_eq!(spans[1].style, highlight());
    assert_eq!(spans[3].style, highlight());
    let spans = highlight_matches("abc", &[], bold());
    assert_eq!(texts(&spans), vec!["abc"]);
    assert_eq!(spans[0].style, bold());
    let spans = highlight_matches("abc", &[7], bold());
    assert_eq!(texts(&spans), vec!["abc"]);
    assert!(highlight_matches("", &[], bold()).is_empty());
}

#[test]
fn highlights_grow_to_whole_characters() {
    let spans = highlight_matches("a…b", &[2], Style::default());
    assert_eq!(texts(&spans), vec!["a", "…", "b"]);
    assert_eq!(spans[1].style, highlight());
    assert_eq!(row(&spans), "a…b");
}

#[test]
fn a_highlight_keeps_the_background() {
    let spans = highlight_matches("ab", &[0], Style::selected());
    assert_eq!(
        spans[0].style,
        Style { fg: Some(Color::Yellow), bg: Some(Color::Indexed(234)), bold: true, reversed: false }
    );
}

#[test]
fn line_breaks_are_marked() {
    let spans = highlight_matches("a\n\nb\n", &[0], Style::default());
    assert_eq!(texts(&spans), vec!["a", "\\n", "\\n", "b", "\\n"]);
    assert_eq!(spans[1].style, Style::colored(Color::Cyan));
    let plain = inject_newlines(vec![Span::raw("x".to_string()), Span::raw(String::new())]);
    assert_eq!(texts(&plain), vec!["x"]);
}

#[test]
fn layouts_share_out_the_space() {
    let parts = split(
        rect(0, 0, 80, 24),
        true,
        &vec![Constraint::Length(3), Constraint::Min(1), Constraint::Length(1)],
    );
    assert_eq!(parts, vec![rect(0, 0, 80, 3), rect(0, 3, 80, 20), rect(0, 23, 80, 1)]);
    let parts = split(
        rect(0, 3, 80, 20),
        false,
        &vec![Constraint::Percentage(50), Constraint::Percentage(50)],
    );
    assert_eq!(parts, vec![rect(0, 3, 40, 20), rect(40, 3, 40, 20)]);
}

#[test]
fn popups_are_centred() {
    assert_eq!(centered_rect(70, 65, rect(0, 0, 100, 100)), rect(15, 17, 70, 65));
}

#[test]
fn frames_leave_the_inside() {
    let all = Block::titled(Borders::All, "t".to_string(), bold());
    assert_eq!(all.inner(rect(0, 0, 10, 5)), rect(1, 1, 8, 3));
    assert_eq!(all.inner(rect(3, 4, 1, 0)), rect(4, 4, 0, 0));
    let bare = Block::titled(Borders::Bare, "t".to_string(), bold());
    assert_eq!(bare.inner(rect(0, 0, 10, 5)), rect(0, 1, 10, 4));
}

#[test]
fn an_empty_line_shows_a_hint() {
    let app = app_with(vec![]);
    let draws = app.render_input(rect(0, 0, 20, 3));
    assert_eq!(draws.len(), 1);
    match &draws[0] {
        Draw::Paragraph(lines, Some(block), area) => {
            assert_eq!(row(&lines[0].spans), "Type to filter...");
            assert_eq!(lines[0].spans[0].style, Style::colored(Color::DarkGray));
            assert_eq!(block.title.as_deref(), Some("Search"));
            assert_eq!(*area, rect(0, 0, 20, 3));
        }
        other => panic!("{other:?}"),
    }
}

#[test]
fn the_cursor_is_reversed() {
    let mut app = app_with(vec![]);
    app.input = "a…c".to_string();
    app.cursor = 1;
    let line = app.render_input_with_cursor();
    assert_eq!(texts(&line.spans), vec!["a", "…", "c"]);
    assert!(line.spans[1].style.reversed);
    let draws = app.render_input(rect(2, 0, 20, 3));
    assert!(matches!(draws[1], Draw::Cursor(4, 1)));
    app.cursor = 5;
    assert_eq!(texts(&app.render_input_with_cursor().spans), vec!["a…c", "", ""]);
}

#[test]
fn text_fields_show_title_text_or_cursor() {
    let app = app_with(vec![]);
    let area = rect(0, 0, 10, 3);
    let draws = app.render_filter_input(area, "", 0, true, "Host", bold(), false);
    assert_eq!(draws.len(), 1);
    let draws = app.render_filter_input(area, "abc", 9, true, "Host", bold(), true);
    assert!(matches!(draws[1], Draw::Cursor(4, 1)));
    match &draws[0] {
        Draw::Paragraph(lines, Some(block), _) => {
            assert_eq!(texts(&lines[0].spans), vec!["abc", "", ""]);
            assert_eq!(block.title_style, Style::colored(Color::Cyan));
            assert_eq!(block.style.bg, Some(Color::Indexed(234)));
        }
        other => panic!("{other:?}"),
    }
    let draws = app.render_filter_input(area, "abc", 1, false, "Host", bold(), false);
    assert_eq!(draws.len(), 1);
}

#[test]
fn details_show_the_selected_entry() {
    let app = app_with(vec![entry(77, "one\ntwo")]);
    let draws = app.render_details(rect(0, 0, 40, 15)).expect("a time that can be shown");
    match &draws[0] {
        Draw::Paragraph(lines, Some(block), _) => {
            assert_eq!(block.title.as_deref(), Some("Details for 77"));
            let rows: Vec<String> = lines.iter().map(|l| row(&l.spans)).collect();
            assert_eq!(rows.len(), 13);
            assert_eq!(rows[0], "Host:        box");
            assert_eq!(rows[1], "Session:     4");
            assert_eq!(rows[2], "Directory:   /src");
            assert!(rows[3].starts_with("Start Time:  2001/09/0"));
            assert_eq!(rows[4], "Runtime:     25ms");
            assert_eq!(rows[5], "Exit Status: -");
            assert_eq!(rows[6], "Command:     ");
            assert_eq!(&rows[7..10], ["", "one", "two"]);
            assert_eq!(rows[12], "");
        }
        other => panic!("{other:?}"),
    }
}

#[test]
fn details_show_a_score_only_for_matches() {
    let mut app = app_with(vec![entry(1, "x")]);
    app.filtered = vec![FilteredEntry {
        idx: 0,
        match_indices: vec![0],
        rank: Rank { score: 42, ..Rank::default() },
        start_time: 0,
    }];
    let draws = app.render_details(rect(0, 0, 40, 5)).unwrap();
    match &draws[0] {
        Draw::Paragraph(lines, _, _) => {
            assert_eq!(row(&lines[4].spans), "Score:       42");
            assert_eq!(lines.len(), 10);
        }
        other => panic!("{other:?}"),
    }
}

#[test]
fn details_of_nothing_are_empty() {
    let app = app_with(vec![]);
    let draws = app.render_details(rect(0, 0, 40, 5)).unwrap();
    match &draws[0] {
        Draw::Paragraph(lines, Some(block), _) => {
            assert_eq!(block.title.as_deref(), Some("Details"));
            assert_eq!(lines.len(), 3);
        }
        other => panic!("{other:?}"),
    }
}

#[test]
fn times_out_of_range_cannot_be_drawn() {
    let mut e = entry(1, "x");
    e.start_time = i64::MAX;
    let mut app = app_with(vec![e]);
    assert!(app.render_details(rect(0, 0, 40, 5)).is_none());
    assert!(app.render_list(rect(0, 0, 40, 10)).is_none());
    assert!(app.render(rect(0, 0, 80, 24)).is_none());
}

#[test]
fn the_list_shows_times_and_commands() {
    let mut app = app_with(vec![entry(1, "make"), entry(2, "ls\n-l")]);
    app.selected = 1;
    let draws = app.render_list(rect(0, 3, 40, 20)).unwrap();
    assert_eq!(app.list_height, 17);
    assert!(matches!(&draws[0], Draw::Frame(b, _) if b.title.as_deref() == Some("History")));
    match &draws[1] {
        Draw::Paragraph(lines, None, area) => {
            assert_eq!(row(&lines[0].spans), "       Time  Command");
            assert_eq!(*area, rect(1, 4, 38, 1));
        }
        other => panic!("{other:?}"),
    }
    match &draws[2] {
        Draw::List(items, None, area) => {
            assert_eq!(*area, rect(1, 5, 38, 17));
            assert_eq!(items.len(), 2);
            let first = row(&items[0].line.spans);
            assert!(first.starts_with(" 2001/09/0"));
            assert!(first.ends_with("  make"));
            assert!(row(&items[1].line.spans).ends_with("  ls\\n-l"));
            assert_eq!(items[0].style, Style::default());
            assert_eq!(items[1].style, Style::selected());
        }
        other => panic!("{other:?}"),
    }
}

#[test]
fn the_status_line_counts() {
    let mut app = app_with(vec![entry(1, "make"), entry(2, "ls")]);
    let line = |app: &App, i: usize| match &app.render_status(rect(0, 0, 100, 1))[i] {
        Draw::Paragraph(lines, _, _) => row(&lines[0].spans),
        other => panic!("{other:?}"),
    };
    assert_eq!(
        line(&app, 0),
        " ○h ○s ○d  ↑↓:nav  enter:select  ^c:copy  ^f:filter  esc:quit "
    );
    assert_eq!(line(&app, 1), " 2/2 ");
    app.selected_hosts.insert("box".to_string());
    app.selected_sessions.insert(4);
    assert!(line(&app, 0).starts_with(" ●h ●s ○d "));
    app.loading = true;
    assert_eq!(line(&app, 1), " 2/2 (loading...) ");
    app.loading = false;
    app.handle_event(KeyEvent { code: KeyCode::Char('m'), ctrl: false, alt: false, press: true });
    assert_eq!(line(&app, 1), " 0/2 (filtering...) ");
    match &app.render_status(rect(0, 5, 100, 1))[1] {
        Draw::Paragraph(_, _, area) => assert_eq!(*area, rect(80, 5, 20, 1)),
        other => panic!("{other:?}"),
    }
}

#[test]
fn the_overlay_shows_its_pages() {
    let mut app = app_with(vec![entry(1, "make")]);
    app.handle_event(KeyEvent { code: KeyCode::Char('f'), ctrl: true, alt: false, press: true });
    let left = app.render_overlay_left(rect(0, 0, 20, 10));
    match &left[0] {
        Draw::List(items, Some(block), _) => {
            let rows: Vec<String> = items.iter().map(|i| row(&i.line.spans)).collect();
            assert_eq!(rows, vec![" ▶ Host", "   Directory", "   Time Range"]);
            assert_eq!(block.borders, Borders::Right);
            assert_eq!(items[0].line.spans[0].style, Style::selected());
        }
        other => panic!("{other:?}"),
    }
    app.selected_hosts.insert("box".to_string());
    let hosts = app.render_overlay_hosts(rect(0, 0, 30, 10));
    match hosts.last().unwrap() {
        Draw::List(items, Some(block), area) => {
            assert_eq!(block.title.as_deref(), Some("1 hosts"));
            assert_eq!(row(&items[0].line.spans), "[x] box");
            assert_eq!(*area, rect(0, 3, 30, 7));
        }
        other => panic!("{other:?}"),
    }
    let dirs = app.render_overlay_dirs(rect(0, 0, 30, 10));
    match dirs.last().unwrap() {
        Draw::List(items, Some(block), _) => {
            assert_eq!(block.title.as_deref(), Some("1 dirs"));
            assert_eq!(row(&items[0].line.spans), "[ ] /src");
        }
        other => panic!("{other:?}"),
    }
    let screen = app.render(rect(0, 0, 100, 40)).unwrap();
    assert!(screen.iter().any(|d| matches!(d, Draw::Clear(_))));
}

#[test]
fn the_time_page_shows_what_can_be_read() {
    let mut app = app_with(vec![]);
    app.overlay_start_time = "2024-01-15".to_string();
    app.overlay_end_time = "nonsense".to_string();
    let colour = |d: &Draw| match d {
        Draw::Paragraph(lines, _, _) => lines[0].spans[0].style.fg,
        other => panic!("{other:?}"),
    };
    let draws = app.render_overlay_time(rect(0, 0, 50, 12));
    assert!(matches!(&draws[0], Draw::Frame(b, _) if b.title.as_deref() == Some("Time Range")));
    assert_eq!(colour(&draws[1]), Some(Color::Green));
    assert_eq!(colour(&draws[2]), Some(Color::Red));
    match draws.last().unwrap() {
        Draw::Paragraph(lines, None, area) => {
            assert_eq!(row(&lines[0].spans), "Format: YYYY-MM-DD or YYYY-MM-DD HH:MM");
            assert_eq!(*area, rect(0, 7, 50, 1));
        }
        other => panic!("{other:?}"),
    }
    let parts = vec![rect(0, 0, 9, 3), rect(0, 3, 9, 3), rect(0, 6, 9, 1), rect(0, 7, 9, 0)];
    let draws = app.render_time_in(rect(0, 0, 9, 9), &parts, false, true);
    assert_eq!(colour(&draws[1]), Some(Color::Red));
    assert_eq!(colour(&draws[2]), Some(Color::Green));
}

#[test]
fn drawing_the_screen_keeps_the_selection_in_view() {
    let entries: Vec<HistoryEntry> = (0..100).map(|i| entry(i, "x")).collect();
    let mut app = app_with(entries);
    app.render(rect(0, 0, 80, 24)).unwrap();
    assert_eq!(app.list_height, 17);
    for _ in 0..50 {
        app.move_selection(1);
    }
    assert_eq!((app.selected, app.scroll), (50, 34));
    let draws = app.render(rect(0, 0, 80, 24)).unwrap();
    let shown = draws.iter().any(|d| match d {
        Draw::List(items, _, _) => items.len() == 17 && items[16].style == Style::selected(),
        _ => false,
    });
    assert!(shown);
}

#[test]
fn a_long_page_scrolls_to_the_selected_name() {
    let app = app_with(vec![]);
    let names: Vec<String> = (0..10).map(|i| format!("n{i}")).collect();
    let filtered: Vec<OverlayFiltered> =
        (0..10).map(|idx| OverlayFiltered { idx, match_indices: vec![0] }).collect();
    let mut chosen = NameSet::new();
    chosen.insert("n7".to_string());
    let pane = FilterPane {
        item: 0,
        filter: "n",
        cursor: 1,
        title: "Host",
        filtered: &filtered,
        selected: 7,
        names: &names,
        chosen: &chosen,
        label: "hosts",
    };
    let draws = app.render_filter_list_in(rect(0, 0, 9, 3), rect(0, 3, 9, 5), &pane);
    match &draws[1] {
        Draw::List(items, Some(block), area) => {
            let rows: Vec<String> = items.iter().map(|i| row(&i.line.spans)).collect();
            assert_eq!(rows, vec!["[ ] n4", "[ ] n5", "[ ] n6", "[x] n7"]);
            assert_eq!(items[3].line.spans[1].style, highlight());
            assert_eq!(block.title.as_deref(), Some("10 hosts"));
            assert_eq!(*area, rect(0, 3, 9, 5));
        }
        other => panic!("{other:?}"),
    }
}

#[test]
fn parts_keep_the_other_extent() {
    let area = rect(65535, 0, 10, 5);
    let parts = split(area, true, &vec![Constraint::Min(1)]);
    assert_eq!(parts.len(), 1);
    assert_eq!((parts[0].x, parts[0].width), (65535, 10));
    let parts = split(rect(3, 4, 20, 5), false, &vec![Constraint::Length(5), Constraint::Min(1)]);
    assert_eq!(parts, vec![rect(3, 4, 5, 5), rect(8, 4, 15, 5)]);
}

#[test]
fn a_field_that_is_not_active_takes_any_cursor() {
    let app = app_with(vec![]);
    let draws = app.render_filter_input(
        rect(0, 0, 9, 3),
        "\u{e9}",
        1,
        false,
        "Host",
        Style::default(),
        false,
    );
    assert_eq!(draws.len(), 1);
}
