use std::sync::atomic::AtomicBool;
use zhist::db::{HistdbInfo, HistoryEntry};
use zhist::tui::filter::{FilterMessage, FilteredEntry, Rank};
use zhist::tui::keys::{Effect, KeyCode, KeyEvent};
use zhist::tui::overlay::{OverlayFocus, OverlayRightFocus, TimeField};
use zhist::tui::results::FilterRequest;
use zhist::tui::search::run_filter_streaming;
use zhist::tui::App;

fn entry(id: i64, host: &str, dir: &str, argv: &str) -> HistoryEntry {
    HistoryEntry {
        id,
        session: id % 2,
        exit_status: Some(0),
        start_time: 1000 - id,
        duration: Some(100),
        argv: argv.into(),
        host: host.into(),
        dir: dir.into(),
    }
}

fn history() -> Vec<HistoryEntry> {
    vec![
        entry(0, "alpha", "/a", "git status"),
        entry(1, "beta", "/b", "cargo build"),
        entry(2, "alpha", "/c", "cargo test"),
        entry(3, "gamma", "/b", "ls -l"),
    ]
}

fn app_with(query: Option<&str>, widget: bool) -> App {
    let info = HistdbInfo::from_env(
        Some("'beta'".to_string()),
        Some("1".to_string()),
        None,
        widget,
    );
    let mut app = App::new(query.map(String::from), info, Some("/b".to_string()));
    app.receiving = true;
    app
}

fn loaded(widget: bool) -> App {
    let mut app = app_with(None, widget);
    assert!(app.try_load_chunk(vec![history()], true).is_none());
    app.list_height = 10;
    app
}

fn press(app: &mut App, code: KeyCode) -> Effect {
    app.handle_event(KeyEvent { code, ctrl: false, alt: false, press: true })
}

fn ctrl(app: &mut App, c: char) -> Effect {
    app.handle_event(KeyEvent { code: KeyCode::Char(c), ctrl: true, alt: false, press: true })
}

fn alt(app: &mut App, c: char) -> Effect {
    app.handle_event(KeyEvent { code: KeyCode::Char(c), ctrl: false, alt: true, press: true })
}

fn request(effect: Effect) -> FilterRequest {
    match effect {
        Effect::Search(r) => r,
        _ => panic!("no search"),
    }
}

fn answer(app: &mut App, r: &FilterRequest) {
    let messages = run_filter_streaming(
        &r.query,
        &app.entries,
        &AtomicBool::new(false),
        r.token,
        &r.criteria,
    );
    app.check_filter_results(messages);
}

fn listed(app: &App) -> Vec<usize> {
    app.filtered.iter().map(|fe| fe.idx).collect()
}

#[test]
fn a_new_app_waits_for_entries() {
    let app = app_with(Some("né"), true);
    assert_eq!(app.input, "né");
    assert_eq!(app.cursor, 3);
    assert!(app.running);
    assert!(app.loading);
    assert_eq!(app.total_filtered(), 0);
    assert_eq!(app.histdb_info.host.as_deref(), Some("beta"));
    assert_eq!(app.output, None);
}

#[test]
fn chunks_are_listed_as_they_come() {
    let mut app = app_with(None, false);
    let mut rows = history();
    let rest = rows.split_off(2);
    assert!(app.try_load_chunk(vec![rows], false).is_none());
    assert!(app.loading);
    assert_eq!(listed(&app), vec![0, 1]);
    assert!(!app.filter_done);
    assert!(app.try_load_chunk(vec![rest, vec![]], false).is_none());
    assert!(!app.loading);
    assert!(!app.receiving);
    assert!(app.filter_done);
    assert_eq!(listed(&app), vec![0, 1, 2, 3]);
    assert_eq!(app.all_hosts, vec!["alpha", "beta", "gamma"]);
    assert_eq!(app.all_dirs, vec!["/a", "/b", "/c"]);
    assert!(app.try_load_chunk(vec![history()], true).is_none());
    assert_eq!(app.entries.len(), 4);
}

#[test]
fn chunks_start_a_search_where_there_is_a_query() {
    let mut app = app_with(Some("cargo"), false);
    let r = app.try_load_chunk(vec![history()], true).expect("a search");
    assert_eq!(r.query, "cargo");
    assert_eq!(r.token, 1);
    assert_eq!(app.filter_token, 1);
    assert!(!app.filter_done);
    answer(&mut app, &r);
    assert!(app.filter_done);
    assert_eq!(app.total_filtered(), 2);
}

#[test]
fn typing_searches_and_results_come_best_first() {
    let mut app = loaded(false);
    let mut last = None;
    for c in " cargo t".chars() {
        last = Some(press(&mut app, KeyCode::Char(c)));
    }
    let r = request(last.unwrap());
    assert_eq!(r.query, "cargo t");
    assert_eq!(app.filter_token, r.token);
    answer(&mut app, &r);
    assert!(app.filtered.is_empty());
    app.ensure_filtered_len(5);
    assert_eq!(listed(&app)[0], 2);
    assert!(app.filtered.iter().all(|fe| !fe.match_indices.is_empty()));
}

#[test]
fn stale_messages_are_ignored() {
    let mut app = loaded(false);
    let first = request(press(&mut app, KeyCode::Char('l')));
    let second = request(press(&mut app, KeyCode::Char('s')));
    assert_ne!(first.token, second.token);
    answer(&mut app, &first);
    assert_eq!(app.total_filtered(), 0);
    assert!(!app.filter_done);
    assert_eq!(listed(&app), vec![0, 1, 2, 3]);
    app.ensure_filtered_len(9);
    assert_eq!(listed(&app), vec![0, 1, 2, 3]);
    answer(&mut app, &second);
    assert!(app.filter_done);
    app.ensure_filtered_len(9);
    assert_eq!(listed(&app), vec![3]);
}

#[test]
fn a_running_search_shows_a_preview() {
    let mut app = loaded(false);
    let r = request(press(&mut app, KeyCode::Char('a')));
    let batch: Vec<FilteredEntry> = (0..30)
        .map(|i| FilteredEntry {
            idx: i,
            match_indices: vec![],
            rank: Rank { score: i as i32, ..Rank::default() },
            start_time: 0,
        })
        .collect();
    app.check_filter_results(vec![FilterMessage::Batch(r.token, batch)]);
    assert_eq!(app.filtered.len(), 20);
    assert_eq!(app.filtered[0].idx, 29);
    assert_eq!(app.total_filtered(), 30);
    app.ensure_filtered_len(10);
    assert_eq!(app.filtered.len(), 20);
    app.ensure_filtered_len(25);
    assert_eq!(listed(&app), (5..30).rev().collect::<Vec<_>>());
    assert_eq!(app.total_filtered(), 30);
    app.ensure_filtered_len(40);
    assert_eq!(listed(&app), (0..30).rev().collect::<Vec<_>>());
    assert_eq!(app.total_filtered(), 30);
    app.check_filter_results(vec![FilterMessage::Done(r.token)]);
    assert!(app.filtered.is_empty());
    assert_eq!(app.total_filtered(), 30);
    app.ensure_filtered_len(2);
    assert_eq!(listed(&app), vec![29, 28]);
    assert_eq!(app.total_filtered(), 30);
}

#[test]
fn the_selection_moves_within_the_results() {
    let mut app = loaded(false);
    app.list_height = 2;
    press(&mut app, KeyCode::Up);
    assert_eq!((app.selected, app.scroll), (0, 0));
    press(&mut app, KeyCode::Down);
    assert_eq!((app.selected, app.scroll), (1, 0));
    press(&mut app, KeyCode::Down);
    assert_eq!((app.selected, app.scroll), (2, 1));
    press(&mut app, KeyCode::PageDown);
    assert_eq!((app.selected, app.scroll), (3, 2));
    press(&mut app, KeyCode::PageUp);
    assert_eq!((app.selected, app.scroll), (1, 1));
    press(&mut app, KeyCode::PageUp);
    assert_eq!((app.selected, app.scroll), (0, 0));
    app.move_selection(i32::MAX);
    assert_eq!(app.selected, 3);
    app.move_selection(i32::MIN);
    assert_eq!(app.selected, 0);
}

#[test]
fn an_empty_list_has_nothing_to_select() {
    let mut app = app_with(None, false);
    press(&mut app, KeyCode::Down);
    assert_eq!(app.selected, 0);
    assert!(app.selected_entry().is_none());
    assert!(matches!(press(&mut app, KeyCode::Enter), Effect::Nothing));
    assert!(app.running);
    app.selected = 5;
    app.scroll = 3;
    app.clamp_filter_state();
    assert_eq!((app.selected, app.scroll), (0, 0));
}

#[test]
fn enter_chooses_for_a_widget() {
    let mut app = loaded(true);
    press(&mut app, KeyCode::Down);
    press(&mut app, KeyCode::Enter);
    assert!(!app.running);
    assert_eq!(app.output.as_deref(), Some("cargo build"));
    let mut app = loaded(false);
    press(&mut app, KeyCode::Enter);
    assert!(!app.running);
    assert_eq!(app.output, None);
}

#[test]
fn escape_gives_a_widget_its_query_back() {
    let mut app = app_with(Some("old"), true);
    press(&mut app, KeyCode::Esc);
    assert!(!app.running);
    assert_eq!(app.output.as_deref(), Some("old"));
    let mut app = app_with(Some("old"), false);
    press(&mut app, KeyCode::Esc);
    assert_eq!(app.output, None);
}

#[test]
fn keys_let_go_do_nothing() {
    let mut app = loaded(false);
    let effect = app.handle_event(KeyEvent {
        code: KeyCode::Esc,
        ctrl: false,
        alt: false,
        press: false,
    });
    assert!(matches!(effect, Effect::Nothing));
    assert!(app.running);
}

#[test]
fn copying_sends_the_command() {
    let mut app = loaded(false);
    match ctrl(&mut app, 'c') {
        Effect::Copy(text) => assert_eq!(text, "\x1b]52;c;Z2l0IHN0YXR1cw==\x07"),
        _ => panic!("nothing copied"),
    }
    assert!(app.running);
    let mut app = app_with(None, false);
    assert!(matches!(ctrl(&mut app, 'c'), Effect::Nothing));
}

#[test]
fn control_keys_toggle_where_the_browser_was_started() {
    let mut app = loaded(false);
    assert!(matches!(ctrl(&mut app, 'h'), Effect::Nothing));
    assert_eq!(listed(&app), vec![1]);
    ctrl(&mut app, 'h');
    assert_eq!(listed(&app), vec![0, 1, 2, 3]);
    ctrl(&mut app, 's');
    assert_eq!(listed(&app), vec![1, 3]);
    ctrl(&mut app, 'd');
    assert_eq!(listed(&app), vec![1, 3]);
    ctrl(&mut app, 's');
    assert_eq!(listed(&app), vec![1, 3]);
    ctrl(&mut app, 'd');
    assert_eq!(listed(&app), vec![0, 1, 2, 3]);
}

#[test]
fn alt_keys_toggle_what_the_selected_entry_has() {
    let mut app = loaded(false);
    press(&mut app, KeyCode::Down);
    press(&mut app, KeyCode::Down);
    assert_eq!(app.selected, 2);
    alt(&mut app, 'h');
    assert_eq!(listed(&app), vec![0, 2]);
    assert_eq!(app.selected, 1);
    alt(&mut app, 'd');
    assert_eq!(listed(&app), vec![2]);
    assert_eq!(app.selected, 0);
    alt(&mut app, 's');
    assert_eq!(listed(&app), vec![2]);
    alt(&mut app, 's');
    alt(&mut app, 'd');
    alt(&mut app, 'h');
    assert_eq!(listed(&app), vec![0, 1, 2, 3]);
    assert_eq!(app.selected, 2);
    let mut empty = app_with(None, false);
    assert!(matches!(alt(&mut empty, 'h'), Effect::Nothing));
    assert_eq!(empty.filter_token, 0);
}

#[test]
fn a_remembered_entry_is_selected_after_a_search() {
    let mut app = loaded(false);
    let r = request(press(&mut app, KeyCode::Char('c')));
    answer(&mut app, &r);
    app.ensure_filtered_len(1);
    let chosen = app.filtered[0].idx;
    let r = request(alt(&mut app, 'h'));
    assert_eq!(app.restore_entry_idx, Some(chosen));
    answer(&mut app, &r);
    assert_eq!(app.restore_entry_idx, None);
    assert_eq!(app.selected_filtered().map(|fe| fe.idx), Some(chosen));
}

#[test]
fn editing_the_line_searches_only_when_the_text_changes() {
    let mut app = loaded(false);
    request(press(&mut app, KeyCode::Char('a')));
    request(press(&mut app, KeyCode::Char('é')));
    assert_eq!(app.cursor, 3);
    assert!(matches!(press(&mut app, KeyCode::Left), Effect::Nothing));
    assert_eq!(app.cursor, 1);
    assert!(matches!(press(&mut app, KeyCode::Home), Effect::Nothing));
    assert!(matches!(press(&mut app, KeyCode::Backspace), Effect::Nothing));
    assert!(matches!(press(&mut app, KeyCode::Right), Effect::Nothing));
    assert_eq!(app.cursor, 1);
    let r = request(press(&mut app, KeyCode::Delete));
    assert_eq!(r.query, "a");
    assert!(matches!(press(&mut app, KeyCode::End), Effect::Nothing));
    let token = app.filter_token;
    assert!(matches!(press(&mut app, KeyCode::Backspace), Effect::Nothing));
    assert_eq!(app.filter_token, token + 1);
    assert_eq!(listed(&app), vec![0, 1, 2, 3]);
    assert!(matches!(ctrl(&mut app, 'u'), Effect::Nothing));
    assert_eq!(app.filter_token, token + 2);
    assert!(matches!(ctrl(&mut app, 'x'), Effect::Nothing));
    assert_eq!(app.filter_token, token + 2);
}

#[test]
fn the_overlay_opens_with_all_names() {
    let mut app = loaded(false);
    ctrl(&mut app, 'h');
    ctrl(&mut app, 'f');
    assert!(app.show_overlay);
    let hosts: Vec<usize> = app.overlay_host_filtered.iter().map(|o| o.idx).collect();
    assert_eq!(hosts, vec![1, 0, 2]);
    assert_eq!(app.overlay_dir_filtered.len(), 3);
    assert!(app.overlay_focus == OverlayFocus::Left);
    press(&mut app, KeyCode::Esc);
    assert!(!app.show_overlay);
    assert!(app.running);
    ctrl(&mut app, 'f');
    ctrl(&mut app, 'f');
    assert!(!app.show_overlay);
}

#[test]
fn the_overlay_filters_and_toggles_names() {
    let mut app = loaded(false);
    ctrl(&mut app, 'f');
    press(&mut app, KeyCode::Tab);
    assert!(app.overlay_focus == OverlayFocus::Right);
    assert!(app.overlay_right_subfocus == OverlayRightFocus::Filter);
    for c in "ga m".chars() {
        assert!(matches!(press(&mut app, KeyCode::Char(c)), Effect::Nothing));
    }
    assert_eq!(app.overlay_host_filter, "gam");
    let hosts: Vec<usize> = app.overlay_host_filtered.iter().map(|o| o.idx).collect();
    assert_eq!(hosts, vec![2]);
    assert_eq!(app.overlay_host_filtered[0].match_indices, vec![0, 1, 2]);
    press(&mut app, KeyCode::Enter);
    assert_eq!(listed(&app), vec![3]);
    press(&mut app, KeyCode::Enter);
    assert_eq!(listed(&app), vec![0, 1, 2, 3]);
    ctrl(&mut app, 'u');
    assert_eq!(app.overlay_host_filter, "");
    assert_eq!(app.overlay_host_filtered.len(), 3);
    press(&mut app, KeyCode::Down);
    press(&mut app, KeyCode::Down);
    press(&mut app, KeyCode::Down);
    assert_eq!(app.overlay_host_selected, 2);
    press(&mut app, KeyCode::Up);
    assert_eq!(app.overlay_host_selected, 1);
    press(&mut app, KeyCode::BackTab);
    assert!(app.overlay_focus == OverlayFocus::Left);
    press(&mut app, KeyCode::Down);
    assert_eq!(app.overlay_active_item, 1);
    press(&mut app, KeyCode::Enter);
    press(&mut app, KeyCode::Char('b'));
    press(&mut app, KeyCode::Enter);
    assert_eq!(listed(&app), vec![1, 3]);
}

#[test]
fn better_matches_come_first_in_the_overlay() {
    let mut app = app_with(None, false);
    let rows = vec![
        entry(0, "x-web-y", "/", "a"),
        entry(1, "web", "/", "b"),
        entry(2, "xxweb", "/", "c"),
    ];
    app.try_load_chunk(vec![rows], true);
    ctrl(&mut app, 'f');
    press(&mut app, KeyCode::Tab);
    for c in "web".chars() {
        press(&mut app, KeyCode::Char(c));
    }
    let hosts: Vec<usize> = app.overlay_host_filtered.iter().map(|o| o.idx).collect();
    assert_eq!(hosts.len(), 3);
    assert_eq!(hosts[0], 1);
}

#[test]
fn the_time_range_limits_the_list() {
    let mut app = loaded(false);
    ctrl(&mut app, 'f');
    press(&mut app, KeyCode::Down);
    press(&mut app, KeyCode::Down);
    press(&mut app, KeyCode::Down);
    assert_eq!(app.overlay_active_item, 2);
    press(&mut app, KeyCode::Enter);
    for c in "2001-01-01 10:00".chars() {
        press(&mut app, KeyCode::Char(c));
    }
    assert_eq!(app.overlay_start_time, "2001-01-01 10:00");
    assert!(listed(&app).is_empty());
    press(&mut app, KeyCode::Enter);
    assert!(app.overlay_active_time_field == TimeField::End);
    press(&mut app, KeyCode::Down);
    assert!(app.overlay_active_time_field == TimeField::Start);
    press(&mut app, KeyCode::Up);
    assert!(app.overlay_active_time_field == TimeField::End);
    press(&mut app, KeyCode::Down);
    ctrl(&mut app, 'u');
    assert_eq!(listed(&app), vec![0, 1, 2, 3]);
    press(&mut app, KeyCode::Up);
    for c in "1999-01-01".chars() {
        press(&mut app, KeyCode::Char(c));
    }
    assert_eq!(listed(&app), vec![0, 1, 2, 3]);
    press(&mut app, KeyCode::Home);
    press(&mut app, KeyCode::Delete);
    assert_eq!(app.overlay_end_time, "999-01-01");
    assert!(listed(&app).is_empty());
}

#[test]
fn new_names_show_up_in_an_open_overlay() {
    let mut app = app_with(None, false);
    app.try_load_chunk(vec![history()], false);
    ctrl(&mut app, 'f');
    app.overlay_host_selected = 2;
    app.try_load_chunk(vec![vec![entry(9, "delta", "/a", "x")]], false);
    assert_eq!(app.overlay_host_filtered.len(), 4);
    assert_eq!(app.overlay_host_selected, 0);
    assert_eq!(app.overlay_dir_filtered.len(), 3);
}
