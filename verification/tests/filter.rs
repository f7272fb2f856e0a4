use std::sync::atomic::AtomicBool;
use std::time::Instant;
use zhist::db::HistoryEntry;
use zhist::tui::draw::Style;
use zhist::tui::filter::{FilterCriteria, FilterHeap, FilterMessage, FilteredEntry, Rank};
use zhist::tui::render::highlight_matches;
use zhist::tui::search::{
    pick_live, run_filter_read, run_filter_streaming, FilterRun, FlagReading,
};

fn entry(id: i64, start_time: i64, argv: &str) -> HistoryEntry {
    HistoryEntry {
        id,
        session: 1,
        exit_status: Some(0),
        start_time,
        duration: Some(100),
        argv: argv.into(),
        host: "host1".into(),
        dir: "/tmp".into(),
    }
}

fn run_filter_test(query: &str, entries: &[HistoryEntry]) -> Vec<FilteredEntry> {
    let messages = run_filter_streaming(
        query,
        entries,
        &AtomicBool::new(false),
        1,
        &FilterCriteria::none(),
    );
    let mut heap = FilterHeap::new();
    for msg in messages {
        if let FilterMessage::Batch(_, batch) = msg {
            heap.extend(batch);
        }
    }
    heap.drain()
}

fn run_filter(query: &str, entries: &[HistoryEntry]) -> Vec<FilteredEntry> {
    if query.trim().is_empty() {
        return entries
            .iter()
            .enumerate()
            .map(|(idx, e)| FilteredEntry {
                idx,
                match_indices: vec![],
                rank: Rank::default(),
                start_time: e.start_time,
            })
            .collect();
    }
    run_filter_test(query, entries)
}

#[test]
fn empty_query_returns_all() {
    let entries = vec![entry(1, 300, "bar"), entry(2, 200, "foo")];
    let result = run_filter("", &entries);
    assert_eq!(result.len(), 2);
}

#[test]
fn fuzzy_match_basic() {
    let entries = vec![
        entry(1, 300, "git commit"),
        entry(2, 200, "cargo build"),
        entry(3, 100, "cargo test"),
    ];
    let result = run_filter_test("cargo", &entries);
    assert_eq!(result.len(), 2);
}

#[test]
fn sort_by_score_best_first() {
    let entries = vec![
        entry(1, 300, "zzzzzzzz cargo zzzzzzzz"),
        entry(2, 200, "cargo"),
        entry(3, 100, "car"),
    ];
    let result = run_filter_test("cargo", &entries);
    assert_eq!(entries[result[0].idx].argv, "cargo");
}

#[test]
fn no_match_returns_empty() {
    let entries = vec![entry(1, 300, "ls"), entry(2, 200, "cd")];
    let result = run_filter_test("zzzznomatch", &entries);
    assert_eq!(result.len(), 0);
}

#[test]
fn highlight_utf8_boundaries() {
    let entries = vec![entry(1, 300, "python3 sso.py …token…")];
    let result = run_filter_test("token", &entries);
    assert_eq!(result.len(), 1);
    let spans = highlight_matches(&entries[0].argv, &result[0].match_indices, Style::default());
    assert!(!spans.is_empty());
}

#[test]
fn cancellation_discards_stale() {
    let entries: Vec<HistoryEntry> = (0..200_000)
        .map(|i| {
            let argv = if i == 500 {
                "unique_target_command".to_string()
            } else {
                format!("cmd_{i} foo bar")
            };
            entry(i as i64, 200_000 - i as i64, &argv)
        })
        .collect();
    let token_a = 1u64;
    let token_b = 2u64;
    let mut messages = run_filter_streaming(
        "foo",
        &entries,
        &AtomicBool::new(true),
        token_a,
        &FilterCriteria::none(),
    );
    messages.extend(run_filter_streaming(
        "unique_target",
        &entries,
        &AtomicBool::new(false),
        token_b,
        &FilterCriteria::none(),
    ));
    let mut heap = FilterHeap::new();
    for msg in messages {
        match msg {
            FilterMessage::Batch(t, batch) if t == token_b => heap.extend(batch),
            _ => {}
        }
    }
    let v: Vec<FilteredEntry> = heap.drain();
    assert_eq!(v.len(), 1);
    assert_eq!(entries[v[0].idx].argv, "unique_target_command");
}

#[test]
fn filter_latency_smoke() {
    let entries: Vec<HistoryEntry> = (0..200_000)
        .map(|i| entry(i as i64, 1000 - i as i64, &format!("cmd_{i} with args --flag")))
        .collect();
    let start = Instant::now();
    let result = run_filter_test("cmd with", &entries);
    let elapsed = start.elapsed();
    assert!(!result.is_empty());
    assert!(elapsed.as_millis() < 5000, "took {}ms", elapsed.as_millis());
    println!(
        "latency: 200k matched {} in {}µs",
        result.len(),
        elapsed.as_micros()
    );
}

#[test]
fn heap_pops_best_scores_first() {
    let entries = vec![
        entry(1, 100, "bad match with low score stuff"),
        entry(2, 200, "excellent match"),
        entry(3, 300, "medium match"),
    ];
    let messages = run_filter_streaming(
        "match",
        &entries,
        &AtomicBool::new(false),
        1,
        &FilterCriteria::none(),
    );
    let mut heap = FilterHeap::new();
    for msg in messages {
        if let FilterMessage::Batch(_, batch) = msg {
            heap.extend(batch);
        }
    }
    let mut prev_score = i32::MAX;
    for fe in heap.drain() {
        assert!(
            fe.rank.score <= prev_score,
            "heap popped score {} after {}, ordering broken",
            fe.rank.score,
            prev_score
        );
        prev_score = fe.rank.score;
    }
}

#[test]
fn heap_newer_first_on_score_tie() {
    let entries = vec![
        entry(1, 1000, "older match entry"),
        entry(2, 2000, "newer match entry"),
    ];
    let results = run_filter_test("match", &entries);
    assert_eq!(results.len(), 2);
    if results[0].rank.score == results[1].rank.score {
        assert!(
            results[0].start_time > results[1].start_time,
            "same score: expected newer first. Got start_times {} then {}",
            results[0].start_time,
            results[1].start_time,
        );
    }
    assert!(
        results[0].rank.score >= results[1].rank.score,
        "first entry score {} < second entry score {}",
        results[0].rank.score,
        results[1].rank.score,
    );
}

#[test]
fn matches_name_the_characters_found() {
    let entries = vec![entry(1, 300, "git push")];
    let result = run_filter_test("'push", &entries);
    assert_eq!(result.len(), 1);
    assert_eq!(result[0].idx, 0);
    assert_eq!(result[0].match_indices, vec![4, 5, 6, 7]);
    assert_eq!(result[0].start_time, 300);
}

#[test]
fn inverse_query_leaves_matches_out() {
    let entries = vec![entry(1, 300, "git push"), entry(2, 200, "ls")];
    let result = run_filter_test("!git", &entries);
    assert_eq!(result.len(), 1);
    assert_eq!(result[0].idx, 1);
}

#[test]
fn blank_query_sends_nothing() {
    let entries = vec![entry(1, 300, "ls")];
    let messages = run_filter_streaming(
        " \t",
        &entries,
        &AtomicBool::new(false),
        7,
        &FilterCriteria::none(),
    );
    assert!(messages.is_empty());
}

#[test]
fn cancelled_search_sends_nothing() {
    let entries = vec![entry(1, 300, "ls")];
    let messages = run_filter_streaming(
        "ls",
        &entries,
        &AtomicBool::new(true),
        7,
        &FilterCriteria::none(),
    );
    assert!(messages.is_empty());
}

#[test]
fn batches_come_in_order_and_then_the_end() {
    let entries: Vec<HistoryEntry> = (0..12_001).map(|i| entry(i, i, "ls -l")).collect();
    let messages = run_filter_streaming(
        " ls ",
        &entries,
        &AtomicBool::new(false),
        9,
        &FilterCriteria::none(),
    );
    assert_eq!(messages.len(), 4);
    let mut next = 0;
    for (i, msg) in messages.iter().enumerate() {
        match msg {
            FilterMessage::Batch(token, batch) => {
                assert_eq!(*token, 9);
                assert_eq!(batch.len(), if i < 2 { 5000 } else { 2001 });
                for fe in batch {
                    assert_eq!(fe.idx, next);
                    next += 1;
                }
            }
            FilterMessage::Done(token) => {
                assert_eq!(*token, 9);
                assert_eq!(i, 3);
            }
        }
    }
    assert_eq!(next, 12_001);
}

#[test]
fn no_entries_still_come_to_an_end() {
    let messages = run_filter_streaming(
        "ls",
        &[],
        &AtomicBool::new(false),
        3,
        &FilterCriteria::none(),
    );
    assert_eq!(messages.len(), 1);
    assert!(matches!(messages[0], FilterMessage::Done(3)));
}

#[test]
fn a_run_stays_finished() {
    let entries = vec![entry(1, 300, "ls")];
    let cancel = AtomicBool::new(false);
    let criteria = FilterCriteria::none();
    let mut run = FilterRun::new("ls", 5);
    assert!(matches!(
        run.next_message(&entries, &cancel, &criteria),
        Some(FilterMessage::Batch(5, _))
    ));
    assert!(matches!(
        run.next_message(&entries, &cancel, &criteria),
        Some(FilterMessage::Done(5))
    ));
    assert!(run.next_message(&entries, &cancel, &criteria).is_none());
    assert!(run.next_message(&entries, &cancel, &criteria).is_none());
}

#[test]
fn criteria_ask_for_host_session_directory_and_time() {
    let e = entry(1, 300, "ls");
    assert!(FilterCriteria::none().matches(&e));
    let mut c = FilterCriteria::none();
    c.hosts.push("host2".to_string());
    assert!(!c.matches(&e));
    c.hosts.push("host1".to_string());
    assert!(c.matches(&e));
    c.sessions.push(2);
    assert!(!c.matches(&e));
    c.sessions.push(1);
    assert!(c.matches(&e));
    c.dirs.push("/".to_string());
    assert!(!c.matches(&e));
    c.dirs.push("/tmp".to_string());
    assert!(c.matches(&e));
    c.start_time = Some(300);
    c.end_time = Some(300);
    assert!(c.matches(&e));
    c.start_time = Some(301);
    assert!(!c.matches(&e));
    c.start_time = None;
    c.end_time = Some(299);
    assert!(!c.matches(&e));
}

#[test]
fn criteria_hold_in_a_search() {
    let entries = vec![entry(1, 300, "ls a"), entry(2, 200, "ls b"), entry(3, 100, "ls c")];
    let mut criteria = FilterCriteria::none();
    criteria.end_time = Some(250);
    let messages =
        run_filter_streaming("ls", &entries, &AtomicBool::new(false), 1, &criteria.clone());
    match &messages[0] {
        FilterMessage::Batch(_, batch) => {
            let found: Vec<usize> = batch.iter().map(|fe| fe.idx).collect();
            assert_eq!(found, vec![1, 2]);
        }
        FilterMessage::Done(_) => panic!("no batch"),
    }
}

fn ranked(idx: usize, score: i32, begin: i32, end: i32, start_time: i64) -> FilteredEntry {
    FilteredEntry {
        idx,
        match_indices: vec![],
        rank: Rank { score, begin, end, ..Rank::default() },
        start_time,
    }
}

#[test]
fn entries_compare_by_score_begin_end_and_time() {
    let best = ranked(0, 10, 0, 5, 1);
    assert!(best > ranked(1, 9, 0, 5, 9));
    assert!(best > ranked(1, 10, 1, 5, 9));
    assert!(best > ranked(1, 10, 0, 6, 9));
    assert!(best < ranked(1, 10, 0, 5, 2));
    assert!(best == ranked(1, 10, 0, 5, 1));
    assert!(best.is_before(&ranked(1, 9, 0, 5, 9)));
    assert!(!best.is_before(&best.clone()));
}

#[test]
fn top_n_leaves_the_heap_as_it_was() {
    let mut heap = FilterHeap::new();
    assert_eq!(heap.len(), 0);
    assert!(heap.pop().is_none());
    heap.extend(vec![
        ranked(0, 1, 0, 0, 0),
        ranked(1, 5, 0, 0, 0),
        ranked(2, 3, 0, 0, 0),
    ]);
    heap.push(ranked(3, 4, 0, 0, 0));
    let top: Vec<usize> = heap.top_n(2).iter().map(|fe| fe.idx).collect();
    assert_eq!(top, vec![1, 3]);
    assert_eq!(heap.len(), 4);
    assert_eq!(heap.top_n(9).len(), 4);
    assert_eq!(heap.pop().map(|fe| fe.idx), Some(1));
    let rest: Vec<usize> = heap.drain().iter().map(|fe| fe.idx).collect();
    assert_eq!(rest, vec![3, 2, 0]);
    heap.push(ranked(4, 1, 0, 0, 0));
    heap.clear();
    assert_eq!(heap.len(), 0);
}

#[test]
fn only_live_candidates_are_picked() {
    let entries = vec![entry(1, 300, "ls"), entry(2, 200, "cd"), entry(3, 100, "pwd")];
    let mut criteria = FilterCriteria::none();
    let all = vec![true, true, true];
    assert_eq!(pick_live(&entries, 0, 3, &all, &criteria), vec![0, 1, 2]);
    assert_eq!(pick_live(&entries, 1, 3, &vec![false, true], &criteria), vec![2]);
    assert_eq!(pick_live(&entries, 1, 1, &vec![], &criteria), Vec::<usize>::new());
    criteria.start_time = Some(150);
    assert_eq!(pick_live(&entries, 0, 3, &all, &criteria), vec![0, 1]);
}

#[test]
fn a_cancelled_run_stops_before_its_batch() {
    let entries = vec![entry(1, 300, "ls")];
    let live = vec![true];
    let none = vec![];
    let criteria = FilterCriteria::none();
    let mut run = FilterRun::new("ls", 5);
    assert_eq!(run.next_len(1), 1);
    match run.advance(&entries, false, &live, &criteria) {
        Some(FilterMessage::Batch(5, batch)) => assert_eq!(batch.len(), 1),
        _ => panic!("expected a batch"),
    }
    assert_eq!(run.next_len(1), 0);
    assert!(matches!(
        run.advance(&entries, true, &none, &criteria),
        Some(FilterMessage::Done(5))
    ));
    let mut run = FilterRun::new("ls", 6);
    assert!(run.advance(&entries, true, &live, &criteria).is_none());
    assert!(run.finished);
    assert!(run.advance(&entries, false, &none, &criteria).is_none());
}

#[test]
fn entries_that_come_up_after_cancelling_are_left_out() {
    let entries = vec![entry(1, 300, "cargo a"), entry(2, 200, "cargo b")];
    let mut run = FilterRun::new("cargo", 5);
    match run.advance(&entries, false, &vec![true, false], &FilterCriteria::none()) {
        Some(FilterMessage::Batch(5, batch)) => {
            assert_eq!(batch.iter().map(|fe| fe.idx).collect::<Vec<_>>(), vec![0]);
        }
        _ => panic!("expected a batch"),
    }
}

#[test]
fn a_full_run_sends_a_batch_for_every_five_thousand_entries() {
    let entries: Vec<HistoryEntry> = (0..10_001)
        .map(|i| entry(i, 20_000 - i, if i % 3 == 0 { "cargo build" } else { "ls" }))
        .collect();
    let messages = run_filter_streaming(
        "'cargo",
        &entries,
        &AtomicBool::new(false),
        7,
        &FilterCriteria::none(),
    );
    assert_eq!(messages.len(), 4);
    let mut found = vec![];
    for (k, message) in messages.iter().enumerate() {
        match message {
            FilterMessage::Batch(token, batch) => {
                assert_eq!(*token, 7);
                assert!(batch.iter().all(|fe| fe.idx / 5000 == k));
                found.extend(batch.iter().map(|fe| fe.idx));
            }
            FilterMessage::Done(token) => assert_eq!((*token, k), (7, 3)),
        }
    }
    assert_eq!(found, (0..10_001).filter(|i| i % 3 == 0).collect::<Vec<_>>());
}

#[test]
fn nothing_found_is_an_empty_batch_and_the_end() {
    let entries = vec![entry(1, 300, "ls"), entry(2, 200, "cd")];
    let messages = run_filter_streaming(
        "zzzznomatch",
        &entries,
        &AtomicBool::new(false),
        1,
        &FilterCriteria::none(),
    );
    assert_eq!(messages.len(), 2);
    assert!(matches!(&messages[0], FilterMessage::Batch(1, batch) if batch.is_empty()));
    assert!(matches!(messages[1], FilterMessage::Done(1)));
}

#[test]
fn draining_begins_with_the_top() {
    let mut heap = FilterHeap::new();
    for (idx, score, start_time) in [(0, 5, 1), (1, 9, 1), (2, 5, 1), (3, 5, 8), (4, 1, 1)] {
        heap.push(FilteredEntry {
            idx,
            match_indices: vec![],
            rank: Rank { score, ..Rank::default() },
            start_time,
        });
    }
    let top = heap.top_n(3);
    assert_eq!(heap.len(), 5);
    let out = heap.drain();
    assert_eq!(out.len(), 5);
    assert!(top.iter().zip(&out).all(|(a, b)| a == b));
    assert_eq!((top[0].idx, top[1].idx), (1, 3));
}

#[test]
fn a_run_follows_what_was_read_of_the_flag() {
    let entries: Vec<HistoryEntry> = (0..5_002).map(|i| entry(i, 9_000 - i, "ls")).collect();
    let run = |cancelled: bool| {
        let mut first = vec![true; 5_000];
        first[4] = false;
        let readings = vec![
            FlagReading { cancelled: false, live: first },
            FlagReading { cancelled, live: vec![true, false] },
        ];
        run_filter_read(" ls ", &entries, &readings, 3, &FilterCriteria::none())
    };
    let messages = run(false);
    assert_eq!(messages.len(), 3);
    assert!(matches!(&messages[0], FilterMessage::Batch(3, b) if b.len() == 4_999));
    assert!(matches!(&messages[1], FilterMessage::Batch(3, b) if b.len() == 1));
    assert!(matches!(messages[2], FilterMessage::Done(3)));
    assert_eq!(run(true).len(), 1);
}
