use zhist::db::{db_path, strip_quotes, HistdbInfo, HistoryEntry, RowStream};
use zhist::format::{format_i64, format_u64, pad_left, parse_i64};

fn entry(id: i64) -> HistoryEntry {
    HistoryEntry {
        id,
        session: 7,
        exit_status: Some(0),
        start_time: 1_700_000_000,
        duration: None,
        argv: "make all".to_string(),
        host: "box".to_string(),
        dir: "/src".to_string(),
    }
}

fn info(file: Option<&str>) -> HistdbInfo {
    HistdbInfo::from_env(None, None, file.map(String::from), false)
}

#[test]
fn quotes_come_off_in_pairs() {
    assert_eq!(strip_quotes("'box'".to_string()), "box");
    assert_eq!(strip_quotes("''".to_string()), "");
    assert_eq!(strip_quotes("'".to_string()), "'");
    assert_eq!(strip_quotes("'box".to_string()), "'box");
    assert_eq!(strip_quotes("box'".to_string()), "box'");
    assert_eq!(strip_quotes("".to_string()), "");
    assert_eq!(strip_quotes("'…'".to_string()), "…");
}

#[test]
fn environment_is_read() {
    let i = HistdbInfo::from_env(
        Some("'box'".to_string()),
        Some("42".to_string()),
        Some("/tmp/h.db".to_string()),
        true,
    );
    assert_eq!(i.host.as_deref(), Some("box"));
    assert_eq!(i.session, Some(42));
    assert_eq!(i.file.as_deref(), Some("/tmp/h.db"));
    assert!(i.widget);
    let i = HistdbInfo::from_env(None, Some("x".to_string()), None, false);
    assert_eq!(i.host, None);
    assert_eq!(i.session, None);
    assert!(!i.widget);
}

#[test]
fn session_numbers_are_parsed_as_std_does() {
    for text in [
        "0", "-0", "+5", "-5", "", "-", "+", " 1", "1 ", "1_0", "0x1", "٣",
        "9223372036854775807", "9223372036854775808", "-9223372036854775808",
        "-9223372036854775809", "00000000000000000000000000000000012",
        "99999999999999999999999999999999999999999999",
    ] {
        assert_eq!(parse_i64(text), text.parse::<i64>().ok(), "{text}");
    }
}

#[test]
fn numbers_are_written_as_std_does() {
    for n in [0, 1, 9, 10, 99, 100, i64::MAX, -1, -10, i64::MIN] {
        assert_eq!(format_i64(n), n.to_string());
        assert_eq!(parse_i64(&format_i64(n)), Some(n));
    }
    assert_eq!(format_u64(u64::MAX), u64::MAX.to_string());
    assert_eq!(pad_left("ab", 4), "  ab");
    assert_eq!(pad_left("…", 3), "  …");
    assert_eq!(pad_left("abcde", 4), "abcde");
}

#[test]
fn database_is_the_named_one_or_the_usual_one() {
    assert_eq!(db_path(&info(Some("/x.db")), None).as_deref(), Some("/x.db"));
    assert_eq!(
        db_path(&info(Some("/x.db")), Some("/home/me".to_string())).as_deref(),
        Some("/x.db")
    );
    assert_eq!(
        db_path(&info(None), Some("/home/me".to_string())).as_deref(),
        Some("/home/me/.histdb/zsh-history.db")
    );
    assert_eq!(db_path(&info(None), None), None);
}

#[test]
fn rows_are_streamed_in_full_chunks() {
    let mut stream = RowStream::new(2);
    assert!(stream.push(entry(1)).is_none());
    let full = stream.push(entry(2)).expect("a full chunk");
    assert_eq!(full.iter().map(|e| e.id).collect::<Vec<_>>(), vec![1, 2]);
    assert!(stream.push(entry(3)).is_none());
    let last = stream.finish().expect("rows left over");
    assert_eq!(last.iter().map(|e| e.id).collect::<Vec<_>>(), vec![3]);
    assert!(RowStream::new(2).finish().is_none());
    assert_eq!(RowStream::new(0).push(entry(1)).map(|v| v.len()), Some(1));
}

#[test]
fn entries_are_listed_in_columns() {
    let mut e = entry(12);
    assert_eq!(e.line(false, false), "    12  1700000000         0  make all");
    assert_eq!(e.line(true, false), "    12  1700000000         0  box  make all");
    assert_eq!(e.line(false, true), "    12  1700000000         0  /src  make all");
    assert_eq!(e.line(true, true), "    12  1700000000         0  box  /src  make all");
    e.exit_status = None;
    e.id = 1234567;
    e.start_time = -1;
    assert_eq!(e.line(false, false), "1234567          -1         -  make all");
}
