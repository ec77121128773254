use aeon::json::file_json;
use chrono::{TimeZone, Timelike};
use aeon::log::{is_displayable, Log, LogTime, Loglevel, Logstatus, ERROR_LOG_PATH};
use aeon::text::{decimal_text, str_contains, trim_text};

fn lines(items: &[Option<&str>]) -> Vec<Option<String>> {
    items.iter().map(|l| l.map(|s| s.to_string())).collect()
}

#[test]
fn contains_finds_substrings() {
    assert!(str_contains("disk is down now", "down"));
    assert!(str_contains("abc", ""));
    assert!(!str_contains("WARNING", "warn"));
    assert!(!str_contains("ab", "abc"));
}

#[test]
fn trim_removes_unicode_whitespace() {
    assert_eq!(trim_text("  PING\n"), "PING");
    assert_eq!(trim_text("\u{3000}\tSTATUS\r\n\u{85}"), "STATUS");
    assert_eq!(trim_text(" \n\t "), "");
    assert_eq!(trim_text("a b"), "a b");
}

#[test]
fn decimal_text_matches_to_string() {
    for n in [0u64, 7, 10, 65535, 1234567890, u64::MAX] {
        assert_eq!(decimal_text(n), n.to_string());
    }
}

#[test]
fn log_paths_and_entries() {
    assert_eq!(Log::dir_path("/home/a"), "/home/a/.log/dex_daemon/");
    assert_eq!(Log::file_path("/home/a", "SYSTEM"), "/home/a/.log/dex_daemon/SYSTEM.log");
    assert_eq!(Log::entry("2024-01-02 03:04:05 +01:00", "disk full"), "2024-01-02 03:04:05 +01:00: disk full");
    assert_eq!(ERROR_LOG_PATH, "/tmp/ERROR-dex.log");
}

#[test]
fn loglevel_order() {
    assert_eq!(Loglevel::Good.max_level(Loglevel::Warning), Loglevel::Warning);
    assert_eq!(Loglevel::Critical.max_level(Loglevel::Normal), Loglevel::Critical);
    assert_eq!(Loglevel::Warning.severity(), 2);
}

#[test]
fn fresh_status() {
    let s = Logstatus::with_path(b"/var/log/x.log".to_vec());
    assert_eq!(s.path, b"/var/log/x.log".to_vec());
    let odd = Logstatus::with_path(vec![0x2f, 0xff, 0xfe, 0x6c]);
    assert_eq!(odd.path, vec![0x2f, 0xff, 0xfe, 0x6c]);
    assert!(s.line_num.is_empty());
    assert_eq!(s.level, Loglevel::Good);
    assert_eq!(s.prob, "");
    assert_eq!(s.count, 0);
    assert_eq!(s.f_time, LogTime::epoch());
    let d = Logstatus::default();
    assert!(d.path.is_empty());
    assert_eq!(d.l_time, LogTime { secs: 0, nanos: 0 });
}

#[test]
fn analyse_missing_file() {
    let mut s = Logstatus::with_path(b"/nope".to_vec());
    s.analyse(None);
    assert_eq!(s.level, Loglevel::Good);
    assert_eq!(s.prob, "No log file found.System clean");
    assert_eq!(s.count, 0);
}

#[test]
fn analyse_classifies_lines() {
    let mut s = Logstatus::with_path(b"x".to_vec());
    let ls = lines(&[
        Some("INFO started"),
        Some("1970-01-01 00:00:10.5 +0000: network is down"),
        None,
        Some("cpu usage high"),
        Some("plain text"),
        Some("2024-01-01 00:00:00 +0100: WARN again"),
    ]);
    s.analyse(Some(&ls));
    assert_eq!(s.level, Loglevel::Critical);
    assert_eq!(s.line_num, vec![1, 3, 5]);
    assert_eq!(s.count, 3);
    assert_eq!(
        s.prob,
        "1970-01-01 00:00:10.5 +0000: network is down\ncpu usage high\n2024-01-01 00:00:00 +0100: WARN again"
    );
    assert_eq!(s.f_time, LogTime { secs: 10, nanos: 500_000_000 });
    assert_eq!(s.l_time, LogTime { secs: 1704063600, nanos: 0 });
}

#[test]
fn analyse_only_normal_lines() {
    let mut s = Logstatus::with_path(b"x".to_vec());
    s.analyse(Some(&lines(&[Some("SYSTEM boot"), Some("hello")])));
    assert_eq!(s.level, Loglevel::Normal);
    assert_eq!(s.count, 0);
    assert_eq!(s.prob, "");
    assert!(s.line_num.is_empty());
}

#[test]
fn analyse_twice_keeps_counting() {
    let mut s = Logstatus::with_path(b"x".to_vec());
    s.analyse(Some(&lines(&[Some("panic here")])));
    s.analyse(Some(&lines(&[Some("ok"), Some("1970-01-01 00:00:20 +0000: CRITICAL")])));
    assert_eq!(s.count, 2);
    assert_eq!(s.line_num, vec![0, 1]);
    // only the very first alarming line can set the first time
    assert_eq!(s.f_time, LogTime::epoch());
    assert_eq!(s.l_time, LogTime { secs: 20, nanos: 0 });
    assert_eq!(s.prob, "1970-01-01 00:00:20 +0000: CRITICAL");
}

#[test]
fn analyse_unparsable_stamp_keeps_times() {
    let mut s = Logstatus::with_path(b"x".to_vec());
    s.analyse(Some(&lines(&[Some("yesterday: disk down")])));
    assert_eq!(s.count, 1);
    assert_eq!(s.f_time, LogTime::epoch());
    assert_eq!(s.l_time, LogTime::epoch());
}

#[test]
fn entry_written_is_read_back_with_its_time() {
    let line = Log::entry("2024-05-06 07:08:09.25 +0000", "memory usage is very high");
    let mut s = Logstatus::with_path(b"x".to_vec());
    s.analyse(Some(&vec![Some(line)]));
    assert_eq!(s.level, Loglevel::Warning);
    assert_eq!(s.f_time, LogTime { secs: 1714979289, nanos: 250_000_000 });
    assert_eq!(s.l_time, s.f_time);
}

#[test]
fn file_json_quotes_text() {
    assert_eq!(file_json(Some("a\"b\n".to_string())), Some("\"a\\\"b\\n\"".to_string()));
    assert_eq!(file_json(None), None);
}

#[test]
fn trimming_twice_changes_nothing() {
    for s in ["  a b  ", "\u{2003}x\u{2028}", "", "   ", "plain"] {
        let once = trim_text(s);
        assert_eq!(trim_text(&once), once);
    }
}

#[test]
fn entry_with_displayed_time_reads_back_that_time() {
    let t = chrono::FixedOffset::east_opt(3600)
        .unwrap()
        .with_ymd_and_hms(2024, 3, 4, 5, 6, 7)
        .unwrap()
        .with_nanosecond(250_000_000)
        .unwrap();
    let line = Log::entry(&t.to_string(), "network is down");
    let mut s = Logstatus::with_path(b"x".to_vec());
    s.analyse(Some(&vec![Some("INFO up".to_string()), Some(line.clone())]));
    assert_eq!(s.level, Loglevel::Critical);
    assert_eq!(s.l_time, LogTime { secs: t.timestamp(), nanos: t.timestamp_subsec_nanos() });
    assert!(s.prob.ends_with(&line));
}

#[test]
fn json_escapes_controls_only() {
    assert_eq!(
        file_json(Some("q\"b\\\u{8}\u{c}\n\r\t\u{1}\u{1f}\u{7f}é".to_string())),
        Some("\"q\\\"b\\\\\\b\\f\\n\\r\\t\\u0001\\u001f\u{7f}é\"".to_string())
    );
    assert_eq!(file_json(Some(String::new())), Some("\"\"".to_string()));
}

#[test]
fn entry_at_matches_chrono_display_and_reads_back() {
    for (secs, nanos, offset) in [
        (1_709_525_167i64, 250_000_000u32, 3600i32),
        (0, 0, 0),
        (1_000_000_000, 123_456_789, -19_800),
        (-62_167_219_200, 1_000, 0),
        (253_402_300_799, 999_000, 0),
    ] {
        assert!(is_displayable(secs, nanos, offset));
        let zone = chrono::FixedOffset::east_opt(offset).unwrap();
        let shown = chrono::DateTime::from_timestamp(secs, nanos).unwrap().with_timezone(&zone).to_string();
        let line = Log::entry_at(secs, nanos, offset, "disk is down");
        assert_eq!(line, format!("{}: disk is down", shown));
        let mut s = Logstatus::with_path(b"x".to_vec());
        s.analyse(Some(&vec![Some("INFO ok".to_string()), Some(line.clone())]));
        assert_eq!(s.level, Loglevel::Critical);
        assert_eq!(s.l_time, LogTime { secs, nanos });
        assert!(s.prob.ends_with(&line));
    }
    assert!(!is_displayable(0, 1_000_000_000, 0));
    assert!(!is_displayable(0, 0, 30));
    assert!(!is_displayable(0, 0, 86_400));
    assert!(!is_displayable(253_402_300_800, 0, 0));
}
