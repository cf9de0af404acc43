use render_component::logs::{hhmmss, LogSink, MAX_LINES};

#[test]
fn tail_returns_lines_in_order() {
    let mut sink = LogSink::new(false);
    sink.push(0, "first");
    sink.push(0, "second");
    sink.push(0, "third");
    let tail = sink.tail(2);
    assert_eq!(tail.len(), 2);
    assert!(tail[0].ends_with("second"), "got: {tail:?}");
    assert!(tail[1].ends_with("third"));
}

#[test]
fn buffer_is_bounded() {
    let mut sink = LogSink::new(false);
    for i in 0..(MAX_LINES + 50) {
        sink.push(0, &format!("line {i}"));
    }
    let tail = sink.tail(MAX_LINES);
    assert_eq!(tail.len(), MAX_LINES);
    assert!(
        tail[0].ends_with("line 50"),
        "oldest kept line is line 50 (1050 - 1000 cap)"
    );
    assert!(tail
        .last()
        .unwrap()
        .ends_with(&format!("line {}", MAX_LINES + 49)));
}

#[test]
fn range_is_clamped_and_ordered() {
    let mut sink = LogSink::new(false);
    for i in 0..20 {
        sink.push(0, &format!("line {i}"));
    }
    assert_eq!(sink.len(), 20);
    let mid = sink.range(5, 10);
    assert_eq!(mid.len(), 5);
    assert!(mid[0].ends_with("line 5"));
    assert!(mid[4].ends_with("line 9"));
    assert_eq!(sink.range(15, 999).len(), 5);
    assert!(sink.range(100, 200).is_empty());
    assert!(sink.range(10, 5).is_empty());
}

#[test]
fn dump_writes_full_log_to_file() {
    let mut sink = LogSink::new(false);
    for i in 0..25 {
        sink.push(0, &format!("dump line {i}"));
    }
    let content = sink.dump_text();
    assert_eq!(content.lines().count(), 25);
    assert!(content.contains("dump line 0"));
    assert!(content.contains("dump line 24"));
    assert!(content.ends_with("dump line 24\n"));
}

#[test]
fn lines_are_timestamped() {
    let mut sink = LogSink::new(false);
    sink.push(45_296, "hello");
    let line = sink.tail(1).remove(0);
    assert!(
        line.starts_with('[') && line.contains("] hello"),
        "got: {line}"
    );
    assert_eq!(line, "[12:34:56] hello");
}

#[test]
fn the_clock_wraps_at_midnight() {
    assert_eq!(hhmmss(0), "00:00:00");
    assert_eq!(hhmmss(86_399), "23:59:59");
    assert_eq!(hhmmss(86_400), "00:00:00");
    assert_eq!(hhmmss(1_700_000_000), "22:13:20");
}

#[test]
fn a_mirroring_log_hands_back_what_to_print() {
    let mut sink = LogSink::new(true);
    assert_eq!(sink.push(61, "x"), Some("[00:01:01] x".to_string()));
    let mut quiet = LogSink::new(false);
    assert_eq!(quiet.push(61, "x"), None);
    assert_eq!(sink.tail(5), quiet.tail(5));
}

#[test]
fn an_empty_log_dumps_an_empty_line() {
    assert_eq!(LogSink::new(false).dump_text(), "\n");
    assert!(LogSink::new(false).tail(3).is_empty());
}
