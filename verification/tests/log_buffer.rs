use termina::types::{LogBuffer, LogLine};

fn line(text: &str) -> LogLine {
    LogLine::captured(text.to_string(), false, 0)
}

fn texts(buf: &LogBuffer) -> Vec<String> {
    buf.lines.iter().map(|l| l.text.clone()).collect()
}

#[test]
fn new_buffer_is_empty() {
    let buf = LogBuffer::new(3);
    assert_eq!(buf.max_lines, 3);
    assert!(buf.lines.is_empty());
}

#[test]
fn push_keeps_lines_in_order_until_full() {
    let mut buf = LogBuffer::new(3);
    buf.push(line("a"));
    buf.push(line("b"));
    assert_eq!(texts(&buf), vec!["a", "b"]);
}

#[test]
fn push_drops_oldest_when_full() {
    let mut buf = LogBuffer::new(3);
    for t in ["a", "b", "c", "d", "e"] {
        buf.push(line(t));
    }
    assert_eq!(texts(&buf), vec!["c", "d", "e"]);
    assert_eq!(buf.lines.len(), 3);
}

#[test]
fn capacity_zero_keeps_only_the_newest_line() {
    let mut buf = LogBuffer::new(0);
    buf.push(line("a"));
    buf.push(line("b"));
    assert_eq!(texts(&buf), vec!["b"]);
}

#[test]
fn buffer_of_standard_capacity_keeps_last_500() {
    let mut buf = LogBuffer::new(termina::state::LOG_CAPACITY);
    for i in 0..1200 {
        buf.push(line(&i.to_string()));
    }
    assert_eq!(buf.lines.len(), 500);
    assert_eq!(buf.lines.front().unwrap().text, "700");
    assert_eq!(buf.lines.back().unwrap().text, "1199");
}

#[test]
fn captured_line_names_its_stream() {
    let out = LogLine::captured("x".to_string(), false, 42);
    let err = LogLine::captured("y".to_string(), true, 43);
    assert_eq!(out.stream, "stdout");
    assert_eq!(err.stream, "stderr");
    assert_eq!(out.timestamp, 42);
    assert_eq!(err.text, "y");
}
