use cf_manager::logbuf::{LogBuffer, MAX_LOG_LINES};

#[test]
fn new_buffer_is_empty() {
    let buf = LogBuffer::new();
    assert_eq!(buf.get_lines().len(), 0);
}

#[test]
fn appended_lines_come_back_in_order() {
    let mut buf = LogBuffer::new();
    buf.add_line("first".to_string());
    buf.add_line("second".to_string());
    buf.add_line("third".to_string());
    assert_eq!(buf.get_lines(), vec!["first", "second", "third"]);
}

#[test]
fn buffer_never_exceeds_capacity() {
    let mut buf = LogBuffer::new();
    for i in 0..(MAX_LOG_LINES + 3) {
        buf.add_line(format!("line {}", i));
    }
    let lines = buf.get_lines();
    assert_eq!(lines.len(), MAX_LOG_LINES);
}

#[test]
fn snapshot_is_recent_suffix_of_history() {
    let mut buf = LogBuffer::new();
    let total = MAX_LOG_LINES + 500;
    for i in 0..total {
        buf.add_line(format!("line {}", i));
    }
    let lines = buf.get_lines();
    assert_eq!(lines.len(), MAX_LOG_LINES);
    assert_eq!(lines[0], format!("line {}", total - MAX_LOG_LINES));
    assert_eq!(lines[MAX_LOG_LINES - 1], format!("line {}", total - 1));
    for (k, line) in lines.iter().enumerate() {
        assert_eq!(*line, format!("line {}", total - MAX_LOG_LINES + k));
    }
}

#[test]
fn snapshot_is_independent_copy() {
    let mut buf = LogBuffer::new();
    buf.add_line("kept".to_string());
    let snap = buf.get_lines();
    buf.add_line("later".to_string());
    assert_eq!(snap, vec!["kept"]);
    assert_eq!(buf.get_lines(), vec!["kept", "later"]);
}
