use async_bash_mcp::logging::{
    clock_reading_text, current_timestamp, data_dir, epoch_offset_of, exit_log_text, format_entry, get_log_dir,
    log_file_name, log_file_name_at, max_log_size, new_log_file_name, parse_u64, spawn_log_text, LogBudget,
    LogEntry, LogEvent, ProcessLogger, DEFAULT_MAX_LOG_SIZE,
};

#[test]
fn test_format_entry() {
    let entry = LogEntry {
        timestamp: chrono::Local::now().format("%Y-%m-%d %H:%M:%S").to_string(),
        event: LogEvent::Spawn,
        content: "test command".to_string(),
    };
    let formatted = format_entry(&entry);
    assert!(formatted.contains("[SPAWN]"), "Expected [SPAWN] in formatted output, got: {}", formatted);
    assert!(formatted.contains("test command"), "Expected 'test command' in formatted output, got: {}", formatted);
    assert!(formatted.len() > 10, "Expected non-trivial formatted output");
}

#[test]
fn entry_line_layout() {
    let entry = LogEntry {
        timestamp: "2024-01-02 03:04:05".to_string(),
        event: LogEvent::Exit,
        content: "code=0".to_string(),
    };
    assert_eq!(format_entry(&entry), "2024-01-02 03:04:05 [EXIT] code=0\n");
}

#[test]
fn event_labels() {
    assert_eq!(LogEvent::Spawn.label(), "SPAWN");
    assert_eq!(LogEvent::Stdout.label(), "STDOUT");
    assert_eq!(LogEvent::Stderr.label(), "STDERR");
    assert_eq!(LogEvent::Exit.label(), "EXIT");
    assert_eq!(LogEvent::Error.label(), "ERROR");
    assert_eq!(LogEvent::Signal.label(), "SIGNAL");
}

#[test]
fn log_dir_default_and_configured() {
    let d = get_log_dir(None, "/home/user/.local/share");
    assert_eq!(d, "/home/user/.local/share/async-bash-mcp/logs");
    assert!(d.ends_with("async-bash-mcp/logs"));
    assert_eq!(get_log_dir(Some("/tmp/custom-logs"), "/home/user"), "/tmp/custom-logs");
}

#[test]
fn log_file_names() {
    assert_eq!(log_file_name(12345, "20240102_030405"), "process_12345_20240102_030405.log");
    let name = log_file_name(22222, "x");
    assert!(name.starts_with("process_22222_") && name.ends_with(".log"));
}

#[test]
fn clock_readings_rendered_in_utc() {
    let line = "%Y-%m-%d %H:%M:%S";
    let stamp = "%Y%m%d_%H%M%S";
    assert_eq!(clock_reading_text(true, 0, 0, line), "1970-01-01 00:00:00");
    assert_eq!(clock_reading_text(false, 1, 0, line), "1969-12-31 23:59:59");
    assert_eq!(clock_reading_text(false, 0, 500_000_000, line), "1969-12-31 23:59:59");
    assert_eq!(clock_reading_text(true, 1_704_164_645, 999_999_999, line), "2024-01-02 03:04:05");
    assert_eq!(clock_reading_text(true, 1_704_164_645, 0, stamp), "20240102_030405");
    assert_eq!(clock_reading_text(true, u64::MAX, 0, line), "unknown-time");
    assert_eq!(clock_reading_text(true, 1u64 << 62, 0, stamp), "unknown-time");
}

#[test]
fn clock_readings_match_chrono() {
    let t = chrono::DateTime::from_timestamp(1_700_000_000, 0).unwrap();
    assert_eq!(
        clock_reading_text(true, 1_700_000_000, 0, "%Y-%m-%d %H:%M:%S"),
        t.format("%Y-%m-%d %H:%M:%S").to_string()
    );
}

#[test]
fn log_file_name_for_reading() {
    assert_eq!(log_file_name_at(12345, true, 1_704_164_645, 0), "process_12345_20240102_030405.log");
    assert_eq!(log_file_name_at(7, true, u64::MAX, 0), "process_7_unknown-time.log");
}

#[test]
fn data_dir_prefers_xdg() {
    assert_eq!(data_dir(Some("/xdg"), Some("/home/u")), "/xdg");
    assert_eq!(data_dir(Some(""), Some("/home/u")), "/home/u/.local/share");
    assert_eq!(data_dir(None, Some("/home/u")), "/home/u/.local/share");
    assert_eq!(data_dir(None, None), ".");
}

#[test]
fn parse_u64_like_std() {
    for s in ["0", "100", "+7", "18446744073709551615", "", "+", "-1", "1a", " 1", "18446744073709551616"] {
        assert_eq!(parse_u64(s), s.parse::<u64>().ok(), "input {:?}", s);
    }
}

#[test]
fn max_log_size_defaults() {
    assert_eq!(max_log_size(None), DEFAULT_MAX_LOG_SIZE);
    assert_eq!(max_log_size(Some("100")), 100);
    assert_eq!(max_log_size(Some("lots")), DEFAULT_MAX_LOG_SIZE);
}

#[test]
fn budget_truncates_once() {
    let mut b = LogBudget::new(100);
    let long = "x".repeat(150);
    assert_eq!(b.allot(long), Some("[TRUNCATED]\n".to_string()));
    assert_eq!(b.allot("short\n".to_string()), None);

    let mut b = LogBudget::new(10);
    assert_eq!(b.allot("12345".to_string()), Some("12345".to_string()));
    assert_eq!(b.allot("67890".to_string()), Some("67890".to_string()));
    assert_eq!(b.allot("!".to_string()), Some("[TRUNCATED]\n".to_string()));
    assert_eq!(b.allot("?".to_string()), None);
}

#[test]
fn logger_builds_event_lines() {
    let logger = ProcessLogger::for_process(55555);
    assert_eq!(logger.process_id(), 55555);
    let line = logger.log(LogEvent::Exit, "code=0".to_string());
    assert!(line.ends_with(" [EXIT] code=0\n"), "{}", line);
    assert_eq!(line.len(), "2024-01-02 03:04:05 [EXIT] code=0\n".len());
    for (event, content, tag) in [
        (LogEvent::Spawn, "spawned process", "[SPAWN]"),
        (LogEvent::Stdout, "output from stdout", "[STDOUT]"),
        (LogEvent::Stderr, "error output", "[STDERR]"),
        (LogEvent::Error, "something went wrong", "[ERROR]"),
        (LogEvent::Signal, "SIGTERM", "[SIGNAL]"),
    ] {
        let line = logger.log(event, content.to_string());
        assert!(line.ends_with(&format!(" {} {}\n", tag, content)), "{}", line);
    }
}

#[test]
fn event_contents() {
    assert_eq!(spawn_log_text("echo hi", None), "echo hi");
    assert_eq!(spawn_log_text("pwd", Some("/tmp")), "pwd (cwd: /tmp)");
    assert_eq!(exit_log_text(Some(0)), "code=0");
    assert_eq!(exit_log_text(Some(-15)), "code=-15");
    assert_eq!(exit_log_text(None), "code=none");
}

#[test]
fn new_log_file_names() {
    let name = new_log_file_name(12345);
    assert!(name.starts_with("process_12345_") && name.ends_with(".log"), "{}", name);
    assert_eq!(name.len(), "process_12345_20240102_030405.log".len());
}

#[test]
fn epoch_offsets() {
    assert_eq!(epoch_offset_of(true, 5, 7), Some((5, 7)));
    assert_eq!(epoch_offset_of(false, 5, 0), Some((-5, 0)));
    assert_eq!(epoch_offset_of(false, 5, 250_000_000), Some((-6, 750_000_000)));
    assert_eq!(epoch_offset_of(true, u64::MAX, 0), None);
}

#[test]
fn current_timestamp_matches_clock() {
    let t = current_timestamp();
    assert_eq!(t.len(), "2024-01-02 03:04:05".len());
    let expected = chrono::Utc::now().format("%Y-%m-%d").to_string();
    assert!(t.starts_with(&expected[..4]), "{} vs {}", t, expected);
}
