use async_bash_mcp::process::{progress_message, OutputStream, PollStep, ProcessManager};

#[test]
fn registry_first_identifier_is_one_per_registry() {
    let mut pm1 = ProcessManager::new();
    let mut pm2 = ProcessManager::new();
    let id1 = pm1.register_process("echo s1", None);
    let id2 = pm2.register_process("echo s2", None);
    assert_eq!(id1, 1);
    assert_eq!(id2, 1);
}

#[test]
fn registry_identifiers_are_distinct() {
    let mut pm = ProcessManager::new();
    let ids: Vec<u32> = (0..5).map(|i| pm.register_process(&format!("echo process{}", i), None)).collect();
    assert_eq!(ids, vec![1, 2, 3, 4, 5]);
    let list = pm.list_processes();
    assert_eq!(list.len(), 5);
    for id in ids {
        assert!(list.iter().any(|p| p.id == id));
    }
}

#[test]
fn poll_unknown_process_is_refused() {
    let pm = ProcessManager::new();
    assert_eq!(pm.check_poll(999999, 100), Err("Process 999999 not found".to_string()));
}

#[test]
fn poll_with_zero_wait_is_refused() {
    let mut pm = ProcessManager::new();
    let id = pm.register_process("sleep 1", None);
    assert_eq!(
        pm.check_poll(id, 0),
        Err("Wait time must be greater than 0 milliseconds".to_string())
    );
    assert_eq!(pm.check_poll(id, 1), Ok(()));
    // An unknown process is reported before a zero wait.
    assert_eq!(pm.check_poll(id + 1, 0), Err("Process 2 not found".to_string()));
}

#[test]
fn poll_hands_out_output_once() {
    let mut pm = ProcessManager::new();
    let id = pm.register_process("echo first && sleep 0.2 && echo second", None);
    pm.record_output(id, OutputStream::Stdout, "first\n");
    let r1 = pm.collect_poll(id);
    assert_eq!(r1.stdout, "first\n");
    assert!(!r1.finished);
    assert_eq!(r1.exit_code, None);
    pm.record_output(id, OutputStream::Stdout, "second\n");
    pm.record_exit(id, Some(0));
    let r2 = pm.collect_poll(id);
    assert_eq!(r2.stdout, "second\n");
    let combined = format!("{}{}", r1.stdout, r2.stdout);
    assert_eq!(combined.matches("first").count(), 1);
    assert!(r2.finished);
    assert_eq!(r2.exit_code, Some(0));
}

#[test]
fn stderr_is_kept_apart() {
    let mut pm = ProcessManager::new();
    let id = pm.register_process("echo err >&2", None);
    pm.record_output(id, OutputStream::Stderr, "err\n");
    pm.record_exit(id, Some(0));
    let r = pm.collect_poll(id);
    assert_eq!(r.stdout, "");
    assert_eq!(r.stderr, "err\n");
}

#[test]
fn finished_and_polled_process_leaves_listing() {
    let mut pm = ProcessManager::new();
    let done = pm.register_process("echo done", None);
    let running = pm.register_process("sleep 10", None);
    pm.record_exit(done, Some(0));
    // Not yet polled: still listed, marked done.
    let list = pm.list_processes();
    assert!(list.iter().any(|p| p.id == done && p.done));
    assert!(list.iter().any(|p| p.id == running && !p.done && p.command == "sleep 10"));
    let r = pm.collect_poll(done);
    assert!(r.finished);
    let list = pm.list_processes();
    assert!(!list.iter().any(|p| p.id == done));
    assert!(list.iter().any(|p| p.id == running));
    // Once dropped, the process is unknown.
    assert_eq!(pm.check_poll(done, 10), Err("Process 1 not found".to_string()));
}

#[test]
fn forced_finish_reports_minus_one() {
    let mut pm = ProcessManager::new();
    let id = pm.register_process("sleep 10", None);
    assert!(!pm.is_finished(id));
    pm.force_finish(id);
    assert!(pm.is_finished(id));
    let r = pm.collect_poll(id);
    assert!(r.finished);
    assert_eq!(r.exit_code, Some(-1));
}

#[test]
fn forced_finish_keeps_real_exit_code() {
    let mut pm = ProcessManager::new();
    let id = pm.register_process("true", None);
    pm.record_exit(id, Some(3));
    pm.force_finish(id);
    let r = pm.collect_poll(id);
    assert_eq!(r.exit_code, Some(3));
}

#[test]
fn second_poll_after_finish_finds_nothing_new() {
    let mut pm = ProcessManager::new();
    let id = pm.register_process("echo hello", None);
    pm.record_output(id, OutputStream::Stdout, "hello\n");
    pm.record_exit(id, Some(0));
    let r1 = pm.collect_poll(id);
    assert_eq!(r1.stdout, "hello\n");
    assert!(r1.finished);
    let r2 = pm.collect_poll(id);
    assert_eq!(r2.stdout, "");
    assert_eq!(r2.stderr, "");
    assert!(r2.finished);
    assert_eq!(r2.exit_code, Some(0));
}

#[test]
fn poll_steps() {
    let mut pm = ProcessManager::new();
    let id = pm.register_process("sleep 10", None);
    assert_eq!(pm.poll_step(id, false), PollStep::WaitForExit);
    assert_eq!(pm.poll_step(id, true), PollStep::Terminate);
    pm.record_exit(id, None);
    assert_eq!(pm.poll_step(id, true), PollStep::Collect);
    assert_eq!(pm.poll_step(id, false), PollStep::Collect);
}

#[test]
fn progress_message_layout() {
    let msg = progress_message("echo hello", "hello\n", "");
    assert_eq!(
        msg,
        "# `$ echo hello` \n\n## stdout\n\n```\nhello\n\n```\n\n## stderr\n\n```\n\n```\n"
    );
    assert!(msg.contains("## stdout"));
    assert!(msg.contains("## stderr"));
    assert!(msg.contains("echo hello"));
}

#[test]
fn progress_report_shows_last_five_lines() {
    let mut pm = ProcessManager::new();
    let id = pm.register_process("seq 1 10", None);
    pm.record_output(id, OutputStream::Stdout, "1\n2\n3\n4\n5\n6\n7\n8\n9\n10");
    let msg = pm.progress_report(id).unwrap();
    assert!(msg.contains("```\n6\n7\n8\n9\n10\n```"));
    assert!(!msg.contains("\n5\n"));
    assert_eq!(pm.progress_report(id + 1), None);
}

#[test]
fn listing_after_spawn_adds_exactly_the_new_process() {
    let mut m = ProcessManager::new();
    let a = m.register_process("echo a", None);
    let b = m.register_process("echo b", None);
    m.record_exit(a, Some(0));
    let _ = m.collect_poll(a);
    let before = m.list_processes();
    assert_eq!(before.len(), 1);
    assert_eq!((before[0].id, before[0].command.as_str(), before[0].done), (b, "echo b", false));
    let c = m.register_process("  echo c  ", Some("/tmp".to_string()));
    assert_eq!(c, 3);
    let mut after: Vec<(u32, String, bool)> =
        m.list_processes().into_iter().map(|p| (p.id, p.command, p.done)).collect();
    after.sort();
    assert_eq!(after, vec![(b, "echo b".to_string(), false), (c, "  echo c  ".to_string(), false)]);
}

#[test]
fn removed_identifier_never_returns() {
    let mut m = ProcessManager::new();
    let a = m.register_process("true", None);
    m.record_exit(a, Some(0));
    let _ = m.collect_poll(a);
    assert!(m.list_processes().is_empty());
    for _ in 0..5 {
        let id = m.register_process("true", None);
        assert_ne!(id, a);
    }
    assert!(m.list_processes().iter().all(|p| p.id != a));
    assert_eq!(m.check_poll(a, 10), Err(format!("Process {} not found", a)));
}
