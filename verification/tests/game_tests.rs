use mod_manager::game::{format_log_line, launch_decision, push_log_line, running_decision, ChildStatus};

#[test]
fn log_lines_carry_their_stream() {
    assert_eq!(format_log_line("STDOUT", "loading"), "[STDOUT] loading");
    assert_eq!(format_log_line("STDERR", ""), "[STDERR] ");
}

#[test]
fn log_keeps_newest_lines() {
    let mut log: Vec<String> = Vec::new();
    for i in 0..1000 {
        push_log_line(&mut log, i.to_string());
    }
    assert_eq!(log.len(), 1000);
    push_log_line(&mut log, "1000".to_string());
    assert_eq!(log.len(), 800);
    assert_eq!(log[0], "201");
    assert_eq!(log[799], "1000");
}

#[test]
fn log_trims_oversized_log() {
    let mut log: Vec<String> = (0..1500).map(|i| i.to_string()).collect();
    push_log_line(&mut log, "x".to_string());
    assert_eq!(log.len(), 800);
    assert_eq!(log.last().unwrap(), "x");
    assert_eq!(log[0], "701");
}

#[test]
fn launch_refused_while_running() {
    assert_eq!(launch_decision(ChildStatus::Running), Err("Game is already running".to_string()));
    assert_eq!(launch_decision(ChildStatus::NoChild), Ok(false));
    assert_eq!(launch_decision(ChildStatus::Exited), Ok(true));
    assert_eq!(launch_decision(ChildStatus::WaitFailed), Ok(true));
}

#[test]
fn running_status() {
    assert_eq!(running_decision(ChildStatus::Running), (true, false));
    assert_eq!(running_decision(ChildStatus::NoChild), (false, false));
    assert_eq!(running_decision(ChildStatus::Exited), (false, true));
    assert_eq!(running_decision(ChildStatus::WaitFailed), (false, true));
}

#[test]
fn not_running_stays_not_running() {
    for status in [ChildStatus::NoChild, ChildStatus::Exited, ChildStatus::WaitFailed] {
        let (running, forget) = running_decision(status);
        assert!(!running);
        let next = if forget { ChildStatus::NoChild } else { status };
        assert_eq!(next, ChildStatus::NoChild);
        assert_eq!(running_decision(next), (false, false));
    }
}
