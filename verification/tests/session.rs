use xpm::popup::ProgressPopup;
use xpm::session::{
    eta_text, parse_conflict_summary, parse_progress_fraction, spawn_failure_messages,
    start_messages, Session, TerminalMessage,
};

fn texts(list: &[TerminalMessage]) -> Vec<String> {
    list.iter().map(|m| format!("{:?}", m)).collect()
}

const MS: u64 = 1_000_000;

#[test]
fn fractions_are_mapped_to_a_range() {
    assert_eq!(parse_progress_fraction("(1/4) installing foo", 0, 100), Some(25));
    assert_eq!(parse_progress_fraction("(2/4) installing foo", 50, 90), Some(70));
    assert_eq!(parse_progress_fraction("(4/4)", 10, 20), Some(20));
    assert_eq!(parse_progress_fraction("no fraction", 0, 100), None);
    assert_eq!(parse_progress_fraction("(x/4)", 0, 100), None);
    assert_eq!(parse_progress_fraction("(1/0)", 0, 100), None);
}

#[test]
fn the_remaining_time_is_in_words() {
    assert_eq!(eta_text(0, 10_000 * MS), None);
    assert_eq!(eta_text(50, 10_000 * MS), Some("~10s".to_string()));
    assert_eq!(eta_text(10, 60_000 * MS), Some("~9m 0s".to_string()));
}

#[test]
fn conflicts_are_summarised() {
    let (summary, can_force) = parse_conflict_summary(
        "error: failed to commit transaction (conflicting files)\nfoo: /usr/bin/foo exists in filesystem\nErrors occurred, no packages were upgraded.\n",
    );
    assert!(summary.contains("exists in filesystem"));
    assert!(can_force);
    let (_, can_force) = parse_conflict_summary("error: could not satisfy dependencies\n");
    assert!(!can_force);
}

#[test]
fn a_command_starts_with_its_title() {
    assert_eq!(texts(&start_messages("T", false)), vec!["ShowProgressPopup(\"T\")"]);
    assert_eq!(start_messages("T", true).len(), 3);
}

#[test]
fn a_command_that_cannot_start_fails() {
    assert_eq!(
        texts(&spawn_failure_messages(true, "no pty")),
        vec!["OperationProgress(0, \"Error: no pty\")", "OperationDone(false)"]
    );
    assert_eq!(
        texts(&spawn_failure_messages(false, "no pty")),
        vec!["ProgressOutput(\"Error: no pty\\n\")", "OperationDone(false)"]
    );
}

#[test]
fn prompts_are_recognised() {
    let s = Session::new(true, false);
    let (s, messages) = s.output(":: Proceed with installation? [Y/n] ", MS);
    let all = texts(&messages).join("|");
    assert!(all.contains("ProgressPrompt"), "{}", all);
    let messages = s.finish(true);
    assert!(matches!(messages.last(), Some(TerminalMessage::OperationDone(true))));
}

#[test]
fn progress_does_not_go_back() {
    let s = Session::new(true, false);
    let (s, _) = s.output("(3/4) installing foo\n", MS);
    let high = s.percent;
    let (s, _) = s.output("(1/4) checking keys\n", 2 * MS);
    assert!(s.percent >= high);
}

#[test]
fn the_terminal_of_a_session_is_bounded() {
    let mut s = Session::new(true, false);
    for i in 0..700u64 {
        let (next, _) = s.output("line\n", i * MS);
        s = next;
    }
    assert_eq!(s.pending.split('\n').count(), 500);
}

#[test]
fn a_conflict_is_asked_about() {
    let s = Session::new(true, false);
    let (s, _) = s.output("error: failed to commit transaction (conflicting files)\nfoo: /usr/bin/foo exists in filesystem\n", MS);
    let mut popup = ProgressPopup::new();
    for m in start_messages("Installing foo", false) {
        popup.apply(m);
    }
    for m in s.finish(false) {
        popup.apply(m);
    }
    assert!(popup.conflict_shown);
    assert!(popup.conflict_can_force);
    assert!(!popup.shown);
}

#[test]
fn a_failure_opens_the_log() {
    let s = Session::new(false, false);
    let (s, _) = s.output("error: target not found: foo\n", MS);
    let mut popup = ProgressPopup::new();
    for m in start_messages("T", false) {
        popup.apply(m);
    }
    for m in s.finish(false) {
        popup.apply(m);
    }
    assert!(popup.done && !popup.success && popup.show_logs);
    assert_eq!(popup.percent, 100);
    assert!(popup.error_summary.contains("target not found"));
    assert!(!popup.close());
}

#[test]
fn bytes_that_are_not_text_are_replaced() {
    let (s, _) = Session::new(false, false).output_bytes(b"caf\xc3\xa9 \xff!\n", MS);
    assert_eq!(s.pending, "café \u{fffd}!\n");
}
