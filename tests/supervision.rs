use health_check::deadlock::deadlock_step;
use health_check::deadlock::DeadlockStep;
use health_check::notify::readable_image_id;
use health_check::notify::unescape_message;
use health_check::notify::AppDetail;
use health_check::recent_log::RecentOutputLog;
use health_check::relay::relay_signal;
use health_check::relay::RelayAction;
use health_check::supervisor::classify;
use health_check::supervisor::notification_text;
use health_check::supervisor::Arbiter;
use health_check::supervisor::ErrorKind;
use health_check::supervisor::ExitInfo;
use health_check::supervisor::Failure;
use health_check::supervisor::Outcome;
use health_check::supervisor::SupervisorEvent;
use health_check::supervisor::WorkerError;
use nix::sys::signal::Signal;

fn exited(success: bool, code: i32) -> SupervisorEvent {
    SupervisorEvent::ChildExited(ExitInfo { success, code: Some(code) })
}

fn read_error() -> SupervisorEvent {
    SupervisorEvent::Error(WorkerError {
        kind: ErrorKind::StreamReadFailure,
        detail: "Unable to read from Stdout".to_owned(),
    })
}

#[test]
fn guess_readable_image_id_works() {
    let image_id =
        readable_image_id("ghcr.io/fpco/some-app:d5def5afc6030dda860a79f231b295e2e412bc28");
    assert_eq!(image_id, "d5def5afc6030dda860a79f231b295e2e412bc28");

    let image_id = readable_image_id("d5def5afc6030dda860a79f231b295e2e412bc28");
    assert_eq!(image_id, "d5def5afc6030dda860a79f231b295e2e412bc28");
}

#[test]
fn readable_image_id_edges() {
    assert_eq!(readable_image_id("a:b:c"), "c");
    assert_eq!(readable_image_id("trailing:"), "");
    assert_eq!(readable_image_id(""), "");
}

#[test]
fn unescape_turns_escapes_into_newlines() {
    assert_eq!(unescape_message("a\\nb"), "a\nb");
    assert_eq!(unescape_message("\\\\n"), "\\\n");
    assert_eq!(unescape_message("no escapes\\"), "no escapes\\");
}

#[test]
fn description_text_is_exact() {
    let app = AppDetail::new(
        "Alert\\nnow".to_owned(),
        "my app".to_owned(),
        "ghcr.io/x/y:abc123".to_owned(),
        None,
    );
    assert_eq!(
        app.compute_description(),
        "Alert\nnow \n *Application*: my app \n *Version*: abc123"
    );
}

#[test]
fn recent_log_evicts_oldest_first() {
    let mut log = RecentOutputLog::new(3);
    for line in ["out1", "err1", "out2", "err2", "out3"] {
        log.push(line.to_owned());
        assert!(log.len() <= 3);
    }
    assert_eq!(log.len(), 3);
    assert_eq!(log.joined_text(), "out2\nerr2\nout3\n");
}

#[test]
fn recent_log_of_capacity_zero_holds_nothing() {
    let mut log = RecentOutputLog::new(0);
    log.push_lines(vec!["a".to_owned(), "b".to_owned()]);
    assert_eq!(log.len(), 0);
    assert_eq!(log.joined_text(), "");
}

#[test]
fn deadlock_fires_after_window_without_output() {
    assert_eq!(deadlock_step(0, 5000, 0), DeadlockStep::Sleep(5000));
    assert_eq!(deadlock_step(0, 5000, 5000), DeadlockStep::Sleep(0));
    assert_eq!(deadlock_step(0, 5000, 5001), DeadlockStep::Detected);
}

#[test]
fn deadlock_refreshed_output_postpones_deadline() {
    assert_eq!(deadlock_step(4000, 5000, 5001), DeadlockStep::Sleep(3999));
    assert_eq!(deadlock_step(9000, 5000, 13999), DeadlockStep::Sleep(1));
}

#[test]
fn deadlock_overflow_is_reported() {
    assert_eq!(deadlock_step(u64::MAX - 1, 2, 0), DeadlockStep::Overflow);
    assert_eq!(deadlock_step(u64::MAX - 2, 2, 0), DeadlockStep::Sleep(u64::MAX));
}

#[test]
fn classification_truth_table() {
    assert!(matches!(
        classify(read_error(), true, true),
        Outcome::Failure(Failure::Worker(WorkerError { kind: ErrorKind::StreamReadFailure, .. }))
    ));
    assert!(matches!(
        classify(SupervisorEvent::DeadlockDetected, true, true),
        Outcome::Failure(Failure::Deadlock)
    ));
    assert!(matches!(classify(exited(false, 1), true, false), Outcome::Success));
    assert!(matches!(classify(exited(true, 0), false, true), Outcome::Success));
    assert!(matches!(
        classify(exited(false, 3), false, true),
        Outcome::Failure(Failure::UnexpectedExit(ExitInfo { success: false, code: Some(3) }))
    ));
    assert!(matches!(
        classify(exited(true, 0), false, false),
        Outcome::Failure(Failure::UnexpectedExit(ExitInfo { success: true, code: Some(0) }))
    ));
}

#[test]
fn arbiter_resolves_on_first_event_only() {
    let mut arbiter = Arbiter::new(false);
    assert!(!arbiter.resolved());
    let first = arbiter.receive(SupervisorEvent::DeadlockDetected, false);
    assert!(matches!(first, Some(Outcome::Failure(Failure::Deadlock))));
    assert!(arbiter.resolved());
    assert!(arbiter.receive(exited(true, 0), true).is_none());
    assert!(arbiter.receive(read_error(), false).is_none());
}

#[test]
fn relay_forwards_termination_signals() {
    let interrupt = relay_signal(2);
    assert!(interrupt.marks_killed());
    assert!(matches!(interrupt, RelayAction::Forward(Signal::SIGINT)));
    assert!(matches!(relay_signal(15), RelayAction::Forward(Signal::SIGTERM)));
}

#[test]
fn relay_reports_unknown_signal_numbers() {
    let action = relay_signal(9999);
    assert!(!action.marks_killed());
    assert!(matches!(action, RelayAction::Untranslatable(9999)));
}

#[test]
fn scenario_interrupt_then_exit_is_success() {
    let mut log = RecentOutputLog::new(50);
    log.push_lines(vec!["tick".to_owned(); 10]);
    assert_eq!(deadlock_step(9000, 5000, 10000), DeadlockStep::Sleep(4000));
    let action = relay_signal(2);
    let externally_killed = action.marks_killed();
    assert!(externally_killed);
    assert!(matches!(action, RelayAction::Forward(Signal::SIGINT)));
    let mut arbiter = Arbiter::new(false);
    let outcome = arbiter
        .receive(SupervisorEvent::ChildExited(ExitInfo { success: false, code: None }), externally_killed)
        .unwrap();
    assert!(outcome.success());
    assert_eq!(notification_text(&outcome, &log), None);
}

#[test]
fn scenario_silent_child_is_deadlock() {
    let log = RecentOutputLog::new(50);
    assert_eq!(deadlock_step(0, 2000, 0), DeadlockStep::Sleep(2000));
    assert_eq!(deadlock_step(0, 2000, 2001), DeadlockStep::Detected);
    let mut arbiter = Arbiter::new(false);
    let outcome = arbiter.receive(SupervisorEvent::DeadlockDetected, false).unwrap();
    assert!(matches!(outcome, Outcome::Failure(Failure::Deadlock)));
    assert_eq!(notification_text(&outcome, &log), Some(String::new()));
}

#[test]
fn scenario_failing_exit_with_can_exit_is_failure() {
    let mut log = RecentOutputLog::new(50);
    log.push_lines(vec!["starting".to_owned(), "boom".to_owned()]);
    let mut arbiter = Arbiter::new(true);
    let outcome = arbiter.receive(exited(false, 1), false).unwrap();
    assert!(!outcome.success());
    assert!(matches!(outcome, Outcome::Failure(Failure::UnexpectedExit(_))));
    assert_eq!(notification_text(&outcome, &log), Some("starting\nboom\n".to_owned()));
}
