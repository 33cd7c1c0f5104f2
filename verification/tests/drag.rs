use file_explorer::path::FsPath;
use file_explorer::platform::drag::{
    existing_paths, BeginExternalDragError, BeginExternalDragOutcome, NativeDragCoordinator,
    NativeDragState, OPERATION_COPY, OPERATION_NONE,
};

const MILLISECOND: u64 = 1_000_000;
const SECOND: u64 = 1_000_000_000;

fn paths(name: &str) -> Vec<FsPath> {
    vec![FsPath::new(&format!("/tmp/{name}"))]
}

#[test]
fn idle_arms_once_and_same_gesture_is_idempotent() {
    let mut coordinator = NativeDragCoordinator::default();
    let now = SECOND;

    assert_eq!(
        coordinator.arm(1, paths("one"), now),
        BeginExternalDragOutcome::Armed,
    );
    assert_eq!(
        coordinator.arm(1, paths("one"), now + MILLISECOND),
        BeginExternalDragOutcome::AlreadyArmed,
    );
    assert!(matches!(coordinator.state, NativeDragState::Pending(_)));
}

#[test]
fn pending_transitions_to_active_and_ends_once() {
    let mut coordinator = NativeDragCoordinator::default();
    let now = SECOND;
    coordinator.arm(7, paths("seven"), now);
    let request = coordinator.take_pending_for_start().unwrap();

    assert_eq!(request.gesture_id, 7);
    assert!(matches!(coordinator.state, NativeDragState::Starting(_)));
    assert!(coordinator.mark_active(7, 0x700, now));
    assert!(coordinator.is_active());
    assert!(coordinator.finish_session(0x700, OPERATION_COPY));
    assert!(!coordinator.is_active());
    assert!(!coordinator.finish_session(0x700, OPERATION_COPY));

    let ended = coordinator.take_ended().unwrap();
    assert_eq!(ended.operation, OPERATION_COPY);
    assert_eq!(ended.paths, paths("seven"));
    assert!(coordinator.take_ended().is_none());
}

#[test]
fn pointer_release_cancels_only_pending_state() {
    let mut coordinator = NativeDragCoordinator::default();
    let now = SECOND;
    coordinator.arm(2, paths("pending"), now);

    assert!(coordinator.cancel_pending());
    assert!(matches!(coordinator.state, NativeDragState::Idle));
    assert!(!coordinator.cancel_pending());

    coordinator.arm(3, paths("active"), now);
    coordinator.take_pending_for_start().unwrap();
    coordinator.mark_active(3, 0x300, now);
    assert!(!coordinator.cancel_pending());
    assert!(coordinator.is_active());
}

#[test]
fn new_gesture_replaces_stale_pending() {
    let mut coordinator = NativeDragCoordinator::default();
    let now = SECOND;
    coordinator.arm(10, paths("old"), now);

    assert_eq!(
        coordinator.arm(11, paths("new"), now + SECOND),
        BeginExternalDragOutcome::RecoveredStalePending,
    );
    let request = coordinator.take_pending_for_start().unwrap();
    assert_eq!(request.gesture_id, 11);
    assert_eq!(request.paths, paths("new"));
}

#[test]
fn new_gesture_recovers_stale_active_and_ignores_its_delayed_callback() {
    let mut coordinator = NativeDragCoordinator::default();
    let now = SECOND;
    coordinator.arm(20, paths("old-active"), now);
    coordinator.take_pending_for_start().unwrap();
    coordinator.mark_active(20, 0x200, now);

    assert_eq!(
        coordinator.arm(21, paths("new"), now + SECOND),
        BeginExternalDragOutcome::RecoveredStaleActive,
    );
    let request = coordinator.take_pending_for_start().unwrap();
    assert_eq!(request.gesture_id, 21);
    assert_eq!(request.paths, paths("new"));

    // A delayed callback from the recovered session must not end the new session,
    // including in the small window before AppKit returns the new session pointer.
    assert!(!coordinator.finish_session(0x200, OPERATION_COPY));
    assert!(matches!(coordinator.state, NativeDragState::Starting(_)));
    assert!(coordinator.mark_active(21, 0x210, now));

    let recovered = coordinator.take_ended().unwrap();
    assert_eq!(recovered.operation, OPERATION_NONE);
    assert_eq!(recovered.paths, paths("old-active"));
}

#[test]
fn different_gesture_does_not_replace_a_synchronous_native_start() {
    let mut coordinator = NativeDragCoordinator::default();
    let now = SECOND;
    coordinator.arm(30, paths("starting"), now);
    coordinator.take_pending_for_start().unwrap();

    assert_eq!(
        coordinator.arm(31, paths("new"), now),
        BeginExternalDragOutcome::AlreadyActive,
    );
    assert!(matches!(coordinator.state, NativeDragState::Starting(_)));
}

#[test]
fn failed_native_start_returns_to_idle_with_cancelled_result() {
    let mut coordinator = NativeDragCoordinator::default();
    let now = SECOND;
    coordinator.arm(40, paths("failed"), now);
    coordinator.take_pending_for_start().unwrap();

    coordinator.fail_start(40);

    assert!(matches!(coordinator.state, NativeDragState::Idle));
    let ended = coordinator.take_ended().unwrap();
    assert_eq!(ended.operation, OPERATION_NONE);
    assert_eq!(ended.paths, paths("failed"));
}

#[test]
fn a_drag_needs_files_that_exist() {
    let two = vec![FsPath::new("/a"), FsPath::new("/b")];
    assert_eq!(
        existing_paths(&two, &vec![false, true]),
        Ok(vec![FsPath::new("/b")])
    );
    assert_eq!(
        existing_paths(&two, &vec![false, false]),
        Err(BeginExternalDragError::MissingPaths)
    );
    assert_eq!(
        existing_paths(&Vec::new(), &Vec::new()),
        Err(BeginExternalDragError::EmptyRequest)
    );
    assert_eq!(
        BeginExternalDragError::MissingPaths.message(),
        "none of the dragged paths still exist"
    );
    assert_eq!(
        BeginExternalDragError::HookInstall("no window".to_string()).message(),
        "no window"
    );
}
