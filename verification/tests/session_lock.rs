use guido::platform::OutputId;
use guido::session_lock::{FrameRequest, LockEvent, LockRequest, LockState, SessionLock};
use guido::surface::SurfaceId;

type Factory = fn(OutputId) -> u32;

fn screen(output: OutputId) -> u32 {
    output.0 * 10
}

/// Two answers in one frame, and the state machine acts on the second.
#[test]
fn the_last_request_of_a_frame_is_the_one_that_counts() {
    let mut lock: SessionLock<Factory> = SessionLock::new();
    lock.reset_session_lock();

    lock.lock_session(screen);
    lock.unlock_session();

    assert!(
        matches!(lock.take_request(), Some(LockRequest::Unlock)),
        "the later request replaces the earlier one rather than joining it"
    );
    assert!(
        lock.take_request().is_none(),
        "and there is only ever the one"
    );

    lock.reset_session_lock();
}

/// The lock state is there for whoever reads it first, and starts unlocked.
#[test]
fn the_lock_state_outlives_whoever_reads_it_first() {
    let lock: SessionLock<Factory> = SessionLock::new();
    let first = lock.lock_state();
    drop(first);
    assert_eq!(lock.lock_state(), LockState::default());
}

#[test]
fn a_granted_lock_builds_one_surface_per_output_and_unlock_tears_them_down() {
    let mut lock: SessionLock<Factory> = SessionLock::new();
    lock.lock_session(screen);
    assert_eq!(lock.begin_frame(), FrameRequest::StartLock);
    lock.lock_started(true);
    assert_eq!(lock.lock_state(), LockState::Locking);
    assert!(!lock.session_locked());

    // A second lock while one is pending is refused.
    lock.lock_session(screen);
    assert!(lock.take_request().is_none());

    assert!(lock.lock_event(LockEvent::Locked).is_empty());
    assert!(lock.session_locked());

    let outputs = vec![OutputId(1), OutputId(2)];
    assert!(lock.drop_stale_surfaces(&outputs).is_empty());
    for (n, output) in outputs.iter().enumerate() {
        assert!(lock.needs_lock_surface(*output));
        let factory = lock.factory().expect("a factory while locked");
        assert_eq!(factory(*output), output.0 * 10);
        lock.record_lock_surface(*output, SurfaceId(100 + n as u64));
        assert!(!lock.needs_lock_surface(*output));
    }

    // An output unplugged while locked loses its surface.
    let stale = lock.drop_stale_surfaces(&vec![OutputId(2)]);
    assert_eq!(stale, vec![SurfaceId(100)]);
    assert!(!lock.needs_lock_surface(OutputId(2)));
    assert!(lock.needs_lock_surface(OutputId(3)));

    lock.unlock_session();
    assert_eq!(lock.begin_frame(), FrameRequest::Unlock);
    let gone = lock.finish_unlock(true).expect("it was locked");
    assert_eq!(gone, vec![SurfaceId(101)]);
    assert_eq!(lock.lock_state(), LockState::Unlocked);
    assert!(lock.factory().is_none());
    assert!(!lock.needs_lock_surface(OutputId(2)));
}

#[test]
fn a_refused_start_returns_to_unlocked_without_a_factory() {
    let mut lock: SessionLock<Factory> = SessionLock::new();
    lock.lock_session(screen);
    assert_eq!(lock.begin_frame(), FrameRequest::StartLock);
    assert!(lock.factory().is_some());
    lock.lock_started(false);
    assert_eq!(lock.lock_state(), LockState::Unlocked);
    assert!(lock.factory().is_none());
}

#[test]
fn a_finished_lock_drops_everything() {
    let mut lock: SessionLock<Factory> = SessionLock::new();
    lock.lock_session(screen);
    lock.begin_frame();
    lock.lock_started(true);
    lock.lock_event(LockEvent::Locked);
    lock.record_lock_surface(OutputId(4), SurfaceId(8));
    let gone = lock.lock_event(LockEvent::Finished);
    assert_eq!(gone, vec![SurfaceId(8)]);
    assert_eq!(lock.lock_state(), LockState::Unlocked);
    assert!(lock.factory().is_none());
}

#[test]
fn an_unlock_in_the_frame_the_lock_is_granted_still_unlocks() {
    let mut lock: SessionLock<Factory> = SessionLock::new();
    lock.lock_session(screen);
    lock.begin_frame();
    lock.lock_started(true);

    lock.unlock_session();
    assert_eq!(lock.begin_frame(), FrameRequest::Unlock);
    lock.lock_event(LockEvent::Locked);
    assert!(lock.finish_unlock(true).is_some());
    assert_eq!(lock.lock_state(), LockState::Unlocked);
}

#[test]
fn an_unlock_while_unlocked_does_nothing() {
    let mut lock: SessionLock<Factory> = SessionLock::new();
    lock.unlock_session();
    assert_eq!(lock.begin_frame(), FrameRequest::Unlock);
    assert!(lock.finish_unlock(true).is_none());
    assert!(lock.finish_unlock(false).is_none());
    assert_eq!(lock.begin_frame(), FrameRequest::Nothing);
    assert!(lock.drop_stale_surfaces(&vec![]).is_empty());
    assert!(!lock.needs_lock_surface(OutputId(1)));
}
