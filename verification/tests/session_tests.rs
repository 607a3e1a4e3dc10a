use scrcpy_gui::session::{
    ExitObservation, Lifecycle, Released, SessionId, SessionRegistry, SpawnOutcome, StartError,
    StartResolution, StopOutcome, Supervision, SUPERVISE_INTERVAL_MS,
};

fn running(registry: &mut SessionRegistry<u32>, device: &str, handle: u32) -> SessionId {
    let id = registry.begin_start(device).unwrap();
    let done = registry.finish_start(&id, SpawnOutcome::Spawned(handle));
    assert_eq!(done, StartResolution { result: Ok(()), orphan: None });
    id
}

#[test]
fn supervisor_polls_twice_a_second() {
    assert_eq!(SUPERVISE_INTERVAL_MS, 500);
}

#[test]
fn start_reserves_then_runs() {
    let mut registry: SessionRegistry<u32> = SessionRegistry::new();
    assert!(!registry.is_active("X"));
    assert_eq!(registry.phase(&SessionId::nth(0)), None);
    let id = registry.begin_start("X").unwrap();
    assert_eq!(id, SessionId::nth(0));
    assert!(registry.is_active("X"));
    assert_eq!(registry.phase(&id), Some(Lifecycle::Starting));
    assert_eq!(registry.snapshot(), Vec::<String>::new());
    assert_eq!(registry.running_handle(&id), None);
    let done = registry.finish_start(&id, SpawnOutcome::Spawned(41));
    assert_eq!(done, StartResolution { result: Ok(()), orphan: None });
    assert_eq!(registry.phase(&id), Some(Lifecycle::Running));
    assert_eq!(registry.running_handle(&id), Some(&41));
    assert_eq!(registry.snapshot(), vec!["X".to_string()]);
}

#[test]
fn second_start_back_to_back_is_refused() {
    let mut registry: SessionRegistry<u32> = SessionRegistry::new();
    let id = running(&mut registry, "X", 7);
    assert_eq!(registry.begin_start("X"), Err(StartError::AlreadyRunning));
    assert_eq!(registry.begin_start("X"), Err(StartError::AlreadyRunning));
    assert_eq!(registry.phase(&id), Some(Lifecycle::Running));
    assert_eq!(registry.running_handle(&id), Some(&7));
    assert_eq!(registry.snapshot(), vec!["X".to_string()]);
    assert_eq!(registry.supervise(&id, ExitObservation::StillRunning), Supervision::Continue);
    assert_eq!(registry.phase(&SessionId::nth(1)), None);
}

#[test]
fn second_start_during_spawn_is_refused() {
    let mut registry: SessionRegistry<u32> = SessionRegistry::new();
    let first = registry.begin_start("X").unwrap();
    assert_eq!(registry.begin_start("X"), Err(StartError::AlreadyRunning));
    let done = registry.finish_start(&first, SpawnOutcome::Spawned(1));
    assert_eq!(done.result, Ok(()));
    assert_eq!(registry.begin_start("X"), Err(StartError::AlreadyRunning));
    assert_eq!(registry.snapshot(), vec!["X".to_string()]);
}

#[test]
fn devices_do_not_get_in_each_others_way() {
    let mut registry: SessionRegistry<u32> = SessionRegistry::new();
    let a = running(&mut registry, "A", 1);
    let b = running(&mut registry, "B", 2);
    assert_eq!((&a, &b), (&SessionId::nth(0), &SessionId::nth(1)));
    assert_eq!(registry.snapshot(), vec!["A".to_string(), "B".to_string()]);
    assert_eq!(registry.stop("A"), StopOutcome::Terminate(1));
    assert!(registry.is_active("B"));
    assert!(!registry.is_active("A"));
    assert_eq!(registry.snapshot(), vec!["B".to_string()]);
    assert_eq!(registry.running_handle(&b), Some(&2));
}

#[test]
fn stop_during_spawn_hands_the_process_back() {
    let mut registry: SessionRegistry<u32> = SessionRegistry::new();
    let id = registry.begin_start("X").unwrap();
    assert_eq!(registry.stop("X"), StopOutcome::Cancelled);
    assert_eq!(registry.phase(&id), Some(Lifecycle::StopRequested));
    assert!(!registry.is_active("X"));
    let done = registry.finish_start(&id, SpawnOutcome::Spawned(9));
    assert_eq!(done, StartResolution { result: Err(StartError::Cancelled), orphan: Some(9) });
    assert_eq!(registry.phase(&id), None);
    assert_eq!(registry.snapshot(), Vec::<String>::new());
    assert_eq!(registry.running_handle(&id), None);
}

#[test]
fn stop_during_spawn_is_remembered_across_other_steps() {
    let mut registry: SessionRegistry<u32> = SessionRegistry::new();
    let old = registry.begin_start("X").unwrap();
    assert_eq!(registry.stop("X"), StopOutcome::Cancelled);
    let new = running(&mut registry, "X", 2);
    let other = running(&mut registry, "Y", 3);
    assert_eq!(registry.stop("Y"), StopOutcome::Terminate(3));
    let done = registry.finish_start(&old, SpawnOutcome::Spawned(1));
    assert_eq!(done, StartResolution { result: Err(StartError::Cancelled), orphan: Some(1) });
    assert_eq!(registry.phase(&new), Some(Lifecycle::Running));
    assert_eq!(registry.running_handle(&new), Some(&2));
    assert!(registry.is_active("X"));
    assert_eq!(registry.phase(&other), Some(Lifecycle::StopRequested));
}

#[test]
fn spawn_failure_frees_the_device() {
    let mut registry: SessionRegistry<u32> = SessionRegistry::new();
    let id = registry.begin_start("X").unwrap();
    let done = registry.finish_start(&id, SpawnOutcome::SpawnFailed);
    assert_eq!(done, StartResolution { result: Err(StartError::SpawnFailed), orphan: None });
    assert_eq!(registry.phase(&id), None);
    assert!(!registry.is_active("X"));
    assert_eq!(registry.begin_start("X"), Ok(SessionId::nth(1)));
}

#[test]
fn missing_streams_hand_the_process_back() {
    let mut registry: SessionRegistry<u32> = SessionRegistry::new();
    let id = registry.begin_start("X").unwrap();
    let done = registry.finish_start(&id, SpawnOutcome::StdoutMissing(5));
    assert_eq!(done, StartResolution { result: Err(StartError::StdoutCapture), orphan: Some(5) });
    assert!(!registry.is_active("X"));
    let id = registry.begin_start("X").unwrap();
    let done = registry.finish_start(&id, SpawnOutcome::StderrMissing(6));
    assert_eq!(done, StartResolution { result: Err(StartError::StderrCapture), orphan: Some(6) });
    assert_eq!(registry.phase(&id), None);
}

#[test]
fn spawn_failure_is_reported_before_a_stop_request() {
    let mut registry: SessionRegistry<u32> = SessionRegistry::new();
    let id = registry.begin_start("X").unwrap();
    assert_eq!(registry.stop("X"), StopOutcome::Cancelled);
    let done = registry.finish_start(&id, SpawnOutcome::SpawnFailed);
    assert_eq!(done, StartResolution { result: Err(StartError::SpawnFailed), orphan: None });
    let id = registry.begin_start("X").unwrap();
    assert_eq!(registry.stop("X"), StopOutcome::Cancelled);
    let done = registry.finish_start(&id, SpawnOutcome::StderrMissing(3));
    assert_eq!(done, StartResolution { result: Err(StartError::StderrCapture), orphan: Some(3) });
}

#[test]
fn finishing_a_start_that_is_not_pending_hands_the_process_back() {
    let mut registry: SessionRegistry<u32> = SessionRegistry::new();
    let done = registry.finish_start(&SessionId::nth(3), SpawnOutcome::Spawned(8));
    assert_eq!(done, StartResolution { result: Err(StartError::NotPending), orphan: Some(8) });
    let id = running(&mut registry, "X", 1);
    let again = registry.finish_start(&id, SpawnOutcome::Spawned(2));
    assert_eq!(again, StartResolution { result: Err(StartError::NotPending), orphan: Some(2) });
    assert_eq!(registry.running_handle(&id), Some(&1));
    let none = registry.finish_start(&SessionId::nth(9), SpawnOutcome::SpawnFailed);
    assert_eq!(none, StartResolution { result: Err(StartError::NotPending), orphan: None });
}

#[test]
fn stop_without_session_changes_nothing() {
    let mut registry: SessionRegistry<u32> = SessionRegistry::new();
    assert_eq!(registry.stop("X"), StopOutcome::NotFound);
    assert_eq!(registry.stop("X"), StopOutcome::NotFound);
    let id = running(&mut registry, "Y", 4);
    assert_eq!(registry.stop("X"), StopOutcome::NotFound);
    assert_eq!(registry.running_handle(&id), Some(&4));
    assert_eq!(registry.snapshot(), vec!["Y".to_string()]);
}

#[test]
fn stop_is_idempotent() {
    let mut registry: SessionRegistry<u32> = SessionRegistry::new();
    let id = running(&mut registry, "X", 4);
    assert_eq!(registry.stop("X"), StopOutcome::Terminate(4));
    assert_eq!(registry.stop("X"), StopOutcome::NotFound);
    assert_eq!(registry.stop("X"), StopOutcome::NotFound);
    assert_eq!(registry.phase(&id), Some(Lifecycle::StopRequested));
    assert_eq!(registry.running_handle(&id), None);
}

#[test]
fn self_exit_is_reported_once_with_its_status() {
    let mut registry: SessionRegistry<u32> = SessionRegistry::new();
    let id = running(&mut registry, "X", 4);
    assert_eq!(registry.supervise(&id, ExitObservation::StillRunning), Supervision::Continue);
    assert_eq!(
        registry.supervise(&id, ExitObservation::Exited(Some(3))),
        Supervision::Ended { device: "X".to_string(), exit_status: Some(3), released: Some(4) }
    );
    assert_eq!(registry.phase(&id), None);
    assert!(!registry.is_active("X"));
    assert_eq!(registry.supervise(&id, ExitObservation::Exited(Some(3))), Supervision::Gone);
    assert_eq!(registry.supervise(&id, ExitObservation::StillRunning), Supervision::Gone);
    assert_eq!(registry.stop("X"), StopOutcome::NotFound);
}

#[test]
fn exit_without_status_and_failed_poll_end_the_session() {
    let mut registry: SessionRegistry<u32> = SessionRegistry::new();
    let a = running(&mut registry, "A", 1);
    let b = running(&mut registry, "B", 2);
    assert_eq!(
        registry.supervise(&a, ExitObservation::Exited(None)),
        Supervision::Ended { device: "A".to_string(), exit_status: None, released: Some(1) }
    );
    assert_eq!(
        registry.supervise(&b, ExitObservation::PollFailed),
        Supervision::Ended { device: "B".to_string(), exit_status: None, released: Some(2) }
    );
    assert_eq!(registry.snapshot(), Vec::<String>::new());
    assert_eq!(registry.begin_start("A"), Ok(SessionId::nth(2)));
}

#[test]
fn stopped_session_is_reported_once_without_status() {
    let mut registry: SessionRegistry<u32> = SessionRegistry::new();
    let id = running(&mut registry, "X", 4);
    assert_eq!(registry.stop("X"), StopOutcome::Terminate(4));
    assert_eq!(
        registry.supervise(&id, ExitObservation::Exited(Some(0))),
        Supervision::Ended { device: "X".to_string(), exit_status: None, released: None }
    );
    assert_eq!(registry.supervise(&id, ExitObservation::Exited(Some(0))), Supervision::Gone);
    assert_eq!(registry.phase(&id), None);
}

#[test]
fn supervisor_of_an_old_session_leaves_the_new_one_alone() {
    let mut registry: SessionRegistry<u32> = SessionRegistry::new();
    let old = running(&mut registry, "X", 1);
    assert_eq!(registry.stop("X"), StopOutcome::Terminate(1));
    let new = running(&mut registry, "X", 2);
    assert_eq!(
        registry.supervise(&old, ExitObservation::StillRunning),
        Supervision::Ended { device: "X".to_string(), exit_status: None, released: None }
    );
    assert!(registry.is_active("X"));
    assert_eq!(registry.running_handle(&new), Some(&2));
    assert_eq!(registry.begin_start("X"), Err(StartError::AlreadyRunning));
}

#[test]
fn supervising_a_starting_session_waits() {
    let mut registry: SessionRegistry<u32> = SessionRegistry::new();
    let id = registry.begin_start("X").unwrap();
    assert_eq!(registry.supervise(&id, ExitObservation::Exited(Some(1))), Supervision::Continue);
    assert_eq!(registry.phase(&id), Some(Lifecycle::Starting));
}

#[test]
fn shutdown_hands_out_every_running_process() {
    let mut registry: SessionRegistry<u32> = SessionRegistry::new();
    let a = running(&mut registry, "A", 1);
    let b = registry.begin_start("B").unwrap();
    let c = running(&mut registry, "C", 3);
    let d = running(&mut registry, "D", 4);
    assert_eq!(registry.stop("D"), StopOutcome::Terminate(4));
    let released = registry.drain_and_terminate_all();
    assert_eq!(
        released,
        vec![
            Released { device: "A".to_string(), handle: 1 },
            Released { device: "C".to_string(), handle: 3 },
        ]
    );
    assert_eq!(registry.snapshot(), Vec::<String>::new());
    for device in ["A", "B", "C", "D"] {
        assert!(!registry.is_active(device));
    }
    for id in [&a, &b, &c, &d] {
        assert_eq!(registry.phase(id), Some(Lifecycle::StopRequested));
        assert_eq!(registry.running_handle(id), None);
    }
    let late = registry.finish_start(&b, SpawnOutcome::Spawned(2));
    assert_eq!(late, StartResolution { result: Err(StartError::Cancelled), orphan: Some(2) });
    assert_eq!(registry.drain_and_terminate_all(), Vec::<Released<u32>>::new());
}

#[test]
fn shutdown_of_an_empty_registry_hands_out_nothing() {
    let mut registry: SessionRegistry<String> = SessionRegistry::new();
    assert_eq!(registry.drain_and_terminate_all(), Vec::<Released<String>>::new());
}

#[test]
fn lifecycle_only_moves_forward() {
    let mut registry: SessionRegistry<u32> = SessionRegistry::new();
    let id = SessionId::nth(0);
    let mut seen = vec![registry.phase(&id)];
    registry.begin_start("X").unwrap();
    seen.push(registry.phase(&id));
    registry.finish_start(&id, SpawnOutcome::Spawned(1));
    seen.push(registry.phase(&id));
    registry.begin_start("X").unwrap_err();
    seen.push(registry.phase(&id));
    registry.stop("X");
    seen.push(registry.phase(&id));
    registry.supervise(&id, ExitObservation::StillRunning);
    seen.push(registry.phase(&id));
    registry.begin_start("X").unwrap();
    seen.push(registry.phase(&id));
    registry.finish_start(&id, SpawnOutcome::Spawned(2));
    seen.push(registry.phase(&id));
    registry.drain_and_terminate_all();
    seen.push(registry.phase(&id));
    assert_eq!(
        seen,
        vec![
            None,
            Some(Lifecycle::Starting),
            Some(Lifecycle::Running),
            Some(Lifecycle::Running),
            Some(Lifecycle::StopRequested),
            None,
            None,
            None,
            None,
        ]
    );
}

#[test]
fn identifiers_are_given_out_in_order_and_never_again() {
    let mut registry: SessionRegistry<u32> = SessionRegistry::new();
    for n in 0..5u64 {
        let id = registry.begin_start("X").unwrap();
        assert_eq!(id, SessionId::nth(n));
        assert_eq!(registry.finish_start(&id, SpawnOutcome::SpawnFailed).result, Err(StartError::SpawnFailed));
        assert_eq!(registry.phase(&id), None);
    }
    assert_eq!(registry.begin_start("Y"), Ok(SessionId::nth(5)));
}

#[test]
fn spawn_outcome_knows_its_handle_and_its_error() {
    assert_eq!(SpawnOutcome::Spawned(1u8).into_handle(), Some(1));
    assert_eq!(SpawnOutcome::<u8>::SpawnFailed.into_handle(), None);
    assert_eq!(SpawnOutcome::StdoutMissing(2u8).into_handle(), Some(2));
    assert_eq!(SpawnOutcome::StderrMissing(3u8).into_handle(), Some(3));
    assert_eq!(SpawnOutcome::Spawned(1u8).to_error(), StartError::Cancelled);
    assert_eq!(SpawnOutcome::<u8>::SpawnFailed.to_error(), StartError::SpawnFailed);
    assert_eq!(SpawnOutcome::StdoutMissing(2u8).to_error(), StartError::StdoutCapture);
    assert_eq!(SpawnOutcome::StderrMissing(3u8).to_error(), StartError::StderrCapture);
}
