use typezero_core::supervisor::{
    HealthAction, ProbeOutcome, ServiceState, StartAction, TtsManager, TtsEvent,
    pick_first_existing, select_voices,
};

#[test]
fn start_twice_spawns_exactly_once() {
    let (mut m, spawn_now) = TtsManager::new(false);
    assert!(!spawn_now);
    assert_eq!(m.state, ServiceState::Stopped);

    assert_eq!(m.start_service(), StartAction::Spawn);
    // second request while the spawn is still pending: no duplicate
    assert_eq!(m.start_service(), StartAction::AlreadyPresent);

    m.on_spawn_result(true, false);
    assert_eq!(m.state, ServiceState::Running);
    // and none either while the process runs
    assert_eq!(m.start_service(), StartAction::AlreadyPresent);
    assert!(m.events.is_empty());
}

#[test]
fn enabled_construction_spawns_immediately() {
    let (m, spawn_now) = TtsManager::new(true);
    assert!(spawn_now);
    assert_eq!(m.state, ServiceState::Starting);
    assert!(m.events.is_empty());
}

#[test]
fn health_wake_restarts_a_dead_process_with_event_pair() {
    let (mut m, _) = TtsManager::new(true);
    m.on_spawn_result(true, false);
    assert_eq!(m.state, ServiceState::Running);

    // the process exited between two wakes
    let action = m.health_wake(Some(ProbeOutcome::Exited), true);
    assert_eq!(action, HealthAction::Restart);
    assert_eq!(m.state, ServiceState::Starting);
    assert_eq!(m.events, vec![TtsEvent::Restarting]);

    m.on_spawn_result(true, true);
    assert_eq!(m.state, ServiceState::Running);
    assert_eq!(m.events, vec![TtsEvent::Restarting, TtsEvent::Running]);
}

#[test]
fn health_wake_reports_a_failed_restart() {
    let (mut m, _) = TtsManager::new(true);
    m.on_spawn_result(true, false);

    let action = m.health_wake(Some(ProbeOutcome::ProbeError), true);
    assert_eq!(action, HealthAction::Restart);
    m.on_spawn_result(false, true);
    assert_eq!(m.state, ServiceState::Stopped);
    assert_eq!(m.events, vec![TtsEvent::Restarting, TtsEvent::RestartFailed]);
}

#[test]
fn health_wake_leaves_a_live_process_alone() {
    let (mut m, _) = TtsManager::new(true);
    m.on_spawn_result(true, false);
    assert_eq!(m.health_wake(Some(ProbeOutcome::StillRunning), true), HealthAction::Idle);
    assert_eq!(m.state, ServiceState::Running);
    assert!(m.events.is_empty());
}

#[test]
fn disabled_health_wake_clears_without_restarting() {
    let (mut m, _) = TtsManager::new(true);
    m.on_spawn_result(true, false);
    assert_eq!(m.health_wake(Some(ProbeOutcome::Exited), false), HealthAction::Idle);
    assert_eq!(m.state, ServiceState::Stopped);
    assert!(m.events.is_empty());

    // it keeps waking and stays idle while disabled
    assert_eq!(m.health_wake(None, false), HealthAction::Idle);
    assert_eq!(m.state, ServiceState::Stopped);
}

#[test]
fn is_running_reconciles_an_exited_process() {
    let (mut m, _) = TtsManager::new(true);
    m.on_spawn_result(true, false);

    assert!(m.is_running(Some(ProbeOutcome::StillRunning)));
    assert_eq!(m.state, ServiceState::Running);

    assert!(!m.is_running(Some(ProbeOutcome::Exited)));
    assert_eq!(m.state, ServiceState::Stopped);

    assert!(!m.is_running(None));
}

#[test]
fn stop_service_kills_only_a_held_process() {
    let (mut m, _) = TtsManager::new(false);
    assert!(!m.stop_service());

    m.start_service();
    assert!(!m.stop_service()); // spawn still pending: nothing to kill

    let (mut m2, _) = TtsManager::new(true);
    m2.on_spawn_result(true, false);
    assert!(m2.stop_service());
    assert_eq!(m2.state, ServiceState::Stopped);
}

#[test]
fn first_existing_candidate_wins() {
    assert_eq!(pick_first_existing(&vec![false, true, true]), Some(1));
    assert_eq!(pick_first_existing(&vec![true]), Some(0));
    assert_eq!(pick_first_existing(&vec![false, false]), None);
    assert_eq!(pick_first_existing(&vec![]), None);
}

#[test]
fn voice_list_prefers_the_downloaded_model() {
    assert_eq!(select_voices(Some("piper_en".to_string())), vec!["piper_en".to_string()]);
    assert_eq!(select_voices(None), vec!["system_default".to_string()]);
}
