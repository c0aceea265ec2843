use veldera::camera_mode::{
    process_mode_transitions, sync_freelook_control, CameraAction, CameraMode, CameraModeState,
    CameraModeTransitions,
};

fn run(state: &mut CameraModeState, ask: impl Fn(&mut CameraModeTransitions)) -> Vec<CameraAction> {
    let mut transitions = CameraModeTransitions::new();
    ask(&mut transitions);
    process_mode_transitions(&mut transitions, state)
}

#[test]
fn the_camera_starts_in_free_flight() {
    let state = CameraModeState::default();
    assert!(state.is_flycam());
    assert_eq!(state.return_mode(), None);
}

#[test]
fn following_comes_back_to_first_person() {
    let mut state = CameraModeState::default();
    assert_eq!(
        run(&mut state, |t| t.request_fps_controller()),
        vec![CameraAction::SetUpFpsFromFlycam]
    );
    assert_eq!(
        run(&mut state, |t| t.request_follow_entity(9)),
        vec![CameraAction::PreserveAndCleanUpFps, CameraAction::FollowTarget(9)]
    );
    assert_eq!(state.current(), CameraMode::FollowEntity);
    assert_eq!(state.return_mode(), Some(CameraMode::FpsController));
    assert_eq!(run(&mut state, |t| t.request_follow_entity(10)), vec![CameraAction::FollowTarget(10)]);
    assert_eq!(state.return_mode(), Some(CameraMode::FpsController));
    assert_eq!(
        run(&mut state, |t| t.request_exit()),
        vec![CameraAction::CleanUpFollow, CameraAction::SetUpFpsFromFollow]
    );
    assert!(state.is_fps_controller());
    assert_eq!(state.return_mode(), None);
}

#[test]
fn following_comes_back_to_free_flight() {
    let mut state = CameraModeState::default();
    assert_eq!(run(&mut state, |t| t.request_follow_entity(1)), vec![CameraAction::FollowTarget(1)]);
    assert_eq!(
        run(&mut state, |t| t.request_exit()),
        vec![CameraAction::CleanUpFollow, CameraAction::ForgetPreservedFps]
    );
    assert!(state.is_flycam());
}

#[test]
fn leaving_first_person_leads_to_free_flight() {
    let mut state = CameraModeState::default();
    run(&mut state, |t| t.request_fps_controller());
    assert_eq!(run(&mut state, |t| t.request_exit()), vec![CameraAction::CleanUpFps]);
    assert!(state.is_flycam());
}

#[test]
fn repeated_requests_do_nothing() {
    let mut state = CameraModeState::default();
    assert!(run(&mut state, |t| t.request_flycam()).is_empty());
    assert!(run(&mut state, |t| t.request_exit()).is_empty());
    run(&mut state, |t| t.request_fps_controller());
    assert!(run(&mut state, |t| t.request_fps_controller()).is_empty());
}

#[test]
fn requests_run_in_order() {
    let mut state = CameraModeState::default();
    let actions = run(&mut state, |t| {
        t.request_fps_controller();
        t.request_follow_entity(3);
        t.request_flycam();
    });
    assert_eq!(
        actions,
        vec![
            CameraAction::SetUpFpsFromFlycam,
            CameraAction::PreserveAndCleanUpFps,
            CameraAction::FollowTarget(3),
            CameraAction::CleanUpFollow,
            CameraAction::ForgetPreservedFps,
        ]
    );
    assert!(state.is_flycam());
}

#[test]
fn the_free_camera_yields_to_teleports_and_first_person() {
    let mut state = CameraModeState::default();
    let control = sync_freelook_control(&state, false);
    assert!(control.input_active && control.view_active);
    let control = sync_freelook_control(&state, true);
    assert!(!control.input_active && control.view_active);
    run(&mut state, |t| t.request_follow_entity(1));
    assert!(state.is_follow_entity());
    let control = sync_freelook_control(&state, false);
    assert!(!control.input_active && control.view_active);
    run(&mut state, |t| t.request_fps_controller());
    let control = sync_freelook_control(&state, false);
    assert!(!control.input_active && !control.view_active);
}
