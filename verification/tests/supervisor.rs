use audio_streamer::config::Config;
use audio_streamer::supervisor::{
    LivenessStatus, ProcessExit, SignalOutcome, StartError, StreamSupervisor, SupervisorState,
};

fn configured() -> Config {
    let mut c = Config::default();
    c.target_ip = "192.168.1.5".to_string();
    c
}

fn running_supervisor() -> StreamSupervisor {
    let mut sup = StreamSupervisor::new();
    let args = sup.begin_start(&configured(), "mon").unwrap();
    assert!(!args.is_empty());
    sup.confirm_start(true);
    assert_eq!(sup.state(), SupervisorState::Running);
    sup
}

#[test]
fn new_supervisor_is_idle_and_poll_does_not_block_or_lie() {
    let mut sup = StreamSupervisor::new();
    assert_eq!(sup.state(), SupervisorState::Idle);
    assert_eq!(sup.poll(None), LivenessStatus::Idle);
    assert_eq!(sup.state(), SupervisorState::Idle);
}

#[test]
fn start_while_running_fails_without_side_effects() {
    let mut sup = running_supervisor();
    let again = sup.begin_start(&configured(), "other");
    assert_eq!(again, Err(StartError::AlreadyActive));
    assert_eq!(sup.state(), SupervisorState::Running);
    assert_eq!(sup.poll(None), LivenessStatus::StillRunning);
}

#[test]
fn start_without_destination_is_refused() {
    let mut sup = StreamSupervisor::new();
    let r = sup.begin_start(&Config::default(), "mon");
    assert_eq!(r, Err(StartError::NotConfigured));
    assert_eq!(sup.state(), SupervisorState::Idle);
}

#[test]
fn failed_launch_returns_to_idle() {
    let mut sup = StreamSupervisor::new();
    sup.begin_start(&configured(), "mon").unwrap();
    assert_eq!(sup.state(), SupervisorState::Starting);
    sup.confirm_start(false);
    assert_eq!(sup.state(), SupervisorState::Idle);
}

#[test]
fn poll_detects_natural_exit_and_releases_the_child() {
    let mut sup = running_supervisor();
    assert_eq!(sup.poll(None), LivenessStatus::StillRunning);
    assert_eq!(sup.poll(Some(ProcessExit::Abnormal)), LivenessStatus::ExitedAbnormally);
    assert_eq!(sup.state(), SupervisorState::Idle);
    assert_eq!(sup.poll(None), LivenessStatus::Idle);

    let mut sup2 = running_supervisor();
    assert_eq!(sup2.poll(Some(ProcessExit::Normal)), LivenessStatus::ExitedNormally);
    assert_eq!(sup2.state(), SupervisorState::Idle);
}

#[test]
fn stop_after_natural_exit_still_succeeds_and_is_idle() {
    let mut sup = running_supervisor();
    assert_eq!(sup.poll(Some(ProcessExit::Normal)), LivenessStatus::ExitedNormally);
    assert_eq!(sup.stop(SignalOutcome::AlreadyGone), Ok(()));
    assert_eq!(sup.state(), SupervisorState::Idle);
}

#[test]
fn stop_with_already_gone_child_succeeds_while_running() {
    let mut sup = running_supervisor();
    assert_eq!(sup.stop(SignalOutcome::AlreadyGone), Ok(()));
    assert_eq!(sup.state(), SupervisorState::Idle);
}

#[test]
fn stop_reports_failed_signal_but_ends_idle() {
    let mut sup = running_supervisor();
    assert!(sup.stop(SignalOutcome::Failed).is_err());
    assert_eq!(sup.state(), SupervisorState::Idle);
}

#[test]
fn stop_when_never_started_is_a_successful_no_op() {
    let mut sup = StreamSupervisor::new();
    assert_eq!(sup.stop(SignalOutcome::Delivered), Ok(()));
    assert_eq!(sup.state(), SupervisorState::Idle);
}

#[test]
fn test_tone_command_does_not_touch_the_handle() {
    let mut sup = running_supervisor();
    let tone = sup.test_tone_command(&configured());
    assert_eq!(tone.last().unwrap(), "udp://192.168.1.5:1234");
    assert_eq!(sup.state(), SupervisorState::Running);
    assert_eq!(sup.poll(None), LivenessStatus::StillRunning);
}
