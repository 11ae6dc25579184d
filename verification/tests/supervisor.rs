use d2r::errors::Error;
use d2r::tracker::OsEvent;
use d2r::utils::{LocalSpawner, SupervisorAction, SupervisorState};

#[test]
fn supervisor_is_idle_before_it_is_started() {
    let spawner = LocalSpawner::new("process tracker");
    assert_eq!(spawner.state(), SupervisorState::Idle);
}

#[test]
fn supervisor_attempts_as_soon_as_it_is_started() {
    let mut spawner = LocalSpawner::new("process tracker");
    assert_eq!(spawner.start(), SupervisorAction::Attempt(None));
    assert_eq!(spawner.state(), SupervisorState::Attempting);
}

#[test]
fn supervisor_is_started_once() {
    let mut spawner = LocalSpawner::new("process tracker");
    assert_eq!(spawner.start(), SupervisorAction::Attempt(None));
    assert_eq!(spawner.start(), SupervisorAction::Nothing);
    assert_eq!(spawner.state(), SupervisorState::Attempting);
}

#[test]
fn supervisor_lets_outcomes_pass_while_idle() {
    let mut spawner = LocalSpawner::new("process tracker");
    assert_eq!(spawner.step(Err(Error::WMI("early".to_string()))), SupervisorAction::Nothing);
    assert_eq!(spawner.step(Ok(())), SupervisorAction::Nothing);
    assert_eq!(spawner.state(), SupervisorState::Idle);
}

#[test]
fn supervisor_logs_a_failure_and_attempts_again() {
    let mut spawner = LocalSpawner::new("process tracker");
    spawner.start();
    assert_eq!(
        spawner.step(Err(Error::WMI("RPC server unavailable".to_string()))),
        SupervisorAction::Attempt(Some("process tracker: RPC server unavailable".to_string()))
    );
    assert_eq!(spawner.state(), SupervisorState::Attempting);
}

#[test]
fn supervisor_logs_a_closed_channel() {
    let mut spawner = LocalSpawner::new("process tracker");
    spawner.start();
    assert_eq!(
        spawner.step(Err(Error::TokioSyncMpscSend(OsEvent::ProcessDeletion(100)))),
        SupervisorAction::Attempt(Some("process tracker: channel closed".to_string()))
    );
}

#[test]
fn supervisor_logs_an_input_output_failure() {
    let mut spawner = LocalSpawner::new("worker");
    spawner.start();
    assert_eq!(
        spawner.step(Err(Error::InputOutput("broken pipe".to_string()))),
        SupervisorAction::Attempt(Some("worker: broken pipe".to_string()))
    );
}

#[test]
fn supervisor_attempts_again_after_an_attempt_that_ended_without_error() {
    let mut spawner = LocalSpawner::new("process tracker");
    spawner.start();
    assert_eq!(spawner.step(Ok(())), SupervisorAction::Attempt(None));
    assert_eq!(spawner.state(), SupervisorState::Attempting);
}

#[test]
fn supervisor_logs_under_an_empty_name() {
    let mut spawner = LocalSpawner::new("");
    spawner.start();
    assert_eq!(
        spawner.step(Err(Error::WMI("".to_string()))),
        SupervisorAction::Attempt(Some(": ".to_string()))
    );
}

#[test]
fn supervisor_makes_one_attempt_more_than_failures() {
    let failures = 1000;
    let mut spawner = LocalSpawner::new("process tracker");
    let mut attempts = 0;
    if let SupervisorAction::Attempt(_) = spawner.start() {
        attempts += 1;
    }
    for i in 0..failures {
        let action = spawner.step(Err(Error::WMI(format!("failure {}", i))));
        assert_eq!(
            action,
            SupervisorAction::Attempt(Some(format!("process tracker: failure {}", i)))
        );
        attempts += 1;
    }
    assert_eq!(attempts, failures + 1);
    assert_eq!(spawner.state(), SupervisorState::Attempting);
}

#[test]
fn supervisor_never_terminates() {
    let mut spawner = LocalSpawner::new("process tracker");
    spawner.start();
    for round in 0..300u32 {
        let outcome = match round % 3 {
            0 => Err(Error::WMI("lost".to_string())),
            1 => Ok(()),
            _ => Err(Error::TokioSyncMpscSend(OsEvent::ProcessCreation(round))),
        };
        assert!(matches!(spawner.step(outcome), SupervisorAction::Attempt(_)));
        assert_ne!(spawner.state(), SupervisorState::Terminated);
    }
}
