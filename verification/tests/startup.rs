use d2r::errors::Error;
use d2r::tracker::process::{ProcessTracker, StartAction, StartEvent, SystemProcess};
use d2r::tracker::OsEvent;

fn listed(pid: u32, name: &str) -> SystemProcess {
    SystemProcess { pid, name: Some(name.to_string()) }
}

fn two_instances() -> Vec<SystemProcess> {
    vec![listed(100, "app.exe"), listed(4, "System"), listed(101, "app.exe")]
}

#[test]
fn start_sends_the_snapshot_then_launches_the_worker() {
    let mut tracker = ProcessTracker::new(&two_instances(), "app.exe");
    assert_eq!(tracker.action(), StartAction::Send(OsEvent::ProcessCreation(100)));
    assert_eq!(
        tracker.step(StartEvent::Delivered),
        StartAction::Send(OsEvent::ProcessCreation(101))
    );
    assert_eq!(tracker.step(StartEvent::Delivered), StartAction::Spawn);
    assert_eq!(tracker.step(StartEvent::WorkerSpawned), StartAction::Finish(Ok(())));
}

#[test]
fn start_without_a_running_instance_launches_the_worker_at_once() {
    let mut tracker = ProcessTracker::new(&vec![listed(4, "System")], "app.exe");
    assert_eq!(tracker.action(), StartAction::Spawn);
    assert_eq!(tracker.step(StartEvent::WorkerSpawned), StartAction::Finish(Ok(())));
}

#[test]
fn start_on_an_empty_listing_launches_the_worker_at_once() {
    let tracker = ProcessTracker::new(&Vec::new(), "app.exe");
    assert_eq!(tracker.action(), StartAction::Spawn);
}

#[test]
fn start_fails_when_the_channel_is_closed() {
    let mut tracker = ProcessTracker::new(&two_instances(), "app.exe");
    assert_eq!(
        tracker.step(StartEvent::ChannelClosed),
        StartAction::Finish(Err(Error::TokioSyncMpscSend(OsEvent::ProcessCreation(100))))
    );
}

#[test]
fn start_fails_with_the_event_that_was_not_taken() {
    let mut tracker = ProcessTracker::new(&two_instances(), "app.exe");
    assert_eq!(
        tracker.step(StartEvent::Delivered),
        StartAction::Send(OsEvent::ProcessCreation(101))
    );
    assert_eq!(
        tracker.step(StartEvent::ChannelClosed),
        StartAction::Finish(Err(Error::TokioSyncMpscSend(OsEvent::ProcessCreation(101))))
    );
}

#[test]
fn start_never_launches_the_worker_after_a_closed_channel() {
    let mut tracker = ProcessTracker::new(&two_instances(), "app.exe");
    let failed = StartAction::Finish(Err(Error::TokioSyncMpscSend(OsEvent::ProcessCreation(100))));
    assert_eq!(tracker.step(StartEvent::ChannelClosed), failed);
    assert_eq!(tracker.step(StartEvent::Delivered), failed);
    assert_eq!(tracker.step(StartEvent::WorkerSpawned), failed);
    assert_eq!(tracker.action(), failed);
}

#[test]
fn start_fails_when_the_worker_cannot_be_created() {
    let mut tracker = ProcessTracker::new(&two_instances(), "app.exe");
    tracker.step(StartEvent::Delivered);
    assert_eq!(tracker.step(StartEvent::Delivered), StartAction::Spawn);
    let failed = StartAction::Finish(Err(Error::InputOutput(
        "Resource temporarily unavailable".to_string(),
    )));
    assert_eq!(
        tracker.step(StartEvent::SpawnFailed("Resource temporarily unavailable".to_string())),
        failed
    );
    assert_eq!(tracker.step(StartEvent::WorkerSpawned), failed);
}

#[test]
fn start_stays_complete() {
    let mut tracker = ProcessTracker::new(&Vec::new(), "app.exe");
    assert_eq!(tracker.step(StartEvent::WorkerSpawned), StartAction::Finish(Ok(())));
    assert_eq!(tracker.step(StartEvent::ChannelClosed), StartAction::Finish(Ok(())));
    assert_eq!(
        tracker.step(StartEvent::SpawnFailed("late".to_string())),
        StartAction::Finish(Ok(()))
    );
    assert_eq!(tracker.step(StartEvent::Delivered), StartAction::Finish(Ok(())));
}

#[test]
fn start_does_not_launch_the_worker_before_the_snapshot_is_delivered() {
    let mut tracker = ProcessTracker::new(&two_instances(), "app.exe");
    assert_eq!(
        tracker.step(StartEvent::WorkerSpawned),
        StartAction::Send(OsEvent::ProcessCreation(100))
    );
    assert_eq!(
        tracker.step(StartEvent::SpawnFailed("early".to_string())),
        StartAction::Send(OsEvent::ProcessCreation(100))
    );
}

#[test]
fn start_does_not_count_a_delivery_that_it_did_not_ask_for() {
    let mut tracker = ProcessTracker::new(&vec![listed(100, "app.exe")], "app.exe");
    assert_eq!(tracker.step(StartEvent::Delivered), StartAction::Spawn);
    assert_eq!(tracker.step(StartEvent::Delivered), StartAction::Spawn);
    assert_eq!(tracker.step(StartEvent::ChannelClosed), StartAction::Spawn);
    assert_eq!(tracker.step(StartEvent::WorkerSpawned), StartAction::Finish(Ok(())));
}

#[test]
fn start_delivers_one_event_per_named_process() {
    let listing: Vec<SystemProcess> = (0..50u32)
        .map(|pid| listed(pid, if pid % 5 == 0 { "app.exe" } else { "other.exe" }))
        .collect();
    let mut tracker = ProcessTracker::new(&listing, "app.exe");
    let mut sent = Vec::new();
    let mut action = tracker.action();
    while let StartAction::Send(event) = action {
        sent.push(event);
        action = tracker.step(StartEvent::Delivered);
    }
    assert_eq!(action, StartAction::Spawn);
    let expected: Vec<OsEvent> =
        (0..50u32).filter(|pid| pid % 5 == 0).map(OsEvent::ProcessCreation).collect();
    assert_eq!(sent, expected);
}
