use crate::errors::Error;
use crate::tracker::OsEvent;
use crate::utils::{begin, supervise, Supervisor, SupervisorState};
use vstd::prelude::*;
use vstd::string::*;

verus! {

/// The name of the executable whose instances are tracked.
pub const D2R_PROCESS: &'static str = "D2R.exe";

/// A process as a notification describes it.
#[derive(Debug, PartialEq, Eq)]
pub struct WMIProcess {
    pub process_id: u32,
    pub name: String,
}

/// The record that announces a new process.
#[derive(Debug, PartialEq, Eq)]
pub struct WMIProcessCreationEvent {
    pub target_instance: WMIProcess,
}

/// The record that announces the end of a process.
#[derive(Debug, PartialEq, Eq)]
pub struct WMIProcessDeletionEvent {
    pub target_instance: WMIProcess,
}

/// A notification record that carries the process it is about.
pub trait Notification: Sized {
    /// The process that the record is about.
    spec fn instance(&self) -> WMIProcess;

    /// Gives up the record for the process that it is about.
    fn into_instance(self) -> (process: WMIProcess)
        ensures
            process == self.instance(),
    ;
}

impl Notification for WMIProcessCreationEvent {
    open spec fn instance(&self) -> WMIProcess {
        self.target_instance
    }

    fn into_instance(self) -> (process: WMIProcess) {
        self.target_instance
    }
}

impl Notification for WMIProcessDeletionEvent {
    open spec fn instance(&self) -> WMIProcess {
        self.target_instance
    }

    fn into_instance(self) -> (process: WMIProcess) {
        self.target_instance
    }
}

/// The identifier of `process` if it is named `target`, letter for letter.
pub open spec fn named_pid(process: WMIProcess, target: Seq<char>) -> Option<u32> {
    if process.name@ == target {
        Some(process.process_id)
    } else {
        None
    }
}

/// The record in a raw item, if the item could be decoded.
pub open spec fn decoded_item<T, E>(item: Result<T, E>) -> Option<T> {
    match item {
        Ok(record) => Some(record),
        Err(_) => None,
    }
}

/// The records of the raw items that could be decoded, in their order.
pub open spec fn decoded<T, E>(items: Seq<Result<T, E>>) -> Seq<T> {
    items.filter_map(|item: Result<T, E>| decoded_item(item))
}

/// The identifier that a raw item contributes to the pipeline: that of its
/// process, if the item could be decoded and the process is named `target`.
pub open spec fn accepted_pid<T: Notification, E>(item: Result<T, E>, target: Seq<char>) -> Option<
    u32,
> {
    match item {
        Ok(record) => named_pid(record.instance(), target),
        Err(_) => None,
    }
}

/// What the pipeline yields for a run of raw items: the identifiers of the
/// processes named `target` among the items that could be decoded, in the
/// order of the items.
pub open spec fn filtered_pids<T: Notification, E>(
    items: Seq<Result<T, E>>,
    target: Seq<char>,
) -> Seq<u32> {
    items.filter_map(|item: Result<T, E>| accepted_pid(item, target))
}

/// Tells whether `process` is named `target`, and gives its identifier if so.
pub fn pid_if_named(process: &WMIProcess, target: &String) -> (pid: Option<u32>)
    ensures
        pid == named_pid(*process, target@),
{
    if process.name == *target {
        Some(process.process_id)
    } else {
        None
    }
}

/// Takes one raw item through the pipeline: the identifier of its process, if
/// the item could be decoded and the process is named `target`.
pub fn accept<T: Notification, E>(item: Result<T, E>, target: &String) -> (pid: Option<u32>)
    ensures
        pid == accepted_pid(item, target@),
{
    match item {
        Ok(record) => {
            let process = record.into_instance();
            pid_if_named(&process, target)
        },
        Err(_) => None,
    }
}

/// The identifiers of the processes named `target` among `records`, in the
/// order of the records.
pub open spec fn pids_named<T: Notification>(records: Seq<T>, target: Seq<char>) -> Seq<u32> {
    records.filter_map(|record: T| named_pid(record.instance(), target))
}

/// Projects each record to its process, keeps the processes named `target`
/// and gives their identifiers, in the order of the records.
pub fn named_pids<T: Notification>(records: Vec<T>, target: &String) -> (pids: Vec<u32>)
    ensures
        pids@ == pids_named(records@, target@),
{
    let mut pids: Vec<u32> = Vec::new();
    for record in it: records
        invariant
            it.seq() == records@,
            pids@ == pids_named(records@.take(it.index()), target@),
    {
        proof {
            records@.lemma_filter_map_take_succ(
                |record: T| named_pid(record.instance(), target@),
                it.index(),
            );
        }
        let process = record.into_instance();
        match pid_if_named(&process, target) {
            Some(pid) => {
                pids.push(pid);
            },
            None => {},
        }
    }
    proof {
        assert(records@.take(records@.len() as int) =~= records@);
    }
    pids
}

/// Dropping what could not be decoded and then keeping the processes named
/// `target` is the pipeline.
proof fn lemma_decode_then_name<T: Notification, E>(items: Seq<Result<T, E>>, target: Seq<char>)
    ensures
        pids_named(decoded(items), target) == filtered_pids(items, target),
    decreases items.len(),
{
    if items.len() > 0 {
        let rest = items.drop_last();
        lemma_decode_then_name(rest, target);
        match items.last() {
            Ok(record) => {
                let kept = decoded(rest);
                assert(decoded(items) == kept.push(record));
                assert(decoded(items).drop_last() =~= kept);
            },
            Err(_) => {},
        }
    }
}

/// What the two subscriptions of one attempt report.
#[derive(Debug)]
pub enum Signal<E> {
    /// A raw item of the subscription to new processes.
    Creation(Result<WMIProcessCreationEvent, E>),
    /// A raw item of the subscription to exited processes.
    Deletion(Result<WMIProcessDeletionEvent, E>),
    /// One of the two subscriptions has ended.
    Ended,
    /// The connection could not be opened, a subscription could not be set
    /// up, or the channel did not take an event.
    Failed(Error),
}

/// What is to be done about a signal.
#[derive(Debug, PartialEq, Eq)]
pub enum Action {
    /// Send the event to the consumer.
    Forward(OsEvent),
    /// Nothing: wait for the next signal.
    Skip,
    /// Give up both subscriptions together and report the attempt as over.
    Complete(Result<(), Error>),
}

/// The state of one attempt at live tracking, as contracts see it.
pub struct Attempt {
    /// The name of the executable whose instances are tracked.
    pub target: Seq<char>,
    /// Whether the attempt is over.
    pub finished: bool,
}

/// One attempt at live tracking: both subscriptions of one connection,
/// merged into one run of events.
pub struct WMIProcessTracker {
    target: String,
    finished: bool,
}

impl View for WMIProcessTracker {
    type V = Attempt;

    closed spec fn view(&self) -> Attempt {
        Attempt { target: self.target@, finished: self.finished }
    }
}

/// The event that a signal stands for while the attempt runs: the creation or
/// the deletion of the process that a decoded item names, if that process is
/// named `target`.
pub open spec fn event_of<E>(signal: Signal<E>, target: Seq<char>) -> Option<OsEvent> {
    match signal {
        Signal::Creation(item) => match accepted_pid(item, target) {
            Some(pid) => Some(OsEvent::ProcessCreation(pid)),
            None => None,
        },
        Signal::Deletion(item) => match accepted_pid(item, target) {
            Some(pid) => Some(OsEvent::ProcessDeletion(pid)),
            None => None,
        },
        Signal::Ended => None,
        Signal::Failed(_) => None,
    }
}

/// How an attempt reacts to a signal: the state it is in afterwards, and what
/// is to be done. A finished attempt does not react. A running attempt is over
/// with the first subscription that ends or fails, forwards the event of a
/// signal that has one, and lets every other signal pass.
pub open spec fn react<E>(attempt: Attempt, signal: Signal<E>) -> (Attempt, Action) {
    if attempt.finished {
        (attempt, Action::Skip)
    } else {
        match signal {
            Signal::Ended => (
                Attempt { target: attempt.target, finished: true },
                Action::Complete(Ok(())),
            ),
            Signal::Failed(error) => (
                Attempt { target: attempt.target, finished: true },
                Action::Complete(Err(error)),
            ),
            _ => (
                attempt,
                match event_of(signal, attempt.target) {
                    Some(event) => Action::Forward(event),
                    None => Action::Skip,
                },
            ),
        }
    }
}

impl WMIProcessTracker {
    /// A running attempt that tracks the executable named `target`.
    pub fn new(target: &str) -> (tracker: Self)
        ensures
            tracker@ == (Attempt { target: target@, finished: false }),
    {
        WMIProcessTracker { target: String::from_str(target), finished: false }
    }

    /// Whether the attempt is over.
    pub fn is_finished(&self) -> (finished: bool)
        ensures
            finished == self@.finished,
    {
        self.finished
    }

    /// Drops the raw items that could not be decoded and keeps the records of
    /// the others, in their order.
    pub fn wmi_filtered_notification<T, E>(&self, items: Vec<Result<T, E>>) -> (records: Vec<T>)
        ensures
            records@ == decoded(items@),
    {
        let mut records: Vec<T> = Vec::new();
        for item in it: items
            invariant
                it.seq() == items@,
                records@ == decoded(items@.take(it.index())),
        {
            proof {
                items@.lemma_filter_map_take_succ(
                    |item: Result<T, E>| decoded_item(item),
                    it.index(),
                );
            }
            match item {
                Ok(record) => {
                    records.push(record);
                },
                Err(_) => {},
            }
        }
        proof {
            assert(items@.take(items@.len() as int) =~= items@);
        }
        records
    }

    /// The pipeline, for either kind of record: drops the raw items that
    /// could not be decoded, projects each record to its process, keeps the
    /// processes named as the tracked executable and gives their identifiers.
    fn filtered_stream<T: Notification, E>(&self, items: Vec<Result<T, E>>) -> (pids: Vec<u32>)
        ensures
            pids@ == filtered_pids(items@, self@.target),
    {
        proof {
            lemma_decode_then_name(items@, self.target@);
        }
        let records = self.wmi_filtered_notification(items);
        named_pids(records, &self.target)
    }

    /// The identifiers of the new processes named as the tracked executable,
    /// in the order of the raw items that announce them.
    pub fn process_creation_stream<E>(
        &self,
        items: Vec<Result<WMIProcessCreationEvent, E>>,
    ) -> (pids: Vec<u32>)
        ensures
            pids@ == filtered_pids(items@, self@.target),
    {
        self.filtered_stream(items)
    }

    /// The identifiers of the exited processes named as the tracked
    /// executable, in the order of the raw items that announce them.
    pub fn process_deletion_stream<E>(
        &self,
        items: Vec<Result<WMIProcessDeletionEvent, E>>,
    ) -> (pids: Vec<u32>)
        ensures
            pids@ == filtered_pids(items@, self@.target),
    {
        self.filtered_stream(items)
    }

    /// Takes a signal of one of the two subscriptions and says what is to be
    /// done about it.
    pub fn step<E>(&mut self, signal: Signal<E>) -> (action: Action)
        ensures
            (final(self)@, action) == react(old(self)@, signal),
    {
        if self.finished {
            return Action::Skip;
        }
        match signal {
            Signal::Creation(item) => match accept(item, &self.target) {
                Some(pid) => Action::Forward(OsEvent::ProcessCreation(pid)),
                None => Action::Skip,
            },
            Signal::Deletion(item) => match accept(item, &self.target) {
                Some(pid) => Action::Forward(OsEvent::ProcessDeletion(pid)),
                None => Action::Skip,
            },
            Signal::Ended => {
                self.finished = true;
                Action::Complete(Ok(()))
            },
            Signal::Failed(error) => {
                self.finished = true;
                Action::Complete(Err(error))
            },
        }
    }
}

/// Where an attempt stands, and what was to be done about each signal, after
/// `signals` came in, in that order.
pub open spec fn run<E>(attempt: Attempt, signals: Seq<Signal<E>>) -> (Attempt, Seq<Action>)
    decreases signals.len(),
{
    if signals.len() == 0 {
        (attempt, Seq::empty())
    } else {
        let (before, actions) = run(attempt, signals.drop_last());
        let (after, action) = react(before, signals.last());
        (after, actions.push(action))
    }
}

/// The event that an action sends, if it sends one.
pub open spec fn sent_by(action: Action) -> Option<OsEvent> {
    match action {
        Action::Forward(event) => Some(event),
        _ => None,
    }
}

/// The events that `actions` send to the consumer, in their order.
pub open spec fn forwarded(actions: Seq<Action>) -> Seq<OsEvent> {
    actions.filter_map(|action: Action| sent_by(action))
}

/// Whether a signal is a raw item that could not be decoded.
pub open spec fn undecodable<E>(signal: Signal<E>) -> bool {
    ||| signal matches Signal::Creation(Err(_))
    ||| signal matches Signal::Deletion(Err(_))
}

/// Whether a signal ends the attempt that receives it.
pub open spec fn closing<E>(signal: Signal<E>) -> bool {
    signal is Ended || signal is Failed
}

/// Signals that come in one run after another are taken one run after the
/// other.
proof fn lemma_run_concat<E>(attempt: Attempt, first: Seq<Signal<E>>, second: Seq<Signal<E>>)
    ensures
        run(attempt, first + second).0 == run(run(attempt, first).0, second).0,
        run(attempt, first + second).1 == run(attempt, first).1 + run(
            run(attempt, first).0,
            second,
        ).1,
    decreases second.len(),
{
    if second.len() == 0 {
        assert(first + second =~= first);
        assert(run(attempt, first).1 + Seq::<Action>::empty() =~= run(attempt, first).1);
    } else {
        lemma_run_concat(attempt, first, second.drop_last());
        assert((first + second).drop_last() =~= first + second.drop_last());
        let middle = run(attempt, first).0;
        let (before, actions) = run(middle, second.drop_last());
        let action = react(before, second.last()).1;
        assert(run(attempt, first).1 + actions.push(action) =~= (run(attempt, first).1
            + actions).push(action));
    }
}

/// The events of two runs of actions are those of the first, then those of
/// the second.
proof fn lemma_forwarded_concat(first: Seq<Action>, second: Seq<Action>)
    ensures
        forwarded(first + second) == forwarded(first) + forwarded(second),
    decreases second.len(),
{
    if second.len() == 0 {
        assert(first + second =~= first);
        assert(forwarded(first) + forwarded(second) =~= forwarded(first));
    } else {
        lemma_forwarded_concat(first, second.drop_last());
        assert((first + second).drop_last() =~= first + second.drop_last());
        match sent_by(second.last()) {
            Some(event) => {
                assert(forwarded(first) + (forwarded(second.drop_last()) + seq![event])
                    =~= (forwarded(first) + forwarded(second.drop_last())) + seq![event]);
            },
            None => {},
        }
    }
}

/// There is one action for each signal.
pub proof fn lemma_one_action_per_signal<E>(attempt: Attempt, signals: Seq<Signal<E>>)
    ensures
        run(attempt, signals).1.len() == signals.len(),
        run(attempt, signals).0.target == attempt.target,
        attempt.finished ==> run(attempt, signals).0.finished,
    decreases signals.len(),
{
    if signals.len() > 0 {
        lemma_one_action_per_signal(attempt, signals.drop_last());
    }
}

/// An event reaches the consumer only for a process named as the tracked
/// executable: whatever signals come in, each event that is forwarded is the
/// event of the signal that it answers, and that signal is a decoded item
/// whose process bears the tracked name, on the side that the event tells of.
pub proof fn lemma_forwards_only_the_tracked_name<E>(
    attempt: Attempt,
    signals: Seq<Signal<E>>,
    i: int,
)
    requires
        0 <= i < signals.len(),
    ensures
        run(attempt, signals).1.len() == signals.len(),
        run(attempt, signals).1[i] matches Action::Forward(event) ==> {
            &&& event_of(signals[i], attempt.target) == Some(event)
            &&& match signals[i] {
                Signal::Creation(Ok(record)) => {
                    &&& record.target_instance.name@ == attempt.target
                    &&& event == OsEvent::ProcessCreation(record.target_instance.process_id)
                },
                Signal::Deletion(Ok(record)) => {
                    &&& record.target_instance.name@ == attempt.target
                    &&& event == OsEvent::ProcessDeletion(record.target_instance.process_id)
                },
                _ => false,
            }
        },
    decreases signals.len(),
{
    lemma_one_action_per_signal(attempt, signals);
    lemma_one_action_per_signal(attempt, signals.drop_last());
    if i < signals.len() - 1 {
        lemma_forwards_only_the_tracked_name(attempt, signals.drop_last(), i);
    }
}

/// A raw item that could not be decoded leaves no trace: with it or without
/// it among the signals, the attempt ends in the same state and the same
/// events reach the consumer, those of later items included.
pub proof fn lemma_undecodable_item_leaves_no_trace<E>(
    attempt: Attempt,
    before: Seq<Signal<E>>,
    item: Signal<E>,
    after: Seq<Signal<E>>,
)
    requires
        undecodable(item),
    ensures
        run(attempt, before.push(item) + after).0 == run(attempt, before + after).0,
        forwarded(run(attempt, before.push(item) + after).1) == forwarded(
            run(attempt, before + after).1,
        ),
{
    let reached = run(attempt, before).0;
    assert(before.push(item).drop_last() =~= before);
    assert(react(reached, item) == (reached, Action::Skip));
    lemma_run_concat(attempt, before.push(item), after);
    lemma_run_concat(attempt, before, after);
    let head = run(attempt, before).1;
    let tail = run(reached, after).1;
    lemma_forwarded_concat(head.push(Action::Skip), tail);
    lemma_forwarded_concat(head, tail);
    assert(head.push(Action::Skip).drop_last() =~= head);
}

/// While neither subscription ends or fails, the attempt keeps running and
/// the consumer is sent the event of every signal that has one, each once and
/// in the order in which the signals came in.
pub proof fn lemma_forwards_each_event_in_order<E>(attempt: Attempt, signals: Seq<Signal<E>>)
    requires
        !attempt.finished,
        forall|i: int| 0 <= i < signals.len() ==> !closing(#[trigger] signals[i]),
    ensures
        !run(attempt, signals).0.finished,
        forwarded(run(attempt, signals).1) == signals.filter_map(
            |signal: Signal<E>| event_of(signal, attempt.target),
        ),
    decreases signals.len(),
{
    if signals.len() > 0 {
        let rest = signals.drop_last();
        assert forall|i: int| 0 <= i < rest.len() implies !closing(#[trigger] rest[i]) by {
            assert(rest[i] == signals[i]);
        }
        lemma_forwards_each_event_in_order(attempt, rest);
        lemma_one_action_per_signal(attempt, rest);
        assert(!closing(signals[signals.len() - 1]));
        let (reached, actions) = run(attempt, rest);
        let action = react(reached, signals.last()).1;
        assert(actions.push(action).drop_last() =~= actions);
    }
}

/// The two subscriptions are given up together: from the first signal that
/// ends or fails one of them on, the attempt is over, and nothing is
/// forwarded for any later signal of either.
pub proof fn lemma_nothing_after_completion<E>(
    attempt: Attempt,
    signals: Seq<Signal<E>>,
    k: int,
    i: int,
)
    requires
        0 <= k < i < signals.len(),
        closing(signals[k]),
    ensures
        run(attempt, signals).0.finished,
        run(attempt, signals).1.len() == signals.len(),
        run(attempt, signals).1[i] == Action::Skip,
    decreases signals.len(),
{
    let rest = signals.drop_last();
    lemma_one_action_per_signal(attempt, signals);
    lemma_one_action_per_signal(attempt, rest);
    if i < signals.len() - 1 {
        lemma_nothing_after_completion(attempt, rest, k, i);
    } else {
        lemma_finished_from(attempt, rest, k);
    }
}

/// An attempt is over once a signal has ended or failed one subscription.
proof fn lemma_finished_from<E>(attempt: Attempt, signals: Seq<Signal<E>>, k: int)
    requires
        0 <= k < signals.len(),
        closing(signals[k]),
    ensures
        run(attempt, signals).0.finished,
    decreases signals.len(),
{
    if k < signals.len() - 1 {
        lemma_finished_from(attempt, signals.drop_last(), k);
    }
}

/// Tracking resumes after any run of failures. However the attempts of a
/// started supervisor have ended so far, the last thing it asked for is one
/// more attempt; and an attempt starts afresh: while neither of its
/// subscriptions ends or fails, it forwards the event of every signal that
/// has one, in order.
pub proof fn lemma_tracking_resumes<E>(
    name: Seq<char>,
    target: Seq<char>,
    outcomes: Seq<Result<(), Error>>,
    signals: Seq<Signal<E>>,
)
    requires
        forall|i: int| 0 <= i < signals.len() ==> !closing(#[trigger] signals[i]),
    ensures
        ({
            let (started, first) = begin(Supervisor { name, state: SupervisorState::Idle });
            let (reached, decisions) = supervise(started, outcomes);
            let fresh = Attempt { target, finished: false };
            &&& reached.state == SupervisorState::Attempting
            &&& (seq![first] + decisions).last() is Attempt
            &&& forwarded(run(fresh, signals).1) == signals.filter_map(
                |signal: Signal<E>| event_of(signal, target),
            )
        }),
{
    crate::utils::lemma_supervisor_never_gives_up(name, outcomes);
    lemma_forwards_each_event_in_order(Attempt { target, finished: false }, signals);
    let (started, first) = begin(Supervisor { name, state: SupervisorState::Idle });
    let decisions = supervise(started, outcomes).1;
    if outcomes.len() > 0 {
        assert(decisions[outcomes.len() - 1] is Attempt);
    }
}

/// A process as the listing of the running processes shows it.
#[derive(Debug, PartialEq, Eq)]
pub struct SystemProcess {
    pub pid: u32,
    /// The name of the executable, or `None` where the name that the
    /// operating system reports is no Unicode text.
    pub name: Option<String>,
}

/// Whether a listed process is named `target`, letter for letter.
pub open spec fn bears_name(process: SystemProcess, target: Seq<char>) -> bool {
    process.name matches Some(name) && name@ == target
}

/// The event that announces a listed process, if it is named `target`.
pub open spec fn snapshot_event(process: SystemProcess, target: Seq<char>) -> Option<OsEvent> {
    if bears_name(process, target) {
        Some(OsEvent::ProcessCreation(process.pid))
    } else {
        None
    }
}

/// The events that announce the listed processes named `target`, in the order
/// of the listing.
pub open spec fn snapshot_events(processes: Seq<SystemProcess>, target: Seq<char>) -> Seq<
    OsEvent,
> {
    processes.filter_map(|process: SystemProcess| snapshot_event(process, target))
}

/// Announces the processes that are already running: one creation event for
/// each listed process named `target`, in the order of the listing, and
/// nothing for any other.
pub fn snapshot(processes: &Vec<SystemProcess>, target: &str) -> (events: Vec<OsEvent>)
    ensures
        events@ == snapshot_events(processes@, target@),
{
    let wanted = String::from_str(target);
    let mut events: Vec<OsEvent> = Vec::new();
    let mut i: usize = 0;
    while i < processes.len()
        invariant
            i <= processes.len(),
            wanted@ == target@,
            events@ == snapshot_events(processes@.take(i as int), target@),
        decreases processes.len() - i,
    {
        proof {
            processes@.lemma_filter_map_take_succ(
                |process: SystemProcess| snapshot_event(process, target@),
                i as int,
            );
        }
        let process = &processes[i];
        let named = match &process.name {
            Some(name) => *name == wanted,
            None => false,
        };
        if named {
            events.push(OsEvent::ProcessCreation(process.pid));
        }
        i = i + 1;
    }
    proof {
        assert(processes@.take(processes@.len() as int) =~= processes@);
    }
    events
}

/// How far the start of tracking has come.
#[derive(Debug, PartialEq, Eq)]
pub enum Phase {
    /// The snapshot is being delivered, or the worker is being launched.
    Starting,
    /// The snapshot is delivered and the worker runs.
    Started,
    /// The start has failed for good.
    Failed(Error),
}

/// What came of the action that the tracker asked for last.
#[derive(Debug, PartialEq, Eq)]
pub enum StartEvent {
    /// The channel took the event.
    Delivered,
    /// The consumer has closed the channel: the event was not taken.
    ChannelClosed,
    /// The worker thread runs.
    WorkerSpawned,
    /// The worker thread or its scheduler could not be created. Holds the
    /// message of the operating system.
    SpawnFailed(String),
}

/// What the caller is to do next to start tracking.
#[derive(Debug, PartialEq, Eq)]
pub enum StartAction {
    /// Send the event to the consumer, waiting while the channel is full.
    Send(OsEvent),
    /// Launch the worker thread that supervises live tracking.
    Spawn,
    /// Return: tracking has started, or the start has failed.
    Finish(Result<(), Error>),
}

/// The start of tracking, as contracts see it.
pub struct Startup {
    /// The events of the snapshot, in the order in which they are sent.
    pub backlog: Seq<OsEvent>,
    /// How many of them the channel has taken.
    pub sent: nat,
    /// How far the start has come.
    pub phase: Phase,
}

/// What is to be done next.
pub open spec fn pending(startup: Startup) -> StartAction {
    match startup.phase {
        Phase::Starting => if startup.sent < startup.backlog.len() {
            StartAction::Send(startup.backlog[startup.sent as int])
        } else {
            StartAction::Spawn
        },
        Phase::Started => StartAction::Finish(Ok(())),
        Phase::Failed(error) => StartAction::Finish(Err(error)),
    }
}

/// Where the start stands after `event`. While events of the snapshot are
/// left, a delivery moves on to the next and a closed channel fails the start
/// with the event that was not taken. Once all are delivered, the running
/// worker completes the start and a worker that could not be created fails
/// it. An event that does not answer the pending action changes nothing, and
/// neither does any event once the start is complete or has failed.
pub open spec fn advance(startup: Startup, event: StartEvent) -> Startup {
    match startup.phase {
        Phase::Starting => if startup.sent < startup.backlog.len() {
            match event {
                StartEvent::Delivered => Startup {
                    backlog: startup.backlog,
                    sent: startup.sent + 1,
                    phase: Phase::Starting,
                },
                StartEvent::ChannelClosed => Startup {
                    backlog: startup.backlog,
                    sent: startup.sent,
                    phase: Phase::Failed(
                        Error::TokioSyncMpscSend(startup.backlog[startup.sent as int]),
                    ),
                },
                _ => startup,
            }
        } else {
            match event {
                StartEvent::WorkerSpawned => Startup {
                    backlog: startup.backlog,
                    sent: startup.sent,
                    phase: Phase::Started,
                },
                StartEvent::SpawnFailed(text) => Startup {
                    backlog: startup.backlog,
                    sent: startup.sent,
                    phase: Phase::Failed(Error::InputOutput(text)),
                },
                _ => startup,
            }
        },
        _ => startup,
    }
}

/// The start of tracking: the snapshot of the processes that already run is
/// delivered first, then the worker that supervises live tracking is
/// launched.
pub struct ProcessTracker {
    backlog: Vec<OsEvent>,
    sent: usize,
    phase: Phase,
}

impl View for ProcessTracker {
    type V = Startup;

    closed spec fn view(&self) -> Startup {
        Startup { backlog: self.backlog@, sent: self.sent as nat, phase: self.phase }
    }
}

impl ProcessTracker {
    /// Plans the start of tracking the executable named `target`, given the
    /// listing of the running processes: nothing is sent yet, and the snapshot
    /// holds one creation event for each listed process of that name.
    pub fn new(processes: &Vec<SystemProcess>, target: &str) -> (tracker: Self)
        ensures
            tracker@ == (Startup {
                backlog: snapshot_events(processes@, target@),
                sent: 0,
                phase: Phase::Starting,
            }),
    {
        ProcessTracker { backlog: snapshot(processes, target), sent: 0, phase: Phase::Starting }
    }

    /// What the caller is to do next.
    pub fn action(&self) -> (action: StartAction)
        ensures
            action == pending(self@),
    {
        match &self.phase {
            Phase::Starting => if self.sent < self.backlog.len() {
                StartAction::Send(self.backlog[self.sent])
            } else {
                StartAction::Spawn
            },
            Phase::Started => StartAction::Finish(Ok(())),
            Phase::Failed(error) => StartAction::Finish(Err(error.clone())),
        }
    }

    /// Takes what came of the last action, and says what the caller is to do
    /// next.
    pub fn step(&mut self, event: StartEvent) -> (action: StartAction)
        ensures
            final(self)@ == advance(old(self)@, event),
            action == pending(final(self)@),
    {
        let starting = match &self.phase {
            Phase::Starting => true,
            _ => false,
        };
        if starting {
            if self.sent < self.backlog.len() {
                match event {
                    StartEvent::Delivered => {
                        self.sent = self.sent + 1;
                    },
                    StartEvent::ChannelClosed => {
                        self.phase = Phase::Failed(
                            Error::TokioSyncMpscSend(self.backlog[self.sent]),
                        );
                    },
                    _ => {},
                }
            } else {
                match event {
                    StartEvent::WorkerSpawned => {
                        self.phase = Phase::Started;
                    },
                    StartEvent::SpawnFailed(text) => {
                        self.phase = Phase::Failed(Error::InputOutput(text));
                    },
                    _ => {},
                }
            }
        }
        self.action()
    }
}

/// Where the start stands after `events` came in, in that order.
pub open spec fn run_start(startup: Startup, events: Seq<StartEvent>) -> Startup
    decreases events.len(),
{
    if events.len() == 0 {
        startup
    } else {
        advance(run_start(startup, events.drop_last()), events.last())
    }
}

/// A run of `count` deliveries.
pub open spec fn deliveries(count: nat) -> Seq<StartEvent> {
    Seq::new(count, |i: int| StartEvent::Delivered)
}

/// The listed processes named `target`, in the order of the listing.
pub open spec fn named_processes(processes: Seq<SystemProcess>, target: Seq<char>) -> Seq<
    SystemProcess,
> {
    processes.filter(|process: SystemProcess| bears_name(process, target))
}

/// The snapshot holds exactly one event for each listed process named
/// `target`, and no other: its events are the creation events of those
/// processes, one for one and in the order of the listing. So each event is
/// that of a listed process of that name, and each listed process of that
/// name has its event.
pub proof fn lemma_one_event_per_named_process(processes: Seq<SystemProcess>, target: Seq<char>)
    ensures
        snapshot_events(processes, target) == named_processes(processes, target).map_values(
            |process: SystemProcess| OsEvent::ProcessCreation(process.pid),
        ),
        forall|k: int|
            #![trigger snapshot_events(processes, target)[k]]
            0 <= k < snapshot_events(processes, target).len() ==> exists|j: int|
                0 <= j < processes.len() && bears_name(#[trigger] processes[j], target)
                    && OsEvent::ProcessCreation(processes[j].pid) == snapshot_events(
                    processes,
                    target,
                )[k],
        forall|j: int|
            0 <= j < processes.len() && bears_name(#[trigger] processes[j], target)
                ==> snapshot_events(processes, target).contains(
                OsEvent::ProcessCreation(processes[j].pid),
            ),
    decreases processes.len(),
{
    reveal(Seq::filter);
    let events = snapshot_events(processes, target);
    let named = named_processes(processes, target);
    let announce = |process: SystemProcess| OsEvent::ProcessCreation(process.pid);
    if processes.len() == 0 {
        assert(events =~= named.map_values(announce));
    } else {
        let rest = processes.drop_last();
        let last = processes.last();
        lemma_one_event_per_named_process(rest, target);
        let rest_events = snapshot_events(rest, target);
        assert(events =~= named.map_values(announce));
        assert forall|k: int| #![trigger events[k]] 0 <= k < events.len() implies exists|j: int|
            0 <= j < processes.len() && bears_name(#[trigger] processes[j], target)
                && OsEvent::ProcessCreation(processes[j].pid) == events[k] by {
            if k < rest_events.len() {
                assert(events[k] == rest_events[k]);
                let j = choose|j: int|
                    0 <= j < rest.len() && bears_name(#[trigger] rest[j], target)
                        && OsEvent::ProcessCreation(rest[j].pid) == rest_events[k];
                assert(processes[j] == rest[j]);
            } else {
                assert(bears_name(last, target));
                assert(events[k] == OsEvent::ProcessCreation(processes[processes.len() - 1].pid));
            }
        }
        assert forall|j: int|
            0 <= j < processes.len() && bears_name(
                #[trigger] processes[j],
                target,
            ) implies events.contains(OsEvent::ProcessCreation(processes[j].pid)) by {
            if j < rest.len() {
                assert(processes[j] == rest[j]);
                let event = OsEvent::ProcessCreation(rest[j].pid);
                assert(rest_events.contains(event));
                let k = choose|k: int| 0 <= k < rest_events.len() && rest_events[k] == event;
                assert(events[k] == event);
            } else {
                assert(events[events.len() - 1] == OsEvent::ProcessCreation(processes[j].pid));
            }
        }
    }
}

/// While the channel takes what it is sent, the start neither skips an event
/// of its backlog nor sends one twice: after `count` deliveries it has sent
/// the first `count` events and asks for the next, or for the worker once
/// none is left.
proof fn lemma_deliveries(backlog: Seq<OsEvent>, count: nat)
    requires
        count <= backlog.len(),
    ensures
        run_start(Startup { backlog, sent: 0, phase: Phase::Starting }, deliveries(count)) == (
        Startup { backlog, sent: count, phase: Phase::Starting }),
    decreases count,
{
    if count > 0 {
        lemma_deliveries(backlog, (count - 1) as nat);
        assert(deliveries(count).drop_last() =~= deliveries((count - 1) as nat));
    }
}

/// The snapshot is delivered whole before live tracking begins. While the
/// channel takes what it is sent, the start sends the events of the snapshot
/// one after the other, in the order of the listing; it asks for the worker
/// when the last of them is delivered, and not before; and once the worker
/// runs it reports success.
pub proof fn lemma_snapshot_is_delivered_first(
    processes: Seq<SystemProcess>,
    target: Seq<char>,
    count: nat,
)
    requires
        count <= snapshot_events(processes, target).len(),
    ensures
        ({
            let events = snapshot_events(processes, target);
            let start = Startup { backlog: events, sent: 0, phase: Phase::Starting };
            let reached = run_start(start, deliveries(count));
            &&& reached == (Startup { backlog: events, sent: count, phase: Phase::Starting })
            &&& count < events.len() ==> pending(reached) == StartAction::Send(events[count as int])
            &&& count == events.len() ==> pending(reached) == StartAction::Spawn
            &&& count == events.len() ==> pending(advance(reached, StartEvent::WorkerSpawned))
                == StartAction::Finish(Ok(()))
        }),
{
    lemma_deliveries(snapshot_events(processes, target), count);
}

/// An event that waits to be sent is never dropped: until the channel takes
/// it or is found closed, the start stands still and asks for the same event
/// to be sent, whatever else is reported in between.
pub proof fn lemma_waiting_event_is_not_dropped(startup: Startup, events: Seq<StartEvent>)
    requires
        startup.phase is Starting,
        startup.sent < startup.backlog.len(),
        forall|i: int|
            0 <= i < events.len() ==> !(#[trigger] events[i] is Delivered) && !(events[i]
                is ChannelClosed),
    ensures
        run_start(startup, events) == startup,
        pending(run_start(startup, events)) == StartAction::Send(
            startup.backlog[startup.sent as int],
        ),
    decreases events.len(),
{
    if events.len() > 0 {
        let rest = events.drop_last();
        assert forall|i: int| 0 <= i < rest.len() implies !(#[trigger] rest[i] is Delivered) && !(
        rest[i] is ChannelClosed) by {
            assert(rest[i] == events[i]);
        }
        lemma_waiting_event_is_not_dropped(startup, rest);
        assert(!(events[events.len() - 1] is Delivered));
    }
}

/// A failure of the start is reported at once and with its cause. If the
/// consumer closes the channel while the snapshot is being delivered, the
/// start fails with the event that was not taken, and the worker is never
/// asked for. If the worker cannot be created once the snapshot is delivered,
/// the start fails with the message of the operating system.
pub proof fn lemma_start_failures_are_reported(
    processes: Seq<SystemProcess>,
    target: Seq<char>,
    count: nat,
    text: String,
)
    requires
        count <= snapshot_events(processes, target).len(),
    ensures
        ({
            let events = snapshot_events(processes, target);
            let start = Startup { backlog: events, sent: 0, phase: Phase::Starting };
            let reached = run_start(start, deliveries(count));
            &&& count < events.len() ==> pending(advance(reached, StartEvent::ChannelClosed))
                == StartAction::Finish(Err(Error::TokioSyncMpscSend(events[count as int])))
            &&& count == events.len() ==> pending(advance(reached, StartEvent::SpawnFailed(text)))
                == StartAction::Finish(Err(Error::InputOutput(text)))
        }),
{
    lemma_deliveries(snapshot_events(processes, target), count);
}

/// A start that has failed stays failed, and one that is complete stays
/// complete, whatever is reported afterwards: a failure of the start is
/// final.
pub proof fn lemma_start_is_settled(startup: Startup, events: Seq<StartEvent>)
    requires
        !(startup.phase is Starting),
    ensures
        run_start(startup, events) == startup,
    decreases events.len(),
{
    if events.len() > 0 {
        lemma_start_is_settled(startup, events.drop_last());
    }
}

} // verus!
