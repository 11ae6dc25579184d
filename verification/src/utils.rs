use crate::errors::Error;
use vstd::prelude::*;
use vstd::string::*;

verus! {

/// The states of the supervisor of a worker.
#[derive(Clone, Copy, Debug, PartialEq, Eq, Structural)]
pub enum SupervisorState {
    /// The supervisor has not been started.
    Idle,
    /// An attempt is under way.
    Attempting,
    /// The supervisor has given up. No operation leads here: there is no way
    /// to stop a supervisor, and no number of failures makes it stop.
    Terminated,
}

/// What the worker is to do next.
#[derive(Debug, PartialEq, Eq)]
pub enum SupervisorAction {
    /// Write the line, if there is one, to the log as an error, then make an
    /// attempt from scratch, without delay.
    Attempt(Option<String>),
    /// Nothing.
    Nothing,
}

/// A `SupervisorAction`, as contracts see it.
pub enum Decision {
    Attempt(Option<Seq<char>>),
    Nothing,
}

impl View for SupervisorAction {
    type V = Decision;

    open spec fn view(&self) -> Decision {
        match self {
            SupervisorAction::Attempt(Some(line)) => Decision::Attempt(Some(line@)),
            SupervisorAction::Attempt(None) => Decision::Attempt(None),
            SupervisorAction::Nothing => Decision::Nothing,
        }
    }
}

/// A supervisor, as contracts see it.
pub struct Supervisor {
    /// The name under which the worker's failures are logged.
    pub name: Seq<char>,
    pub state: SupervisorState,
}

/// The supervisor of a worker that runs on a thread of its own: it has the
/// worker make one attempt after another, for as long as the thread lives.
pub struct LocalSpawner {
    name: String,
    state: SupervisorState,
}

impl View for LocalSpawner {
    type V = Supervisor;

    closed spec fn view(&self) -> Supervisor {
        Supervisor { name: self.name@, state: self.state }
    }
}

/// The line that reports a failed attempt of the worker called `name`.
pub open spec fn log_line(name: Seq<char>, error: Error) -> Seq<char> {
    name + ": "@ + error.message_spec()
}

/// What is logged about the end of an attempt: a line for a failure, nothing
/// for an attempt that ended without one.
pub open spec fn report(name: Seq<char>, outcome: Result<(), Error>) -> Option<Seq<char>> {
    match outcome {
        Ok(_) => None,
        Err(error) => Some(log_line(name, error)),
    }
}

/// The start of a supervisor: an idle one begins its first attempt, and any
/// other is left as it is.
pub open spec fn begin(supervisor: Supervisor) -> (Supervisor, Decision) {
    match supervisor.state {
        SupervisorState::Idle => (
            Supervisor { name: supervisor.name, state: SupervisorState::Attempting },
            Decision::Attempt(None),
        ),
        _ => (supervisor, Decision::Nothing),
    }
}

/// What a supervisor does when an attempt is over. While it is attempting it
/// begins the next attempt at once, however the last one ended and however
/// many have failed before, and has a failure logged. A supervisor that is not
/// attempting lets the outcome pass.
pub open spec fn decide(supervisor: Supervisor, outcome: Result<(), Error>) -> (
    Supervisor,
    Decision,
) {
    match supervisor.state {
        SupervisorState::Attempting => (
            supervisor,
            Decision::Attempt(report(supervisor.name, outcome)),
        ),
        _ => (supervisor, Decision::Nothing),
    }
}

impl LocalSpawner {
    /// An idle supervisor for the worker called `name`.
    pub fn new(name: &str) -> (spawner: Self)
        ensures
            spawner@ == (Supervisor { name: name@, state: SupervisorState::Idle }),
    {
        LocalSpawner { name: String::from_str(name), state: SupervisorState::Idle }
    }

    /// The state of the supervisor.
    pub fn state(&self) -> (state: SupervisorState)
        ensures
            state == self@.state,
    {
        self.state
    }

    /// Starts the supervisor, on the worker's thread.
    pub fn start(&mut self) -> (action: SupervisorAction)
        ensures
            (final(self)@, action@) == begin(old(self)@),
    {
        match self.state {
            SupervisorState::Idle => {
                self.state = SupervisorState::Attempting;
                SupervisorAction::Attempt(None)
            },
            _ => SupervisorAction::Nothing,
        }
    }

    /// Takes the outcome of the attempt that is over, and says what the
    /// worker is to do next.
    pub fn step(&mut self, outcome: Result<(), Error>) -> (action: SupervisorAction)
        ensures
            (final(self)@, action@) == decide(old(self)@, outcome),
    {
        match self.state {
            SupervisorState::Attempting => match outcome {
                Ok(_) => SupervisorAction::Attempt(None),
                Err(error) => {
                    let mut line = self.name.clone();
                    line.append(": ");
                    line.append(error.message().as_str());
                    SupervisorAction::Attempt(Some(line))
                },
            },
            _ => SupervisorAction::Nothing,
        }
    }
}

/// Where a supervisor stands, and what it decided about each outcome, after
/// the attempts ended with `outcomes`, in that order.
pub open spec fn supervise(supervisor: Supervisor, outcomes: Seq<Result<(), Error>>) -> (
    Supervisor,
    Seq<Decision>,
)
    decreases outcomes.len(),
{
    if outcomes.len() == 0 {
        (supervisor, Seq::empty())
    } else {
        let (before, decisions) = supervise(supervisor, outcomes.drop_last());
        let (after, decision) = decide(before, outcomes.last());
        (after, decisions.push(decision))
    }
}

/// How many attempts `decisions` ask for.
pub open spec fn attempts(decisions: Seq<Decision>) -> nat {
    decisions.filter(|decision: Decision| decision is Attempt).len()
}

/// A started supervisor never gives up. Whatever the outcomes of its
/// attempts, and however many of them fail in a row, it answers each with a
/// new attempt, made at once, and has each failure logged under the worker's
/// name: after `n` outcomes it has asked for `n + 1` attempts and is still
/// attempting. It is never terminated, and no count of attempts or of events
/// runs out.
pub proof fn lemma_supervisor_never_gives_up(name: Seq<char>, outcomes: Seq<Result<(), Error>>)
    ensures
        ({
            let idle = Supervisor { name, state: SupervisorState::Idle };
            let (started, first) = begin(idle);
            let (reached, decisions) = supervise(started, outcomes);
            &&& first == Decision::Attempt(None)
            &&& reached == (Supervisor { name, state: SupervisorState::Attempting })
            &&& decisions.len() == outcomes.len()
            &&& forall|i: int|
                0 <= i < outcomes.len() ==> #[trigger] decisions[i] == Decision::Attempt(
                    report(name, outcomes[i]),
                )
            &&& attempts(seq![first] + decisions) == outcomes.len() + 1
        }),
    decreases outcomes.len(),
{
    reveal(Seq::filter);
    let idle = Supervisor { name, state: SupervisorState::Idle };
    let (started, first) = begin(idle);
    let (reached, decisions) = supervise(started, outcomes);
    let counted = |decision: Decision| decision is Attempt;
    if outcomes.len() == 0 {
        assert(seq![first] + decisions =~= seq![first]);
        assert(seq![first].drop_last() =~= Seq::<Decision>::empty());
        assert(seq![first].drop_last().filter(counted).len() == 0);
    } else {
        lemma_supervisor_never_gives_up(name, outcomes.drop_last());
        let earlier = supervise(started, outcomes.drop_last()).1;
        assert((seq![first] + decisions).drop_last() =~= seq![first] + earlier);
    }
}

} // verus!
