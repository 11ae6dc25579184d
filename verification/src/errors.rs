use crate::tracker::OsEvent;
use vstd::prelude::*;
use vstd::string::*;

verus! {

/// What can go wrong while the tracker starts or runs.
#[derive(Debug, PartialEq, Eq)]
pub enum Error {
    /// The worker thread or its scheduler could not be created. Holds the
    /// message of the operating system.
    InputOutput(String),
    /// The consumer has closed the channel. Holds the event that was not
    /// delivered.
    TokioSyncMpscSend(OsEvent),
    /// The connection to the instrumentation service, or a subscription on
    /// it, failed. Holds the message of the service.
    WMI(String),
}

impl Error {
    /// The text that describes the error to a reader of the log.
    pub open spec fn message_spec(&self) -> Seq<char> {
        match self {
            Error::InputOutput(text) => text@,
            Error::TokioSyncMpscSend(_) => "channel closed"@,
            Error::WMI(text) => text@,
        }
    }

    /// The text that describes the error to a reader of the log: the message
    /// that the error holds, or `channel closed` for an undelivered event.
    pub fn message(&self) -> (text: String)
        ensures
            text@ == self.message_spec(),
    {
        match self {
            Error::InputOutput(text) => text.clone(),
            Error::TokioSyncMpscSend(_) => String::from_str("channel closed"),
            Error::WMI(text) => text.clone(),
        }
    }
}

impl Clone for Error {
    fn clone(&self) -> (copy: Self)
        ensures
            copy == *self,
    {
        match self {
            Error::InputOutput(text) => Error::InputOutput(text.clone()),
            Error::TokioSyncMpscSend(event) => Error::TokioSyncMpscSend(*event),
            Error::WMI(text) => Error::WMI(text.clone()),
        }
    }
}

} // verus!
