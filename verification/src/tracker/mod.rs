use vstd::prelude::*;

pub mod process;

verus! {

/// A change in the life of a process of interest. The number is the
/// identifier that the operating system gave the process.
#[derive(Clone, Copy, Debug, PartialEq, Eq, Structural)]
pub enum OsEvent {
    /// The process is running: it was found at the start, or it has started
    /// since.
    ProcessCreation(u32),
    /// The process has exited.
    ProcessDeletion(u32),
}

} // verus!
