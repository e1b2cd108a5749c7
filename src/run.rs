//! How a run ends, from what the coordinator received and how its workers
//! ended.
use vstd::prelude::*;

verus! {

/// The end of a run.
#[derive(Debug, PartialEq, Eq, Clone, Copy)]
pub enum Outcome<R> {
    /// A worker's result was received.
    Found(R),
    /// Nothing was received: the wait timed out, or every worker stopped
    /// without a result.
    NoResult,
    /// A worker ended abnormally. This overrides any result received, so
    /// that a crash is never hidden behind a success.
    WorkerPanicked,
}

/// Settles a run once every worker has been joined: a worker that panicked
/// makes the run fail, whatever was received; otherwise the run yields what
/// was received, if anything.
pub fn settle<R>(received: Option<R>, worker_panicked: bool) -> (o: Outcome<R>)
    ensures
        worker_panicked ==> o is WorkerPanicked,
        !worker_panicked ==> match received {
            Some(v) => o == Outcome::Found(v),
            None => o is NoResult,
        },
{
    if worker_panicked {
        Outcome::WorkerPanicked
    } else {
        match received {
            Some(v) => Outcome::Found(v),
            None => Outcome::NoResult,
        }
    }
}

} // verus!
