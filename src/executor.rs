//! Cooperative cancellation of one asynchronous unit of work. The work and
//! the cancellation signal race; whichever is observed first settles the
//! run, and every later event is ignored.
use vstd::prelude::*;

verus! {

/// tokio's `oneshot::Sender`, the cancellation handle of a run, carried as
/// an opaque value.
#[verifier::external_type_specification]
#[verifier::external_body]
#[verifier::reject_recursive_types(T)]
pub struct ExSender<T>(tokio::sync::oneshot::Sender<T>);

/// Relies on tokio's `oneshot::Sender::send`: delivers the cancellation
/// signal to the receiving run, if it still listens; the sender is consumed.
#[verifier::external_body]
pub(crate) fn signal_cancel(handle: tokio::sync::oneshot::Sender<()>) {
    let _ = handle.send(());
}

/// How a cancellable run ended.
#[derive(Debug, Clone)]
pub enum TaskResult<T> {
    Completed(T),
    Cancelled,
}

/// The outcome after an event that would settle a run with `event`: the
/// first event settles it, later ones leave it as it was.
pub open spec fn settle<T>(outcome: Option<TaskResult<T>>, event: TaskResult<T>) -> Option<TaskResult<T>> {
    if outcome.is_none() {
        Some(event)
    } else {
        outcome
    }
}

/// One cancellable run: unsettled until its work completes or a
/// cancellation is observed.
#[derive(Debug)]
pub struct CancellableTask<T> {
    outcome: Option<TaskResult<T>>,
}

impl<T> CancellableTask<T> {
    pub closed spec fn outcome_spec(&self) -> Option<TaskResult<T>> {
        self.outcome
    }

    /// A run that has not settled yet.
    pub fn new() -> (r: Self)
        ensures
            r.outcome_spec() == None::<TaskResult<T>>,
    {
        CancellableTask { outcome: None }
    }

    /// The work finished with `value`. Settles the run as completed if it
    /// had not settled; otherwise the value is dropped. Returns whether it
    /// settled the run.
    pub fn complete(&mut self, value: T) -> (r: bool)
        ensures
            r == old(self).outcome_spec().is_none(),
            final(self).outcome_spec() == settle(old(self).outcome_spec(), TaskResult::Completed(value)),
    {
        if self.outcome.is_none() {
            self.outcome = Some(TaskResult::Completed(value));
            true
        } else {
            false
        }
    }

    /// The cancellation signal was observed. Settles the run as cancelled
    /// if it had not settled; otherwise it has no effect. Returns whether it
    /// settled the run.
    pub fn cancel(&mut self) -> (r: bool)
        ensures
            r == old(self).outcome_spec().is_none(),
            final(self).outcome_spec() == settle(old(self).outcome_spec(), TaskResult::<T>::Cancelled),
    {
        if self.outcome.is_none() {
            self.outcome = Some(TaskResult::Cancelled);
            true
        } else {
            false
        }
    }

    pub fn is_settled(&self) -> (r: bool)
        ensures
            r == self.outcome_spec().is_some(),
    {
        self.outcome.is_some()
    }

    /// The outcome of the run, once settled.
    pub fn into_outcome(self) -> (r: Option<TaskResult<T>>)
        ensures
            r == self.outcome_spec(),
    {
        self.outcome
    }
}

/// A run settles to exactly one outcome: a settled run stays as it is
/// whatever event follows; in particular, cancelling after the work
/// completed with `value` leaves `Completed(value)`, and a completion after
/// a cancellation leaves `Cancelled`.
pub proof fn lemma_settles_once<T>(outcome: Option<TaskResult<T>>, first: TaskResult<T>, later: TaskResult<T>, value: T)
    ensures
        settle(settle(outcome, first), later) == settle(outcome, first),
        settle(settle(None, TaskResult::Completed(value)), TaskResult::Cancelled) == Some(TaskResult::Completed(value)),
        settle(settle(None, TaskResult::Cancelled), TaskResult::Completed(value)) == Some(TaskResult::<T>::Cancelled),
{
}

} // verus!
