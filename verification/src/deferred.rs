//! The states of futures and promises, and the decisions taken on them.
//! A future runs a computation elsewhere and ends done, failed or
//! cancelled; a promise is a one-shot box. Waiting and waking are the
//! caller's; here are the transitions and what a `deref` yields.

use vstd::prelude::*;

verus! {

/// Where a future stands.
pub enum FutureState<V, E> {
    Pending,
    Done(V),
    Failed(E),
    Cancelled,
}

/// What a `deref` of a future does in a given state.
pub enum DerefOutcome<V, E> {
    /// Not finished: wait and look again.
    Wait,
    /// Finished with this value.
    Value(V),
    /// Finished by raising this error.
    Raise(E),
    /// Cancelled: raise an illegal-state error.
    CancelledError,
}

/// The state after a cancellation request: a pending future becomes
/// cancelled; any other state stays.
pub open spec fn spec_cancel<V, E>(s: FutureState<V, E>) -> FutureState<V, E> {
    match s {
        FutureState::Pending => FutureState::Cancelled,
        _ => s,
    }
}

/// The state after the computation finished with `outcome`: the outcome
/// is recorded unless the future was cancelled meanwhile.
pub open spec fn spec_complete<V, E>(s: FutureState<V, E>, outcome: Result<V, E>) -> FutureState<V, E> {
    match s {
        FutureState::Cancelled => s,
        _ => match outcome {
            Ok(v) => FutureState::Done(v),
            Err(e) => FutureState::Failed(e),
        },
    }
}

impl<V: Clone, E: Clone> FutureState<V, E> {
    /// A future that has not finished.
    pub fn new() -> (s: Self)
        ensures
            s is Pending,
    {
        FutureState::Pending
    }

    /// Has the future reached any final state?
    pub fn is_done(&self) -> (r: bool)
        ensures
            r == !(self is Pending),
    {
        match self {
            FutureState::Pending => false,
            _ => true,
        }
    }

    /// Was the future cancelled?
    pub fn is_cancelled(&self) -> (r: bool)
        ensures
            r == (self is Cancelled),
    {
        match self {
            FutureState::Cancelled => true,
            _ => false,
        }
    }

    /// Should the computation still be started? Not once cancelled.
    pub fn should_run(&self) -> (r: bool)
        ensures
            r == !(self is Cancelled),
    {
        !self.is_cancelled()
    }

    /// Cancel the future; `true` when that took effect (it was pending).
    pub fn try_cancel(&mut self) -> (r: bool)
        ensures
            r == (*old(self) is Pending),
            *final(self) == spec_cancel(*old(self)),
    {
        match self {
            FutureState::Pending => {
                *self = FutureState::Cancelled;
                true
            },
            _ => false,
        }
    }

    /// Record how the computation ended; `false` (and no change) when the
    /// future was cancelled before it ended.
    pub fn complete(&mut self, outcome: Result<V, E>) -> (r: bool)
        ensures
            r == !(*old(self) is Cancelled),
            *final(self) == spec_complete(*old(self), outcome),
    {
        if self.is_cancelled() {
            return false;
        }
        *self = match outcome {
            Ok(v) => FutureState::Done(v),
            Err(e) => FutureState::Failed(e),
        };
        true
    }

    /// What a `deref` does now: wait while pending, else hand out (a clone
    /// of) the value, raise (a clone of) the error, or report the
    /// cancellation.
    pub fn deref_outcome(&self) -> (r: DerefOutcome<V, E>)
        ensures
            match *self {
                FutureState::Pending => r is Wait,
                FutureState::Done(v) => r matches DerefOutcome::Value(x) && cloned(v, x),
                FutureState::Failed(e) => r matches DerefOutcome::Raise(x) && cloned(e, x),
                FutureState::Cancelled => r is CancelledError,
            },
    {
        match self {
            FutureState::Pending => DerefOutcome::Wait,
            FutureState::Done(v) => DerefOutcome::Value(v.clone()),
            FutureState::Failed(e) => DerefOutcome::Raise(e.clone()),
            FutureState::Cancelled => DerefOutcome::CancelledError,
        }
    }

    /// The printed form, naming the state.
    pub fn repr(&self) -> (r: String)
        ensures
            r@ == match *self {
                FutureState::Pending => "#<Future :pending>"@,
                FutureState::Done(_) => "#<Future :done>"@,
                FutureState::Failed(_) => "#<Future :failed>"@,
                FutureState::Cancelled => "#<Future :cancelled>"@,
            },
    {
        match self {
            FutureState::Pending => "#<Future :pending>".to_string(),
            FutureState::Done(_) => "#<Future :done>".to_string(),
            FutureState::Failed(_) => "#<Future :failed>".to_string(),
            FutureState::Cancelled => "#<Future :cancelled>".to_string(),
        }
    }
}

/// Once a future has finished or been cancelled, neither a cancellation
/// nor a late result changes it; a cancelled future stays cancelled.
pub proof fn law_final_states_stay<V, E>(s: FutureState<V, E>, outcome: Result<V, E>)
    requires
        !(s is Pending),
    ensures
        spec_cancel(s) == s,
        s is Cancelled ==> spec_complete(s, outcome) == s,
{
}

/// A cancellation before the result arrives wins: the result is dropped.
pub proof fn law_cancel_then_complete<V, E>(outcome: Result<V, E>)
    ensures
        spec_complete(spec_cancel(FutureState::<V, E>::Pending), outcome) is Cancelled,
{
}

/// A promise: empty until delivered, then holding its value for good.
pub struct PromiseState<V>(pub Option<V>);

/// The contents after delivering `v`: the first delivery wins.
pub open spec fn spec_deliver<V>(s: Option<V>, v: V) -> Option<V> {
    match s {
        Some(_) => s,
        None => Some(v),
    }
}

impl<V: Clone> PromiseState<V> {
    /// An undelivered promise.
    pub fn new() -> (p: Self)
        ensures
            p.0 is None,
    {
        PromiseState(None)
    }

    /// Deliver `v`; `true` when it took effect (nothing was delivered yet).
    pub fn try_deliver(&mut self, v: V) -> (r: bool)
        ensures
            r == (old(self).0 is None),
            final(self).0 == spec_deliver(old(self).0, v),
    {
        if self.0.is_some() {
            return false;
        }
        self.0 = Some(v);
        true
    }

    /// Has a value been delivered?
    pub fn is_realized(&self) -> (r: bool)
        ensures
            r == (self.0 is Some),
    {
        self.0.is_some()
    }

    /// A clone of the delivered value, or `None` while the caller must wait.
    pub fn value(&self) -> (r: Option<V>)
        ensures
            match self.0 {
                Some(v) => r matches Some(x) && cloned(v, x),
                None => r is None,
            },
    {
        match &self.0 {
            Some(v) => Some(v.clone()),
            None => None,
        }
    }

    /// The printed form, naming the state.
    pub fn repr(&self) -> (r: String)
        ensures
            r@ == if self.0 is Some {
                "#<Promise :delivered>"@
            } else {
                "#<Promise :pending>"@
            },
    {
        if self.0.is_some() {
            "#<Promise :delivered>".to_string()
        } else {
            "#<Promise :pending>".to_string()
        }
    }
}

/// Delivery is idempotent: a second delivery leaves the first value.
pub proof fn law_first_delivery_wins<V>(s: Option<V>, v1: V, v2: V)
    ensures
        spec_deliver(spec_deliver(s, v1), v2) == spec_deliver(s, v1),
        s is None ==> spec_deliver(spec_deliver(s, v1), v2) == Some(v1),
{
}

} // verus!
