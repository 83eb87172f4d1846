//! Aggregation of the outputs of several futures.

use std::collections::VecDeque;
use vstd::prelude::*;

use super::broadcaster::BroadcastError;
use crate::channel::SendError;

verus! {

/// State of completion of a [`BroadcastFuture`].
#[derive(Clone, Copy, Debug, PartialEq, Eq, Structural)]
pub enum FutureState {
    /// Some sender futures have not been polled yet.
    Uninit,
    /// All sender futures have been polled at least once.
    Pending,
    /// The outcome of the broadcast is known.
    Completed,
}

/// What a [`BroadcastFuture`] waits for.
#[derive(Clone, Copy, Debug, PartialEq, Eq, Structural)]
pub enum Awaiting {
    /// To be polled.
    Caller,
    /// The registration of the waker.
    Waker,
    /// The result of polling a sender future.
    Future(usize),
}

/// What the caller must do.
#[derive(Clone, Copy, Debug)]
pub enum BroadcastAction {
    /// Poll the sender future with the given index, using a waker that calls
    /// [`BroadcastFuture::wake`] with the same index, and report to
    /// [`BroadcastFuture::polled`].
    PollFuture(usize),
    /// Register the waker of the task that polls the broadcast and report to
    /// [`BroadcastFuture::registered`].
    RegisterWaker,
    /// Return and poll again once awaken.
    Pending,
    /// Return with the given result.
    Ready(Result<(), BroadcastError>),
}

/// The number of missing outputs.
pub open spec fn missing<R>(outputs: Seq<Option<R>>) -> nat
    decreases outputs.len(),
{
    if outputs.len() == 0 {
        0
    } else {
        missing(outputs.drop_last()) + if outputs.last() is None {
            1nat
        } else {
            0
        }
    }
}

/// The position of the first task which output is missing, if any.
pub open spec fn first_missing<R>(outputs: Seq<Option<R>>, tasks: Seq<usize>) -> Option<int>
    decreases tasks.len(),
{
    if tasks.len() == 0 {
        None
    } else if outputs[tasks[0] as int] is None {
        Some(0)
    } else {
        match first_missing(outputs, tasks.drop_first()) {
            Some(i) => Some(i + 1),
            None => None,
        }
    }
}

proof fn lemma_first_missing<R>(outputs: Seq<Option<R>>, tasks: Seq<usize>)
    ensures
        match first_missing(outputs, tasks) {
            Some(k) => {
                &&& 0 <= k < tasks.len()
                &&& outputs[tasks[k] as int] is None
                &&& forall|j: int| 0 <= j < k ==> outputs[#[trigger] tasks[j] as int] is Some
            },
            None => forall|j: int|
                0 <= j < tasks.len() ==> outputs[#[trigger] tasks[j] as int] is Some,
        },
    decreases tasks.len(),
{
    if tasks.len() > 0 && outputs[tasks[0] as int] is Some {
        let rest = tasks.drop_first();
        lemma_first_missing(outputs, rest);
        let end = match first_missing(outputs, rest) {
            Some(k) => k,
            None => rest.len() as int,
        };
        assert forall|j: int| 0 <= j < end + 1 implies outputs[#[trigger] tasks[j] as int] is Some by {
            if j > 0 {
                assert(rest[j - 1] == tasks[j]);
            }
        }
    }
}

proof fn lemma_missing_update<R>(outputs: Seq<Option<R>>, i: int, output: R)
    requires
        0 <= i < outputs.len(),
        outputs[i] is None,
    ensures
        missing(outputs) == missing(outputs.update(i, Some(output))) + 1,
    decreases outputs.len(),
{
    let updated = outputs.update(i, Some(output));
    if i == outputs.len() - 1 {
        assert(updated.drop_last() =~= outputs.drop_last());
    } else {
        lemma_missing_update(outputs.drop_last(), i, output);
        assert(updated.drop_last() =~= outputs.drop_last().update(i, Some(output)));
    }
}

proof fn lemma_missing<R>(outputs: Seq<Option<R>>)
    ensures
        missing(outputs) <= outputs.len(),
        missing(outputs) == 0 <==> forall|i: int|
            0 <= i < outputs.len() ==> (#[trigger] outputs[i]) is Some,
        (forall|i: int| 0 <= i < outputs.len() ==> (#[trigger] outputs[i]) is None)
            ==> missing(outputs) == outputs.len(),
    decreases outputs.len(),
{
    if outputs.len() > 0 {
        let rest = outputs.drop_last();
        lemma_missing(rest);
        assert(outputs.last() == outputs[outputs.len() - 1]);
        if missing(outputs) == 0 {
            assert forall|i: int| 0 <= i < outputs.len() implies (
            #[trigger] outputs[i]) is Some by {
                if i < rest.len() {
                    assert(rest[i] == outputs[i]);
                }
            }
        }
    }
}

/// A future aggregating the outputs of a collection of sender futures.
///
/// The idea is to join all sender futures as efficiently as possible, meaning:
///
/// - the sender futures are polled simultaneously rather than waiting for their
///   completion in a sequential manner,
/// - the happy path (all futures immediately ready) is very fast.
pub struct BroadcastFuture<R> {
    /// Outputs of the sender futures.
    outputs: Vec<Option<R>>,
    /// The total count of futures that have not yet been polled to completion.
    pending_futures_count: usize,
    /// State of completion of the future.
    state: FutureState,
    /// The tasks that were awaken, in order.
    scheduled: VecDeque<usize>,
    /// What the future waits for.
    awaiting: Awaiting,
}

impl<R> View for BroadcastFuture<R> {
    type V = Seq<Option<R>>;

    /// The outputs of the sender futures.
    closed spec fn view(&self) -> Seq<Option<R>> {
        self.outputs@
    }
}

impl<R> BroadcastFuture<R> {
    /// State of completion of the future.
    pub closed spec fn state(self) -> FutureState {
        self.state
    }

    /// The tasks that were awaken and not polled yet, in order.
    pub closed spec fn awaken(self) -> Seq<usize> {
        self.scheduled@
    }

    /// What the future waits for.
    pub closed spec fn waits_for(self) -> Awaiting {
        self.awaiting
    }

    /// The invariant of the future.
    pub closed spec fn wf(self) -> bool {
        &&& self.pending_futures_count == missing(self@)
        &&& forall|i: int| 0 <= i < self.scheduled@.len() ==> (#[trigger] self.scheduled@[i])
            < self@.len()
        &&& self.awaiting matches Awaiting::Future(i) ==> i < self@.len() && self@[i as int] is None
        &&& self.state is Uninit ==> {
            &&& !(self.awaiting is Waker)
            &&& self.awaiting is Caller ==> forall|j: int|
                0 <= j < self@.len() ==> (#[trigger] self@[j]) is None
            &&& self.awaiting matches Awaiting::Future(i) ==> forall|j: int|
                i <= j < self@.len() ==> (#[trigger] self@[j]) is None
        }
        &&& self.state is Completed ==> self.awaiting is Caller
        &&& self.state is Pending && !(self.awaiting is Future) ==> missing(self@) > 0
    }

    /// Whether all sender futures have completed successfully.
    pub open spec fn succeeded(self) -> bool {
        self.state() is Completed && forall|i: int|
            0 <= i < self@.len() ==> (#[trigger] self@[i]) is Some
    }

    /// Creates a new `BroadcastFuture` that aggregates the specified number of
    /// futures.
    pub fn new(count: usize) -> (broadcast: Self)
        ensures
            broadcast.wf(),
            broadcast@.len() == count,
            forall|i: int| 0 <= i < count ==> (#[trigger] broadcast@[i]) is None,
            broadcast.state() is Uninit,
            broadcast.awaken() == Seq::<usize>::empty(),
            broadcast.waits_for() is Caller,
    {
        let mut outputs: Vec<Option<R>> = Vec::new();
        let mut i: usize = 0;
        while i < count
            invariant
                i <= count,
                outputs@.len() == i,
                forall|j: int| 0 <= j < i ==> (#[trigger] outputs@[j]) is None,
            decreases count - i,
        {
            outputs.push(None);
            i = i + 1;
        }
        proof {
            lemma_missing(outputs@);
        }
        BroadcastFuture {
            outputs,
            pending_futures_count: count,
            state: FutureState::Uninit,
            scheduled: VecDeque::new(),
            awaiting: Awaiting::Caller,
        }
    }

    /// Takes note that a task was awaken.
    ///
    /// Returns `true` if the task that polls the broadcast must be awaken.
    pub fn wake(&mut self, index: usize) -> (notify: bool)
        requires
            old(self).wf(),
            index < old(self)@.len(),
        ensures
            final(self).wf(),
            final(self)@ == old(self)@,
            final(self).state() == old(self).state(),
            final(self).waits_for() == old(self).waits_for(),
            final(self).awaken() == if old(self).awaken().contains(index) {
                old(self).awaken()
            } else {
                old(self).awaken().push(index)
            },
            notify == (old(self).awaken().len() == 0),
    {
        let count: usize = self.scheduled.len();
        let mut i: usize = 0;
        while i < count
            invariant
                count == self.scheduled@.len(),
                i <= count,
                *self == *old(self),
                self.wf(),
                forall|j: int| 0 <= j < i ==> (#[trigger] self.scheduled@[j]) != index,
            decreases count - i,
        {
            if self.scheduled[i] == index {
                assert(self.scheduled@.contains(index));
                return false;
            }
            i = i + 1;
        }
        self.scheduled.push_back(index);
        count == 0
    }

    /// What happens when the tasks that were awaken are examined.
    pub open spec fn proceeds(before: Self, action: BroadcastAction, after: Self) -> bool {
        let next = first_missing(before@, before.awaken());
        &&& after@ == before@
        &&& if missing(before@) == 0 {
            // All outputs are available.
            &&& action matches BroadcastAction::Ready(result) && result is Ok
            &&& after.state() is Completed
        } else if next is Some {
            // The future of a task that was awaken is polled.
            let index = before.awaken()[next->Some_0];
            &&& action == BroadcastAction::PollFuture(index)
            &&& after.state() is Pending
            &&& after.waits_for() == Awaiting::Future(index)
            &&& after.awaken() == before.awaken().skip(next->Some_0 + 1)
        } else {
            // No need to register the waker if some tasks have been awaken.
            &&& action is RegisterWaker
            &&& after.state() is Pending
            &&& after.waits_for() is Waker
            &&& after.awaken() == Seq::<usize>::empty()
        }
    }

    /// Examines the tasks that were awaken.
    fn proceed(&mut self) -> (action: BroadcastAction)
        requires
            old(self).pending_futures_count == missing(old(self)@),
            forall|i: int|
                0 <= i < old(self).scheduled@.len() ==> (#[trigger] old(self).scheduled@[i])
                    < old(self)@.len(),
        ensures
            final(self).wf(),
            Self::proceeds(*old(self), action, *final(self)),
    {
        proof {
            lemma_missing(self@);
        }
        if self.pending_futures_count == 0 {
            self.state = FutureState::Completed;
            self.awaiting = Awaiting::Caller;
            return BroadcastAction::Ready(Ok(()));
        }
        self.state = FutureState::Pending;
        let ghost mut skipped: int = 0;
        proof {
            assert(self.scheduled@.skip(0) =~= self.scheduled@);
        }
        loop
            invariant
                self.outputs == old(self).outputs,
                self.pending_futures_count == old(self).pending_futures_count,
                self.pending_futures_count == missing(self@),
                self.pending_futures_count > 0,
                self.state is Pending,
                0 <= skipped <= old(self).scheduled@.len(),
                self.scheduled@ == old(self).scheduled@.skip(skipped),
                forall|i: int|
                    0 <= i < old(self).scheduled@.len() ==> (#[trigger] old(self).scheduled@[i])
                        < old(self)@.len(),
                first_missing(old(self)@, old(self).scheduled@) == match first_missing(
                    self@,
                    self.scheduled@,
                ) {
                    Some(i) => Some(i + skipped),
                    None => None,
                },
            decreases self.scheduled@.len(),
        {
            let ghost before = self.scheduled@;
            match self.scheduled.pop_front() {
                Some(index) => {
                    proof {
                        assert(before[0] == old(self).scheduled@[skipped]);
                        assert(self.scheduled@ =~= before.drop_first());
                        assert(self.scheduled@ =~= old(self).scheduled@.skip(skipped + 1));
                    }
                    // Do not poll completed futures.
                    if self.outputs[index].is_none() {
                        self.awaiting = Awaiting::Future(index);
                        return BroadcastAction::PollFuture(index);
                    }
                    proof {
                        skipped = skipped + 1;
                    }
                },
                None => {
                    assert(self.scheduled@ =~= Seq::<usize>::empty());
                    self.awaiting = Awaiting::Waker;
                    return BroadcastAction::RegisterWaker;
                },
            }
        }
    }

    /// Polls the broadcast, which may not have completed.
    pub fn poll(&mut self) -> (action: BroadcastAction)
        requires
            old(self).wf(),
            !(old(self).state() is Completed),
            old(self).waits_for() is Caller,
        ensures
            final(self).wf(),
            old(self).state() is Pending ==> Self::proceeds(*old(self), action, *final(self)),
            old(self).state() is Uninit ==> {
                &&& final(self)@ == old(self)@
                &&& final(self).awaken() == Seq::<usize>::empty()
                &&& if old(self)@.len() == 0 {
                    &&& action matches BroadcastAction::Ready(result) && result is Ok
                    &&& final(self).state() is Completed
                } else {
                    &&& action == BroadcastAction::PollFuture(0)
                    &&& final(self).state() is Uninit
                    &&& final(self).waits_for() == Awaiting::Future(0)
                }
            },
    {
        if let FutureState::Uninit = self.state {
            // Discarding scheduled tasks can prevent unnecessary wake-ups.
            self.scheduled.clear();
            if self.outputs.len() == 0 {
                self.state = FutureState::Completed;
                return BroadcastAction::Ready(Ok(()));
            }
            self.awaiting = Awaiting::Future(0);
            return BroadcastAction::PollFuture(0);
        }
        self.proceed()
    }

    /// Takes note that the waker was registered.
    pub fn registered(&mut self) -> (action: BroadcastAction)
        requires
            old(self).wf(),
            old(self).waits_for() is Waker,
        ensures
            final(self).wf(),
            if old(self).awaken().len() == 0 {
                &&& action is Pending
                &&& final(self)@ == old(self)@
                &&& final(self).state() == old(self).state()
                &&& final(self).awaken() == old(self).awaken()
                &&& final(self).waits_for() is Caller
            } else {
                Self::proceeds(*old(self), action, *final(self))
            },
    {
        if self.scheduled.len() == 0 {
            self.awaiting = Awaiting::Caller;
            return BroadcastAction::Pending;
        }
        self.proceed()
    }

    /// The same broadcast with one more output, if it is available.
    pub open spec fn received(self, index: int, result: Option<Result<R, SendError>>) -> Seq<
        Option<R>,
    > {
        match result {
            Some(Ok(output)) => self@.update(index, Some(output)),
            _ => self@,
        }
    }

    /// Takes note of the result of polling a sender future, if it is ready.
    pub fn polled(&mut self, result: Option<Result<R, SendError>>) -> (action: BroadcastAction)
        requires
            old(self).wf(),
            old(self).waits_for() is Future,
        ensures
            final(self).wf(),
            final(self)@ == old(self).received(old(self).waits_for()->Future_0 as int, result),
            result matches Some(Err(_)) ==> {
                // An error completes the broadcast.
                &&& action matches BroadcastAction::Ready(result) && result is Err
                &&& final(self).state() is Completed
            },
            !(result matches Some(Err(_))) ==> {
                let index = old(self).waits_for()->Future_0;
                if old(self).state() is Uninit && index + 1 < old(self)@.len() {
                    // All sender futures are polled once.
                    &&& action == BroadcastAction::PollFuture((index + 1) as usize)
                    &&& final(self).state() is Uninit
                    &&& final(self).waits_for() == Awaiting::Future((index + 1) as usize)
                    &&& final(self).awaken() == old(self).awaken()
                } else {
                    exists|before: Self|
                        before@ == final(self)@ && before.awaken() == old(self).awaken()
                            && #[trigger] Self::proceeds(before, action, *final(self))
                }
            },
    {
        let index = match self.awaiting {
            Awaiting::Future(index) => index,
            _ => 0,
        };
        match result {
            Some(Ok(output)) => {
                proof {
                    lemma_missing_update(self@, index as int, output);
                }
                self.outputs.set(index, Some(output));
                self.pending_futures_count = self.pending_futures_count - 1;
            },
            Some(Err(_)) => {
                self.state = FutureState::Completed;
                self.awaiting = Awaiting::Caller;
                return BroadcastAction::Ready(Err(BroadcastError {  }));
            },
            None => {},
        }
        if let FutureState::Uninit = self.state {
            if index < self.outputs.len() - 1 {
                self.awaiting = Awaiting::Future(index + 1);
                return BroadcastAction::PollFuture(index + 1);
            }
        }
        let ghost before = *self;
        let action = self.proceed();
        assert(Self::proceeds(before, action, *self));
        action
    }

    /// Returns the outputs of all sender futures, in order.
    pub fn into_outputs(self) -> (outputs: Vec<R>)
        requires
            self.succeeded(),
        ensures
            outputs@.len() == self@.len(),
            forall|i: int| 0 <= i < self@.len() ==> self@[i] == Some(#[trigger] outputs@[i]),
    {
        let mut outputs: Vec<R> = Vec::new();
        for output in iter: self.outputs
            invariant
                self.succeeded(),
                iter.seq() == self@,
                outputs@.len() == iter.index(),
                forall|i: int| 0 <= i < iter.index() ==> self@[i] == Some(#[trigger] outputs@[i]),
        {
            assert(self@[iter.index() as int] is Some);
            if let Some(output) = output {
                outputs.push(output);
            }
        }
        outputs
    }

    /// A broadcast succeeds only if all sender futures did, and it is reported
    /// as a success as soon as they did.
    pub proof fn law_success_means_all_outputs(before: Self, action: BroadcastAction, after: Self)
        requires
            after.wf(),
            Self::proceeds(before, action, after),
        ensures
            action matches BroadcastAction::Ready(result) ==> result is Ok && after.succeeded(),
            (forall|i: int| 0 <= i < before@.len() ==> (#[trigger] before@[i]) is Some)
                ==> action is Ready,
    {
        lemma_missing(before@);
    }

    /// The broadcast completes as soon as no output is missing. Otherwise, the first
    /// task that was awaken and which output is missing is polled, those before it
    /// being forgotten; if there is none, the waker is registered.
    pub proof fn law_progress(before: Self, action: BroadcastAction, after: Self)
        requires
            Self::proceeds(before, action, after),
        ensures
            after@ == before@,
            action is Ready <==> forall|i: int|
                0 <= i < before@.len() ==> (#[trigger] before@[i]) is Some,
            match action {
                BroadcastAction::Ready(result) => result is Ok && after.state() is Completed,
                BroadcastAction::PollFuture(index) => {
                    &&& after.state() is Pending
                    &&& after.waits_for() == Awaiting::Future(index)
                    &&& before@[index as int] is None
                    &&& exists|k: int|
                        {
                            &&& 0 <= k < before.awaken().len()
                            &&& #[trigger] before.awaken()[k] == index
                            &&& after.awaken() == before.awaken().skip(k + 1)
                            &&& forall|j: int|
                                0 <= j < k ==> before@[#[trigger] before.awaken()[j] as int] is Some
                        }
                },
                BroadcastAction::RegisterWaker => {
                    &&& after.state() is Pending
                    &&& after.waits_for() is Waker
                    &&& after.awaken().len() == 0
                    &&& forall|j: int|
                        0 <= j < before.awaken().len()
                            ==> before@[#[trigger] before.awaken()[j] as int] is Some
                },
                BroadcastAction::Pending => false,
            },
    {
        lemma_missing(before@);
        lemma_first_missing(before@, before.awaken());
    }

    /// The output of a sender future is kept at its place, and other outputs are not
    /// affected.
    pub proof fn law_outputs_are_kept(self, index: int, result: Option<Result<R, SendError>>, i: int)
        requires
            0 <= index < self@.len(),
            0 <= i < self@.len(),
        ensures
            self.received(index, result).len() == self@.len(),
            i != index ==> self.received(index, result)[i] == self@[i],
            self.received(index, result)[index] == match result {
                Some(Ok(output)) => Some(output),
                _ => self@[index],
            },
    {
    }

    /// A broadcast has succeeded if and only if it has completed with all outputs.
    pub proof fn law_success(self)
        ensures
            self.succeeded() <==> self.state() is Completed && !self@.contains(None),
    {
        if self.succeeded() && self@.contains(None) {
            let i = choose|i: int| 0 <= i < self@.len() && self@[i] == None::<R>;
            assert(self@[i] is Some);
        }
        if self.state() is Completed && !self@.contains(None) {
            assert forall|i: int| 0 <= i < self@.len() implies (#[trigger] self@[i]) is Some by {
                if self@[i] is None {
                    assert(self@[i] == None::<R>);
                    assert(self@.contains(None));
                }
            }
        }
    }

    /// No wake-up is lost: a task that is awaken after the broadcast has been
    /// left pending leads to its being polled.
    pub proof fn law_no_lost_wakeup(before: Self, index: usize, after: Self, action: BroadcastAction)
        requires
            before.awaken() == seq![index],
            index < before@.len(),
            before@[index as int] is None,
            Self::proceeds(before, action, after),
        ensures
            action == BroadcastAction::PollFuture(index),
    {
        lemma_missing(before@);
    }
}

/// Drops all items in a vector and returns an empty vector of another type.
pub fn recycle_vec<T, U>(v: Vec<T>) -> (empty: Vec<U>)
    ensures
        empty@ == Seq::<U>::empty(),
{
    let mut v = v;
    v.clear();
    Vec::new()
}

} // verus!
