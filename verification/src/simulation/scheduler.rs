//! Scheduling queue.

use vstd::prelude::*;

use crate::time::{max_instant, Duration, MonotonicTime};

verus! {

/// An error returned when the scheduled time or the repetition period are
/// invalid.
#[derive(Clone, Copy, Debug, PartialEq, Eq, Structural)]
pub enum SchedulingError {
    /// The scheduled time does not lie in the future of the current simulation
    /// time.
    InvalidScheduledTime,
    /// The repetition period is zero.
    NullRepetitionPeriod,
}

impl SchedulingError {
    /// The description of the error.
    pub open spec fn text(self) -> Seq<char> {
        match self {
            SchedulingError::InvalidScheduledTime =>
            "the scheduled time should be in the future of the current simulation time"@,
            SchedulingError::NullRepetitionPeriod => "the repetition period cannot be zero"@,
        }
    }

    /// Describes the error.
    pub fn to_text(&self) -> (text: String)
        ensures
            text@ == self.text(),
    {
        match self {
            SchedulingError::InvalidScheduledTime =>
            "the scheduled time should be in the future of the current simulation time".to_owned(),
            SchedulingError::NullRepetitionPeriod =>
            "the repetition period cannot be zero".to_owned(),
        }
    }
}

/// A possibly periodic, possibly cancellable action to be performed at some
/// simulation time.
#[derive(Clone, Copy, Debug)]
pub struct Action {
    /// Designates what is to be performed.
    pub id: u64,
    /// The repetition period, if the action is periodic.
    pub period: Option<Duration>,
    /// The key with which the action can be cancelled, if any.
    pub key: Option<u64>,
}

/// An action and its place in the scheduling queue.
#[derive(Clone, Copy, Debug)]
pub struct ScheduledAction {
    /// The time for which the action is scheduled.
    pub time: MonotonicTime,
    /// The origin of the action.
    pub channel_id: usize,
    /// The action.
    pub action: Action,
    /// Whether the action was cancelled.
    pub cancelled: bool,
}

impl ScheduledAction {
    /// Whether an action comes first, or has the same time and origin.
    pub open spec fn precedes(self, other: Self) -> bool {
        self.time@ < other.time@ || self.time@ == other.time@ && self.channel_id
            <= other.channel_id
    }

    /// Whether the action is to be performed at the given time.
    pub open spec fn is_due(self, time: int) -> bool {
        self.time@ == time && !self.cancelled
    }

    /// Whether the action can be scheduled again if it is periodic.
    pub open spec fn can_repeat(self) -> bool {
        self.action.period is Some ==> self.time@ + self.action.period->Some_0@ <= max_instant()
    }

    /// The next occurrence of the action, if it is periodic.
    pub open spec fn next(self) -> Option<Self> {
        match self.action.period {
            Some(period) => Some(
                ScheduledAction { time: MonotonicTime::at(self.time@ + period@), ..self },
            ),
            None => None,
        }
    }
}

/// Scheduled actions with one more, which comes after all actions that have the
/// same time and origin.
pub open spec fn inserted(s: Seq<ScheduledAction>, new: ScheduledAction) -> Seq<ScheduledAction>
    decreases s.len(),
{
    if s.len() == 0 || s.last().precedes(new) {
        s.push(new)
    } else {
        inserted(s.drop_last(), new).push(s.last())
    }
}

/// Scheduled actions with the next occurrences of some others.
pub open spec fn rescheduled(s: Seq<ScheduledAction>, performed: Seq<ScheduledAction>) -> Seq<
    ScheduledAction,
>
    decreases performed.len(),
{
    if performed.len() == 0 {
        s
    } else {
        let rest = rescheduled(s, performed.drop_last());
        match performed.last().next() {
            Some(next) => inserted(rest, next),
            None => rest,
        }
    }
}

/// Scheduled actions without the cancelled ones that come first, up to the
/// given time.
pub open spec fn purged(s: Seq<ScheduledAction>, bound: int) -> Seq<ScheduledAction>
    decreases s.len(),
{
    if s.len() > 0 && s[0].cancelled && s[0].time@ <= bound {
        purged(s.drop_first(), bound)
    } else {
        s
    }
}

/// The time of the first action that was not cancelled, up to the given time.
pub open spec fn next_time(s: Seq<ScheduledAction>, bound: int) -> Option<int> {
    let rest = purged(s, bound);
    if rest.len() > 0 && rest[0].time@ <= bound {
        Some(rest[0].time@)
    } else {
        None
    }
}

/// The actions to be performed at the given time.
pub open spec fn due(s: Seq<ScheduledAction>, time: int) -> Seq<ScheduledAction> {
    s.filter(|scheduled: ScheduledAction| scheduled.is_due(time))
}

/// The actions scheduled after the given time.
pub open spec fn later(s: Seq<ScheduledAction>, time: int) -> Seq<ScheduledAction> {
    s.filter(|scheduled: ScheduledAction| scheduled.time@ > time)
}

/// Whether all periodic actions among the next ones to be performed can be
/// scheduled again.
pub open spec fn repeatable(s: Seq<ScheduledAction>, bound: int) -> bool {
    next_time(s, bound) matches Some(time) ==> forall|i: int|
        0 <= i < s.len() && (#[trigger] s[i]).is_due(time) ==> s[i].can_repeat()
}

/// Consecutive actions with the same origin, put together.
pub open spec fn grouped(s: Seq<ScheduledAction>) -> Seq<Seq<Action>>
    decreases s.len(),
{
    if s.len() == 0 {
        Seq::empty()
    } else {
        let groups = grouped(s.drop_last());
        let last = s.last();
        if s.len() > 1 && s[s.len() - 2].channel_id == last.channel_id {
            groups.update(groups.len() - 1, groups.last().push(last.action))
        } else {
            groups.push(seq![last.action])
        }
    }
}

/// The scheduled actions once those with the given key are cancelled.
pub open spec fn cancelled(s: Seq<ScheduledAction>, key: u64) -> Seq<ScheduledAction> {
    s.map_values(
        |scheduled: ScheduledAction|
            if scheduled.action.key == Some(key) {
                ScheduledAction { cancelled: true, ..scheduled }
            } else {
                scheduled
            },
    )
}

/// Whether scheduled actions come in order.
pub open spec fn in_order(s: Seq<ScheduledAction>) -> bool {
    forall|i: int, j: int| 0 <= i < j < s.len() ==> (#[trigger] s[i]).precedes(#[trigger] s[j])
}

/// Whether no periodic action has a null period.
pub open spec fn no_null_period(s: Seq<ScheduledAction>) -> bool {
    forall|i: int|
        0 <= i < s.len() && (#[trigger] s[i]).action.period is Some
            ==> s[i].action.period->Some_0@ > 0
}

proof fn lemma_inserted(s: Seq<ScheduledAction>, new: ScheduledAction, at: int)
    requires
        0 <= at <= s.len(),
        at > 0 ==> s[at - 1].precedes(new),
        forall|i: int| at <= i < s.len() ==> !(#[trigger] s[i]).precedes(new),
    ensures
        inserted(s, new) == s.insert(at, new),
    decreases s.len(),
{
    if at < s.len() {
        lemma_inserted(s.drop_last(), new, at);
        assert(s.insert(at, new) =~= s.drop_last().insert(at, new).push(s.last()));
    } else {
        assert(s.insert(at, new) =~= s.push(new));
    }
}

/// Insertion keeps the order.
proof fn lemma_inserted_in_order(s: Seq<ScheduledAction>, new: ScheduledAction)
    requires
        in_order(s),
        no_null_period(s),
        new.action.period is Some ==> new.action.period->Some_0@ > 0,
    ensures
        in_order(inserted(s, new)),
        no_null_period(inserted(s, new)),
        inserted(s, new).len() == s.len() + 1,
    decreases s.len(),
{
    if s.len() == 0 || s.last().precedes(new) {
    } else {
        let rest = s.drop_last();
        lemma_inserted_in_order(rest, new);
        let r = inserted(rest, new);
        assert forall|i: int| 0 <= i < r.len() implies (#[trigger] r[i]).precedes(s.last()) by {
            lemma_inserted_from(rest, new, i);
        }
    }
}

/// Whether all actions are scheduled after the given time.
pub open spec fn all_after(s: Seq<ScheduledAction>, time: int) -> bool {
    forall|i: int| 0 <= i < s.len() ==> (#[trigger] s[i]).time@ > time
}

proof fn lemma_inserted_len(s: Seq<ScheduledAction>, new: ScheduledAction)
    ensures
        inserted(s, new).len() == s.len() + 1,
    decreases s.len(),
{
    if s.len() > 0 && !s.last().precedes(new) {
        lemma_inserted_len(s.drop_last(), new);
    }
}

proof fn lemma_inserted_from(s: Seq<ScheduledAction>, new: ScheduledAction, i: int)
    requires
        0 <= i <= s.len(),
    ensures
        inserted(s, new)[i] == new || s.contains(inserted(s, new)[i]),
    decreases s.len(),
{
    lemma_inserted_len(s, new);
    if s.len() == 0 || s.last().precedes(new) {
        if i < s.len() {
            assert(s.contains(s[i]));
        }
    } else {
        let rest = s.drop_last();
        lemma_inserted_len(rest, new);
        if i < s.len() {
            lemma_inserted_from(rest, new, i);
            let item = inserted(rest, new)[i];
            if rest.contains(item) {
                let j = choose|j: int| 0 <= j < rest.len() && rest[j] == item;
                assert(s[j] == item);
            }
        } else {
            assert(s.contains(s[s.len() - 1]));
        }
    }
}

/// Actions that come first do not matter to an insertion.
proof fn lemma_inserted_after(
    first: Seq<ScheduledAction>,
    rest: Seq<ScheduledAction>,
    new: ScheduledAction,
)
    requires
        first.len() > 0 ==> first.last().precedes(new),
    ensures
        inserted(first + rest, new) == first + inserted(rest, new),
    decreases rest.len(),
{
    if rest.len() == 0 {
        assert(first + rest =~= first);
        assert(inserted(first, new) =~= first + seq![new]);
    } else {
        assert((first + rest).last() == rest.last());
        if rest.last().precedes(new) {
            assert((first + rest).push(new) =~= first + rest.push(new));
        } else {
            assert((first + rest).drop_last() =~= first + rest.drop_last());
            lemma_inserted_after(first, rest.drop_last(), new);
            assert((first + inserted(rest.drop_last(), new)).push(rest.last()) =~= first
                + inserted(rest.drop_last(), new).push(rest.last()));
        }
    }
}

/// Purging removes cancelled actions at the front, and nothing else.
pub(crate) proof fn lemma_purged(s: Seq<ScheduledAction>, bound: int)
    ensures
        purged(s, bound).len() <= s.len(),
        purged(s, bound) == s.skip(s.len() - purged(s, bound).len()),
        forall|i: int|
            0 <= i < s.len() - purged(s, bound).len() ==> (#[trigger] s[i]).cancelled
                && s[i].time@ <= bound,
        purged(s, bound).len() > 0 ==> !purged(s, bound)[0].cancelled || purged(s, bound)[0].time@
            > bound,
    decreases s.len(),
{
    if s.len() > 0 && s[0].cancelled && s[0].time@ <= bound {
        let rest = s.drop_first();
        lemma_purged(rest, bound);
        let n = rest.len() - purged(rest, bound).len();
        assert(rest.skip(n) =~= s.skip(n + 1));
        assert forall|i: int| 0 <= i < n + 1 implies (#[trigger] s[i]).cancelled && s[i].time@
            <= bound by {
            if i > 0 {
                assert(rest[i - 1] == s[i]);
            }
        }
    } else {
        assert(s.skip(0) =~= s);
    }
}

/// Purging has no influence on the actions to be performed, nor on those that
/// come later.
proof fn lemma_purged_parts(s: Seq<ScheduledAction>, bound: int)
    requires
        in_order(s),
        next_time(s, bound) is Some,
    ensures
        due(purged(s, bound), next_time(s, bound)->Some_0) == due(
            s,
            next_time(s, bound)->Some_0,
        ),
        later(purged(s, bound), next_time(s, bound)->Some_0) == later(
            s,
            next_time(s, bound)->Some_0,
        ),
{
    lemma_purged(s, bound);
    let rest = purged(s, bound);
    let n = s.len() - rest.len();
    let time = next_time(s, bound)->Some_0;
    let is_due = |scheduled: ScheduledAction| scheduled.is_due(time);
    let is_later = |scheduled: ScheduledAction| scheduled.time@ > time;
    assert(s =~= s.take(n) + rest);
    assert forall|i: int| 0 <= i < n implies !is_due(#[trigger] s.take(n)[i]) && !is_later(
        s.take(n)[i],
    ) by {
        assert(s.take(n)[i] == s[i]);
        assert(s[n] == rest[0]);
        assert(s[i].precedes(s[n]));
    }
    lemma_filter_none(s.take(n), is_due);
    lemma_filter_none(s.take(n), is_later);
    Seq::filter_distributes_over_add(s.take(n), rest, is_due);
    Seq::filter_distributes_over_add(s.take(n), rest, is_later);
    assert(Seq::<ScheduledAction>::empty() + rest.filter(is_due) =~= rest.filter(is_due));
    assert(Seq::<ScheduledAction>::empty() + rest.filter(is_later) =~= rest.filter(is_later));
}

proof fn lemma_filter_none(s: Seq<ScheduledAction>, pred: spec_fn(ScheduledAction) -> bool)
    requires
        forall|i: int| 0 <= i < s.len() ==> !pred(#[trigger] s[i]),
    ensures
        s.filter(pred) == Seq::<ScheduledAction>::empty(),
    decreases s.len(),
{
    reveal(Seq::filter);
    if s.len() > 0 {
        lemma_filter_none(s.drop_last(), pred);
    }
}

proof fn lemma_filter_all(s: Seq<ScheduledAction>, pred: spec_fn(ScheduledAction) -> bool)
    requires
        forall|i: int| 0 <= i < s.len() ==> pred(#[trigger] s[i]),
    ensures
        s.filter(pred) == s,
    decreases s.len(),
{
    reveal(Seq::filter);
    if s.len() > 0 {
        lemma_filter_all(s.drop_last(), pred);
        assert(s =~= s.drop_last().push(s.last()));
    }
}

/// Actions to be performed at the same time.
pub struct Batch {
    /// The time of the actions.
    pub time: MonotonicTime,
    /// The actions. Those of a sequence must be performed in turn.
    pub sequences: Vec<Vec<Action>>,
}

impl Batch {
    /// The sequences of actions.
    pub open spec fn groups(self) -> Seq<Seq<Action>> {
        self.sequences@.map_values(|sequence: Vec<Action>| sequence@)
    }
}

/// A queue of scheduled actions.
///
/// Actions are sorted in chronological order. Actions scheduled for the same
/// time are sorted by origin; if they also have the same origin, they remain in
/// the order of their insertion.
pub struct SchedulerQueue {
    entries: Vec<ScheduledAction>,
}

impl View for SchedulerQueue {
    type V = Seq<ScheduledAction>;

    /// The scheduled actions, in order.
    closed spec fn view(&self) -> Seq<ScheduledAction> {
        self.entries@
    }
}

impl SchedulerQueue {
    /// Actions come in order and none of them has a null period.
    pub open spec fn wf(self) -> bool {
        in_order(self@) && no_null_period(self@)
    }

    /// Creates an empty queue.
    pub fn new() -> (queue: Self)
        ensures
            queue.wf(),
            queue@ == Seq::<ScheduledAction>::empty(),
    {
        SchedulerQueue { entries: Vec::new() }
    }

    /// Inserts an action, the period of which may not be null.
    pub fn insert(&mut self, time: MonotonicTime, channel_id: usize, action: Action)
        requires
            old(self).wf(),
            action.period is Some ==> action.period->Some_0@ > 0,
        ensures
            final(self).wf(),
            final(self)@ == inserted(
                old(self)@,
                (ScheduledAction { time, channel_id, action, cancelled: false }),
            ),
    {
        let new = ScheduledAction { time, channel_id, action, cancelled: false };
        let mut at: usize = self.entries.len();
        loop
            invariant
                self.entries@ == old(self).entries@,
                new.time == time,
                new.channel_id == channel_id,
                at <= self.entries@.len(),
                forall|i: int|
                    at <= i < self.entries@.len() ==> !(#[trigger] self.entries@[i]).precedes(new),
            ensures
                at > 0 ==> self.entries@[at - 1].precedes(new),
            decreases at,
        {
            if at == 0 {
                break;
            }
            let entry = &self.entries[at - 1];
            if entry.time.lt(&time) || entry.time.same(&time) && entry.channel_id <= channel_id {
                break;
            }
            at = at - 1;
        }
        self.entries.insert(at, new);
        proof {
            lemma_inserted(old(self)@, new, at as int);
            lemma_inserted_in_order(old(self)@, new);
        }
    }

    /// Discards the cancelled actions that come first, up to the given time,
    /// and tells the time of the next action if it does not exceed the latter.
    fn purge(&mut self, bound: &MonotonicTime) -> (time: Option<MonotonicTime>)
        requires
            old(self).wf(),
        ensures
            final(self).wf(),
            final(self)@ == purged(old(self)@, bound@),
            time is Some <==> next_time(old(self)@, bound@) is Some,
            time is Some ==> time->Some_0@ == next_time(old(self)@, bound@)->Some_0,
            time is Some ==> time->Some_0 == final(self)@[0].time,
    {
        while self.entries.len() > 0 && self.entries[0].cancelled && self.entries[0].time.le(bound)
            invariant
                self.wf(),
                purged(self@, bound@) == purged(old(self)@, bound@),
            decreases self.entries@.len(),
        {
            let ghost before = self@;
            self.entries.remove(0);
            assert(self@ =~= before.drop_first());
        }
        if self.entries.len() > 0 && self.entries[0].time.le(bound) {
            Some(self.entries[0].time)
        } else {
            None
        }
    }

    /// Takes all actions scheduled for the given time, before which no action
    /// is scheduled.
    #[verifier::spinoff_prover]
    #[verifier::rlimit(50)]
    fn take_due(&mut self, time: &MonotonicTime) -> (sequences: Vec<Vec<Action>>)
        requires
            old(self).wf(),
            forall|i: int| 0 <= i < old(self)@.len() ==> (#[trigger] old(self)@[i]).time@ >= time@,
            forall|i: int|
                0 <= i < old(self)@.len() && (#[trigger] old(self)@[i]).is_due(time@) ==> old(self)@[i].can_repeat(),
        ensures
            final(self).wf(),
            sequences@.map_values(|sequence: Vec<Action>| sequence@) == grouped(
                due(old(self)@, time@),
            ),
            final(self)@ == rescheduled(later(old(self)@, time@), due(old(self)@, time@)),
    {
        let ghost all = self@;
        let ghost count = lemma_split(all, time@);
        let ghost rest = all.skip(count);
        let ghost mut taken: int = 0;
        let ghost mut performed: Seq<ScheduledAction> = Seq::empty();
        let mut sequences: Vec<Vec<Action>> = Vec::new();
        let mut last_channel_id: usize = 0;
        proof {
            assert(all =~= all.subrange(0, count) + rest);
            lemma_filter_none(all.take(0), |scheduled: ScheduledAction| scheduled.is_due(time@));
        }
        while self.entries.len() > 0 && self.entries[0].time.same(time)
            invariant
                forall|i: int|
                    0 <= i < all.len() && (#[trigger] all[i]).is_due(time@)
                        ==> all[i].can_repeat(),
                self.wf(),
                in_order(all),
                no_null_period(all),
                0 <= taken <= count <= all.len(),
                forall|i: int| 0 <= i < count ==> (#[trigger] all[i]).time@ == time@,
                rest == all.skip(count),
                all_after(rest, time@),
                performed == due(all.take(taken), time@),
                all_after(rescheduled(rest, performed), time@),
                in_order(rescheduled(rest, performed)),
                no_null_period(rescheduled(rest, performed)),
                self@ == all.subrange(taken, count) + rescheduled(rest, performed),
                sequences@.map_values(|sequence: Vec<Action>| sequence@) == grouped(performed),
                performed.len() > 0 ==> sequences@.len() > 0 && last_channel_id
                    == performed.last().channel_id,
            decreases count - taken,
        {
            let ghost again = rescheduled(rest, performed);
            let entry = self.entries.remove(0);
            proof {
                if taken == count {
                    assert(all.subrange(taken, count) + again =~= again);
                    assert(again[0] == entry);
                    assert(false);
                }
                assert(entry == all[taken]);
                assert(self@ =~= all.subrange(taken + 1, count) + again);
                assert(all.take(taken + 1).drop_last() =~= all.take(taken));
                assert(all.take(taken + 1).last() == entry);
                assert(due(all.take(taken + 1), time@) == if entry.is_due(time@) {
                    performed.push(entry)
                } else {
                    performed
                }) by {
                    reveal(Seq::filter);
                }
            }
            if !entry.cancelled {
                let ghost first = all.subrange(taken + 1, count);
                let ghost before = sequences@;
                proof {
                    assert(performed.push(entry).drop_last() =~= performed);
                    assert(entry.can_repeat());
                }
                if let Some(period) = entry.action.period {
                    if let Some(next) = entry.time.checked_add(&period) {
                        proof {
                            let new = ScheduledAction { time: next, ..entry };
                            assert(entry.next() == Some(new));
                            if first.len() > 0 {
                                assert(first.last() == all[count - 1]);
                            }
                            lemma_inserted_after(first, again, new);
                            lemma_inserted_in_order(again, new);
                            lemma_inserted_times(again, new, time@);
                        }
                        self.insert(next, entry.channel_id, entry.action);
                    }
                }
                let count_sequences: usize = sequences.len();
                if count_sequences > 0 && last_channel_id == entry.channel_id {
                    sequences[count_sequences - 1].push(entry.action);
                } else {
                    let mut sequence: Vec<Action> = Vec::new();
                    sequence.push(entry.action);
                    sequences.push(sequence);
                }
                last_channel_id = entry.channel_id;
                proof {
                    performed = performed.push(entry);
                }
            }
            proof {
                taken = taken + 1;
            }
        }
        proof {
            if taken < count {
                assert(self@[0] == all[taken]);
            }
            assert(all.subrange(count, count) + rescheduled(rest, performed) =~= rescheduled(
                rest,
                performed,
            ));
            lemma_parts(all, count, time@);
        }
        sequences
    }

    /// Checks that all periodic actions among the next ones to be performed can
    /// be scheduled again.
    pub fn is_repeatable(&self, bound: &MonotonicTime) -> (r: bool)
        requires
            self.wf(),
        ensures
            r == repeatable(self@, bound@),
    {
        let mut i: usize = 0;
        proof {
            lemma_purged(self@, bound@);
            assert(self@.skip(0) =~= self@);
        }
        while i < self.entries.len() && self.entries[i].cancelled && self.entries[i].time.le(bound)
            invariant
                i <= self@.len(),
                purged(self@.skip(i as int), bound@) == purged(self@, bound@),
            decreases self@.len() - i,
        {
            assert(self@.skip(i as int).drop_first() =~= self@.skip(i + 1));
            i = i + 1;
        }
        if i == self.entries.len() || bound.lt(&self.entries[i].time) {
            return true;
        }
        let time = self.entries[i].time;
        let ghost start = i as int;
        while i < self.entries.len() && self.entries[i].time.same(&time)
            invariant
                self.wf(),
                start <= i <= self@.len(),
                start < self@.len(),
                next_time(self@, bound@) == Some(time@),
                forall|j: int| 0 <= j < start ==> (#[trigger] self@[j]).cancelled,
                forall|j: int|
                    start <= j < i && (#[trigger] self@[j]).is_due(time@) ==> self@[j].can_repeat(),
                i == start ==> self@[start].time@ == time@,
            decreases self@.len() - i,
        {
            let entry = &self.entries[i];
            if let Some(period) = &entry.action.period {
                if !entry.cancelled && entry.time.checked_add(period).is_none() {
                    assert(self@[i as int].is_due(time@));
                    return false;
                }
            }
            i = i + 1;
        }
        proof {
            assert forall|j: int| 0 <= j < self@.len() && (#[trigger] self@[j]).is_due(
                time@,
            ) implies self@[j].can_repeat() by {
                if j > i {
                    assert(self@[i as int].precedes(self@[j]));
                    assert(self@[i - 1].precedes(self@[i as int]));
                }
            }
        }
        true
    }

    /// Takes all actions scheduled for the time of the next action, unless the
    /// latter exceeds the specified bound.
    ///
    /// Cancelled actions are discarded. Actions that are periodic are
    /// immediately scheduled again. To ensure that their relative order of
    /// execution is preserved, all actions with the same origin are part of the
    /// same sequence.
    pub fn take_batch(&mut self, bound: &MonotonicTime) -> (batch: Option<Batch>)
        requires
            old(self).wf(),
            repeatable(old(self)@, bound@),
        ensures
            final(self).wf(),
            batch is Some <==> next_time(old(self)@, bound@) is Some,
            batch is None ==> final(self)@ == purged(old(self)@, bound@),
            batch is Some ==> {
                let time = next_time(old(self)@, bound@)->Some_0;
                let performed = due(old(self)@, time);
                &&& batch->Some_0.time@ == time
                &&& batch->Some_0.groups() == grouped(performed)
                &&& final(self)@ == purged(
                    rescheduled(later(old(self)@, time), performed),
                    bound@,
                )
            },
    {
        let time = match self.purge(bound) {
            Some(time) => time,
            None => return None,
        };
        proof {
            lemma_purged(old(self)@, bound@);
            lemma_purged_parts(old(self)@, bound@);
            let n = old(self)@.len() - self@.len();
            assert forall|i: int| 0 <= i < self@.len() implies (#[trigger] self@[i]).time@
                >= time@ by {
                if i > 0 {
                    assert(self@[0].precedes(self@[i]));
                }
            }
            assert forall|i: int|
                0 <= i < self@.len() && (#[trigger] self@[i]).is_due(time@) implies self@[i].can_repeat() by {
                assert(self@[i] == old(self)@[n + i]);
            }
        }
        let sequences = self.take_due(&time);
        self.purge(bound);
        Some(Batch { time, sequences })
    }

    /// Cancels the actions with the given key.
    pub fn cancel(&mut self, key: u64)
        requires
            old(self).wf(),
        ensures
            final(self).wf(),
            final(self)@ == cancelled(old(self)@, key),
    {
        let mut i: usize = 0;
        while i < self.entries.len()
            invariant
                i <= self.entries@.len(),
                self.entries@.len() == old(self).entries@.len(),
                forall|j: int|
                    0 <= j < i ==> #[trigger] self.entries@[j] == cancelled(old(self)@, key)[j],
                forall|j: int|
                    i <= j < self.entries@.len() ==> #[trigger] self.entries@[j] == old(self).entries@[j],
            decreases self.entries@.len() - i,
        {
            let mut entry = self.entries[i];
            if let Some(entry_key) = entry.action.key {
                if entry_key == key {
                    entry.cancelled = true;
                    self.entries.set(i, entry);
                }
            }
            i = i + 1;
        }
        proof {
            assert(self@ =~= cancelled(old(self)@, key));
            assert forall|j: int, k: int| 0 <= j < k < self@.len() implies (
            #[trigger] self@[j]).precedes(#[trigger] self@[k]) by {
                assert(old(self)@[j].precedes(old(self)@[k]));
            }
            assert forall|j: int|
                0 <= j < self@.len() && (#[trigger] self@[j]).action.period is Some implies
                self@[j].action.period->Some_0@ > 0 by {
                assert(old(self)@[j].action.period is Some);
            }
        }
    }
}

/// The two parts of scheduled actions are the actions at the given time and
/// those that come later.
proof fn lemma_parts(s: Seq<ScheduledAction>, count: int, time: int)
    requires
        0 <= count <= s.len(),
        forall|i: int| 0 <= i < count ==> (#[trigger] s[i]).time@ == time,
        all_after(s.skip(count), time),
    ensures
        due(s, time) == due(s.take(count), time),
        later(s, time) == s.skip(count),
{
    let rest = s.skip(count);
    let is_due = |scheduled: ScheduledAction| scheduled.is_due(time);
    let is_later = |scheduled: ScheduledAction| scheduled.time@ > time;
    assert(s =~= s.take(count) + rest);
    lemma_filter_none(rest, is_due);
    lemma_filter_none(s.take(count), is_later);
    lemma_filter_all(rest, is_later);
    Seq::filter_distributes_over_add(s.take(count), rest, is_due);
    Seq::filter_distributes_over_add(s.take(count), rest, is_later);
    assert(due(s, time) =~= due(s.take(count), time));
    assert(later(s, time) =~= rest);
}

/// Splits scheduled actions, none of which comes before the given time, in two
/// parts.
proof fn lemma_split(s: Seq<ScheduledAction>, time: int) -> (count: int)
    requires
        in_order(s),
        forall|i: int| 0 <= i < s.len() ==> (#[trigger] s[i]).time@ >= time,
    ensures
        0 <= count <= s.len(),
        forall|i: int| 0 <= i < count ==> (#[trigger] s[i]).time@ == time,
        all_after(s.skip(count), time),
    decreases s.len(),
{
    if s.len() == 0 || s.last().time@ == time {
        assert forall|i: int| 0 <= i < s.len() implies (#[trigger] s[i]).time@ == time by {
            if i < s.len() - 1 {
                assert(s[i].precedes(s[s.len() - 1]));
            }
        }
        s.len() as int
    } else {
        let count = lemma_split(s.drop_last(), time);
        assert forall|i: int| 0 <= i < count implies (#[trigger] s[i]).time@ == time by {
            assert(s[i] == s.drop_last()[i]);
        }
        assert forall|i: int| 0 <= i < s.skip(count).len() implies (
        #[trigger] s.skip(count)[i]).time@ > time by {
            if i < s.len() - count - 1 {
                assert(s.skip(count)[i] == s.drop_last().skip(count)[i]);
            }
        }
        count
    }
}

/// After a batch was taken, all actions are scheduled after it; the batch itself
/// comes after any time after which all actions were scheduled.
pub proof fn lemma_batch_leaves_later_actions(s: Seq<ScheduledAction>, bound: int, now: int)
    requires
        in_order(s),
        no_null_period(s),
        all_after(s, now),
    ensures
        all_after(purged(s, bound), now),
        next_time(s, bound) is Some ==> {
            let time = next_time(s, bound)->Some_0;
            &&& now < time <= bound
            &&& (forall|i: int|
                0 <= i < s.len() && (#[trigger] s[i]).is_due(time) ==> s[i].can_repeat())
                ==> all_after(purged(rescheduled(later(s, time), due(s, time)), bound), time)
        },
{
    lemma_purged(s, bound);
    if next_time(s, bound) is Some {
        let time = next_time(s, bound)->Some_0;
        assert(purged(s, bound)[0] == s[s.len() - purged(s, bound).len()]);
        if forall|i: int|
            0 <= i < s.len() && (#[trigger] s[i]).is_due(time) ==> s[i].can_repeat() {
            let is_due = |scheduled: ScheduledAction| scheduled.is_due(time);
            let is_later = |scheduled: ScheduledAction| scheduled.time@ > time;
            let rest = later(s, time);
            let performed = due(s, time);
            assert forall|i: int| 0 <= i < rest.len() implies (#[trigger] rest[i]).time@
                > time by {
                s.lemma_filter_pred(is_later, i);
            }
            assert forall|i: int| 0 <= i < performed.len() implies (
            #[trigger] performed[i]).is_due(time) && s.contains(performed[i]) by {
                s.lemma_filter_pred(is_due, i);
                assert(performed.contains(performed[i]));
                s.lemma_filter_contains_rev(is_due, performed[i]);
            }
            lemma_rescheduled_times(s, rest, performed, time);
            lemma_purged(rescheduled(rest, performed), bound);
        }
    }
}

proof fn lemma_rescheduled_times(
    s: Seq<ScheduledAction>,
    rest: Seq<ScheduledAction>,
    performed: Seq<ScheduledAction>,
    time: int,
)
    requires
        no_null_period(s),
        all_after(rest, time),
        forall|i: int|
            0 <= i < s.len() && (#[trigger] s[i]).is_due(time) ==> s[i].can_repeat(),
        forall|i: int|
            0 <= i < performed.len() ==> (#[trigger] performed[i]).is_due(time) && s.contains(
                performed[i],
            ),
    ensures
        all_after(rescheduled(rest, performed), time),
    decreases performed.len(),
{
    if performed.len() > 0 {
        let others = performed.drop_last();
        let last = performed.last();
        assert forall|i: int| 0 <= i < others.len() implies (#[trigger] others[i]).is_due(time)
            && s.contains(others[i]) by {
            assert(others[i] == performed[i]);
        }
        lemma_rescheduled_times(s, rest, others, time);
        if last.next() is Some {
            assert(last == performed[performed.len() - 1]);
            let i = choose|i: int| 0 <= i < s.len() && s[i] == last;
            assert(s[i].can_repeat());
            last.time.lemma_earliest();
            MonotonicTime::lemma_at(time + last.action.period->Some_0@);
            lemma_inserted_times(rescheduled(rest, others), last.next()->Some_0, time);
        }
    }
}

/// Insertion of an action in the future leaves all actions in the future.
pub proof fn lemma_inserted_times(s: Seq<ScheduledAction>, new: ScheduledAction, time: int)
    requires
        all_after(s, time),
        new.time@ > time,
    ensures
        all_after(inserted(s, new), time),
{
    lemma_inserted_len(s, new);
    let r = inserted(s, new);
    assert forall|i: int| 0 <= i < r.len() implies (#[trigger] r[i]).time@ > time by {
        lemma_inserted_from(s, new, i);
    }
}

/// Cancellation does not change the times of actions.
pub proof fn lemma_cancelled_times(s: Seq<ScheduledAction>, key: u64, time: int)
    requires
        all_after(s, time),
    ensures
        all_after(cancelled(s, key), time),
{
    assert forall|i: int| 0 <= i < s.len() implies (#[trigger] cancelled(s, key)[i]).time@
        > time by {
        assert(s[i].time@ > time);
    }
}

/// If no action is left to be performed up to some bound, then all actions are
/// scheduled after it.
pub proof fn lemma_purged_leaves_later_actions(s: Seq<ScheduledAction>, bound: int)
    requires
        in_order(s),
        next_time(s, bound) is None,
    ensures
        all_after(purged(s, bound), bound),
{
    lemma_purged(s, bound);
    let rest = purged(s, bound);
    let n = s.len() - rest.len();
    assert forall|i: int| 0 <= i < rest.len() implies (#[trigger] rest[i]).time@ > bound by {
        if i > 0 {
            assert(s[n].precedes(s[n + i]));
        }
    }
}

/// An inserted action comes after all actions that are scheduled for an earlier
/// time, or for the same time with the same or a smaller origin, and before all
/// others. The relative order of the latter does not change.
pub proof fn law_insertion_is_stable(s: Seq<ScheduledAction>, new: ScheduledAction) -> (at: int)
    requires
        in_order(s),
    ensures
        0 <= at <= s.len(),
        inserted(s, new) == s.insert(at, new),
        forall|i: int| 0 <= i < at ==> (#[trigger] s[i]).precedes(new),
        forall|i: int| at <= i < s.len() ==> !(#[trigger] s[i]).precedes(new),
    decreases s.len(),
{
    if s.len() == 0 || s.last().precedes(new) {
        assert forall|i: int| 0 <= i < s.len() implies (#[trigger] s[i]).precedes(new) by {
            if i < s.len() - 1 {
                assert(s[i].precedes(s[s.len() - 1]));
            }
        }
        lemma_inserted(s, new, s.len() as int);
        s.len() as int
    } else {
        let at = law_insertion_is_stable(s.drop_last(), new);
        assert forall|i: int| 0 <= i < at implies (#[trigger] s[i]).precedes(new) by {
            assert(s[i] == s.drop_last()[i]);
        }
        assert forall|i: int| at <= i < s.len() implies !(#[trigger] s[i]).precedes(new) by {
            if i < s.len() - 1 {
                assert(s[i] == s.drop_last()[i]);
            }
        }
        if at > 0 {
            assert(s[at - 1].precedes(new));
        }
        lemma_inserted(s, new, at);
        at
    }
}

/// The actions scheduled for the given time with the given origin.
pub open spec fn scheduled_at(s: Seq<ScheduledAction>, time: int, channel_id: usize) -> Seq<
    ScheduledAction,
> {
    s.filter(
        |scheduled: ScheduledAction| scheduled.time@ == time && scheduled.channel_id == channel_id,
    )
}

/// Actions scheduled for the same time with the same origin are performed in the
/// order in which they were scheduled: a new action comes after all others, the
/// relative order of which is kept.
pub proof fn law_scheduling_order_is_kept(s: Seq<ScheduledAction>, new: ScheduledAction)
    ensures
        scheduled_at(inserted(s, new), new.time@, new.channel_id) == scheduled_at(
            s,
            new.time@,
            new.channel_id,
        ).push(new),
    decreases s.len(),
{
    reveal(Seq::filter);
    let r = inserted(s, new);
    if s.len() == 0 || s.last().precedes(new) {
        assert(r.drop_last() =~= s);
    } else {
        law_scheduling_order_is_kept(s.drop_last(), new);
        assert(r.drop_last() =~= inserted(s.drop_last(), new));
    }
}

/// The first action that was not cancelled does not depend on the bound, as long
/// as it is not scheduled later.
pub(crate) proof fn lemma_wider_bound(s: Seq<ScheduledAction>, bound: int, wider: int)
    requires
        in_order(s),
        bound <= wider,
    ensures
        next_time(s, bound) is Some ==> next_time(s, wider) == next_time(s, bound),
        next_time(s, bound) is None && next_time(s, wider) is Some ==> next_time(s, wider)->Some_0
            > bound,
        next_time(s, wider) matches Some(time) ==> exists|i: int|
            0 <= i < s.len() && (#[trigger] s[i]).time@ == time,
    decreases s.len(),
{
    if s.len() > 0 {
        let rest = s.drop_first();
        assert forall|i: int, j: int| 0 <= i < j < rest.len() implies (
        #[trigger] rest[i]).precedes(#[trigger] rest[j]) by {
            assert(s[i + 1].precedes(s[j + 1]));
        }
        lemma_wider_bound(rest, bound, wider);
        if s[0].cancelled && s[0].time@ <= wider {
            if next_time(s, wider) is Some {
                let time = next_time(s, wider)->Some_0;
                let i = choose|i: int| 0 <= i < rest.len() && (#[trigger] rest[i]).time@ == time;
                assert(s[i + 1].time@ == time);
                assert(s[0].precedes(s[i + 1]));
            }
        }
    }
}

/// Cancelled actions may be discarded in several steps.
pub(crate) proof fn lemma_purged_twice(s: Seq<ScheduledAction>, bound: int, wider: int)
    requires
        bound <= wider,
    ensures
        purged(purged(s, bound), wider) == purged(s, wider),
    decreases s.len(),
{
    if s.len() > 0 {
        lemma_purged_twice(s.drop_first(), bound, wider);
    }
}

/// Cancelling all actions with some key leaves actions with another key or without
/// a key as they were.
pub proof fn law_other_actions_are_kept(s: Seq<ScheduledAction>, key: u64, i: int)
    requires
        0 <= i < s.len(),
        s[i].action.key != Some(key),
    ensures
        cancelled(s, key).len() == s.len(),
        cancelled(s, key)[i] == s[i],
{
}

/// Cancelled actions are never performed.
pub proof fn law_cancelled_actions_are_not_performed(
    s: Seq<ScheduledAction>,
    key: u64,
    time: int,
    i: int,
)
    requires
        0 <= i < due(cancelled(s, key), time).len(),
    ensures
        due(cancelled(s, key), time)[i].action.key != Some(key),
{
    let all = cancelled(s, key);
    let is_due = |scheduled: ScheduledAction| scheduled.is_due(time);
    let action = due(all, time)[i];
    all.lemma_filter_pred(is_due, i);
    assert(due(all, time).contains(action));
    all.lemma_filter_contains_rev(is_due, action);
    let j = choose|j: int| 0 <= j < all.len() && all[j] == action;
    assert(all[j] == action);
}

/// A periodic action that is performed is scheduled again one period later,
/// under the same origin.
pub proof fn law_periodic_actions_are_repeated(
    s: Seq<ScheduledAction>,
    performed: Seq<ScheduledAction>,
    i: int,
)
    requires
        0 <= i < performed.len(),
        performed[i].action.period is Some,
    ensures
        rescheduled(s, performed).contains(performed[i].next()->Some_0),
    decreases performed.len(),
{
    let last = performed.last();
    let rest = rescheduled(s, performed.drop_last());
    if i < performed.len() - 1 {
        law_periodic_actions_are_repeated(s, performed.drop_last(), i);
        if last.action.period is Some {
            lemma_inserted_contains(rest, last.next()->Some_0, performed[i].next()->Some_0);
        }
    } else {
        lemma_inserted_contains(rest, last.next()->Some_0, last.next()->Some_0);
    }
}

proof fn lemma_inserted_contains(
    s: Seq<ScheduledAction>,
    new: ScheduledAction,
    item: ScheduledAction,
)
    requires
        item == new || s.contains(item),
    ensures
        inserted(s, new).contains(item),
    decreases s.len(),
{
    let r = inserted(s, new);
    if s.len() == 0 || s.last().precedes(new) {
        if item == new {
            assert(r[s.len() as int] == item);
        } else {
            let i = choose|i: int| 0 <= i < s.len() && s[i] == item;
            assert(r[i] == item);
        }
    } else {
        let rest = s.drop_last();
        lemma_inserted_len(rest, new);
        if item != new && s.last() == item {
            assert(r[s.len() as int] == item);
        } else {
            if item != new {
                let i = choose|i: int| 0 <= i < s.len() && s[i] == item;
                assert(rest[i] == item);
            }
            lemma_inserted_contains(rest, new, item);
            let i = choose|i: int|
                0 <= i < inserted(rest, new).len() && inserted(rest, new)[i] == item;
            assert(r[i] == item);
        }
    }
}

/// The actions with the given origin.
pub open spec fn of_origin(s: Seq<ScheduledAction>, channel_id: usize) -> Seq<Action>
    decreases s.len(),
{
    if s.len() == 0 {
        Seq::empty()
    } else if s.last().channel_id == channel_id {
        of_origin(s.drop_last(), channel_id).push(s.last().action)
    } else {
        of_origin(s.drop_last(), channel_id)
    }
}

proof fn lemma_no_such_origin(s: Seq<ScheduledAction>, channel_id: usize)
    requires
        forall|i: int| 0 <= i < s.len() ==> (#[trigger] s[i]).channel_id != channel_id,
    ensures
        of_origin(s, channel_id) == Seq::<Action>::empty(),
    decreases s.len(),
{
    if s.len() > 0 {
        assert(s.last() == s[s.len() - 1]);
        lemma_no_such_origin(s.drop_last(), channel_id);
    }
}

/// All actions scheduled for the same time with the same origin make up a
/// sequence, in which they are in order.
pub proof fn law_same_origin_same_sequence(s: Seq<ScheduledAction>, time: int, i: int) -> (group:
    int)
    requires
        in_order(s),
        forall|j: int| 0 <= j < s.len() ==> (#[trigger] s[j]).time@ == time,
        0 <= i < s.len(),
    ensures
        0 <= group < grouped(s).len(),
        grouped(s)[group] == of_origin(s, s[i].channel_id),
        group == grouped(s).len() - 1 <==> s[i].channel_id == s.last().channel_id,
    decreases s.len(),
{
    let rest = s.drop_last();
    let last = s.last();
    let channel_id = s[i].channel_id;
    if s.len() == 1 {
        lemma_no_such_origin(rest, channel_id);
        assert(grouped(rest) =~= Seq::<Seq<Action>>::empty());
        assert(of_origin(s, channel_id) =~= seq![last.action]);
        0
    } else {
        let n = s.len() - 2;
        let previous = law_same_origin_same_sequence(rest, time, n);
        assert(s[n].precedes(s[n + 1]));
        if channel_id == last.channel_id {
            if s[n].channel_id != last.channel_id {
                assert forall|j: int| 0 <= j < rest.len() implies (#[trigger] rest[j]).channel_id
                    != channel_id by {
                    if j < n {
                        assert(s[j].precedes(s[n]));
                    }
                }
                lemma_no_such_origin(rest, channel_id);
                assert(of_origin(s, channel_id) =~= seq![last.action]);
            }
            grouped(s).len() - 1
        } else {
            law_same_origin_same_sequence(rest, time, i)
        }
    }
}

/// The sequences hold all actions, and nothing else.
pub proof fn law_sequences_are_complete(s: Seq<ScheduledAction>)
    ensures
        grouped(s).flatten() == s.map_values(|scheduled: ScheduledAction| scheduled.action),
        s.len() > 0 ==> grouped(s).len() > 0,
    decreases s.len(),
{
    let actions = s.map_values(|scheduled: ScheduledAction| scheduled.action);
    grouped(s).lemma_flatten_and_flatten_alt_are_equivalent();
    if s.len() == 0 {
        assert(grouped(s).flatten_alt() =~= actions);
    } else {
        let rest = s.drop_last();
        let groups = grouped(rest);
        let last = s.last().action;
        groups.lemma_flatten_and_flatten_alt_are_equivalent();
        law_sequences_are_complete(rest);
        assert(actions =~= rest.map_values(
            |scheduled: ScheduledAction| scheduled.action,
        ).push(last));
        if s.len() > 1 && s[s.len() - 2].channel_id == s.last().channel_id {
            let updated = groups.last().push(last);
            assert(grouped(s) =~= groups.drop_last().push(updated));
            assert(grouped(s).drop_last() =~= groups.drop_last());
            assert(grouped(s).flatten_alt() =~= groups.drop_last().flatten_alt() + updated);
            assert(groups.flatten_alt() =~= groups.drop_last().flatten_alt() + groups.last());
            assert(grouped(s).flatten_alt() =~= groups.flatten_alt().push(last));
        } else {
            assert(grouped(s).drop_last() =~= groups);
            assert(grouped(s).flatten_alt() =~= groups.flatten_alt().push(last));
        }
    }
}

/// Scheduling an action adds it behind all other actions with the same time and
/// origin. Nothing else changes: at any time and with any origin, the same actions
/// as before are to be performed, in the same order.
pub proof fn law_insertion_adds_one_action(
    s: Seq<ScheduledAction>,
    new: ScheduledAction,
    time: int,
    channel_id: usize,
)
    ensures
        inserted(s, new).filter_map(
            |e: ScheduledAction|
                if e.time@ == time && e.channel_id == channel_id && !e.cancelled {
                    Some(e.action)
                } else {
                    None
                },
        ) == s.filter_map(
            |e: ScheduledAction|
                if e.time@ == time && e.channel_id == channel_id && !e.cancelled {
                    Some(e.action)
                } else {
                    None
                },
        ) + (if new.time@ == time && new.channel_id == channel_id && !new.cancelled {
            seq![new.action]
        } else {
            Seq::empty()
        }),
        inserted(s, new).len() == s.len() + 1,
{
    let inline = |e: ScheduledAction|
        if e.time@ == time && e.channel_id == channel_id && !e.cancelled {
            Some(e.action)
        } else {
            None
        };
    lemma_live_inserted(s, new, time, channel_id);
    lemma_filter_map_same(s, live(time, channel_id), inline);
    lemma_filter_map_same(inserted(s, new), live(time, channel_id), inline);
    lemma_inserted_len(s, new);
}

/// Cancelling a key withdraws all actions with that key and no others: at any time
/// and with any origin, the actions without that key are to be performed, in the
/// same order as before.
pub proof fn law_cancellation_withdraws_actions(
    s: Seq<ScheduledAction>,
    key: u64,
    time: int,
    channel_id: usize,
)
    ensures
        cancelled(s, key).filter_map(
            |e: ScheduledAction|
                if e.time@ == time && e.channel_id == channel_id && !e.cancelled {
                    Some(e.action)
                } else {
                    None
                },
        ) == s.filter_map(
            |e: ScheduledAction|
                if e.time@ == time && e.channel_id == channel_id && !e.cancelled && e.action.key
                    != Some(key) {
                    Some(e.action)
                } else {
                    None
                },
        ),
    decreases s.len(),
{
    let f = |e: ScheduledAction|
        if e.time@ == time && e.channel_id == channel_id && !e.cancelled {
            Some(e.action)
        } else {
            None
        };
    let g = |e: ScheduledAction|
        if e.time@ == time && e.channel_id == channel_id && !e.cancelled && e.action.key != Some(
            key,
        ) {
            Some(e.action)
        } else {
            None
        };
    if s.len() > 0 {
        law_cancellation_withdraws_actions(s.drop_last(), key, time, channel_id);
        let r = cancelled(s, key);
        assert(r.drop_last() =~= cancelled(s.drop_last(), key));
        assert(r.filter_map(f) == s.filter_map(g));
    }
}

/// Scheduled actions are sorted by time, then by origin. The period of periodic actions
/// is never null.
pub proof fn law_sorted(queue: SchedulerQueue, i: int, j: int)
    requires
        queue.wf(),
        0 <= i < j < queue@.len(),
    ensures
        queue@[i].time@ <= queue@[j].time@,
        queue@[i].time@ == queue@[j].time@ ==> queue@[i].channel_id <= queue@[j].channel_id,
        queue@[i].action.period matches Some(period) ==> period@ > 0,
        queue@[j].action.period matches Some(period) ==> period@ > 0,
{
    assert(queue@[i].precedes(queue@[j]));
}

/// The occurrences of a periodic action: the n-th one comes n periods after the
/// first one, with the same origin, and is the same action with the same period and
/// the same key.
pub proof fn law_occurrences(occurrences: Seq<ScheduledAction>, period: Duration, n: int)
    requires
        occurrences.len() > 0,
        occurrences[0].action.period == Some(period),
        // Each occurrence follows from the previous one.
        forall|k: int| #![trigger occurrences[k]]
            0 <= k < occurrences.len() - 1 ==> occurrences[k].time@ + period@ <= max_instant()
                && occurrences[k].next() == Some(occurrences[k + 1]),
        0 <= n < occurrences.len(),
    ensures
        occurrences[n].time@ == occurrences[0].time@ + n * period@,
        occurrences[n].channel_id == occurrences[0].channel_id,
        occurrences[n].cancelled == occurrences[0].cancelled,
        occurrences[n].action.id == occurrences[0].action.id,
        occurrences[n].action.key == occurrences[0].action.key,
        occurrences[n].action.period == Some(period),
    decreases n,
{
    if n > 0 {
        law_occurrences(occurrences, period, n - 1);
        let previous = occurrences[n - 1];
        assert(previous.next() == Some(occurrences[n - 1 + 1]));
        period.lemma_nonnegative();
        previous.time.lemma_earliest();
        MonotonicTime::lemma_at(previous.time@ + period@);
        assert(n * period@ == (n - 1) * period@ + period@) by (nonlinear_arith);
    } else {
        assert(0 * period@ == 0);
    }
}

proof fn lemma_filter_map_same<B>(
    s: Seq<ScheduledAction>,
    f: spec_fn(ScheduledAction) -> Option<B>,
    g: spec_fn(ScheduledAction) -> Option<B>,
)
    requires
        forall|i: int| 0 <= i < s.len() ==> f(#[trigger] s[i]) == g(s[i]),
    ensures
        s.filter_map(f) == s.filter_map(g),
    decreases s.len(),
{
    if s.len() > 0 {
        let rest = s.drop_last();
        assert forall|i: int| 0 <= i < rest.len() implies f(#[trigger] rest[i]) == g(rest[i]) by {
            assert(rest[i] == s[i]);
        }
        lemma_filter_map_same(rest, f, g);
        assert(f(s[s.len() - 1]) == g(s[s.len() - 1]));
    }
}

proof fn lemma_filter_map_none<B>(
    s: Seq<ScheduledAction>,
    f: spec_fn(ScheduledAction) -> Option<B>,
)
    requires
        forall|i: int| 0 <= i < s.len() ==> f(#[trigger] s[i]) is None,
    ensures
        s.filter_map(f) == Seq::<B>::empty(),
    decreases s.len(),
{
    if s.len() > 0 {
        let rest = s.drop_last();
        assert forall|i: int| 0 <= i < rest.len() implies f(#[trigger] rest[i]) is None by {
            assert(rest[i] == s[i]);
        }
        lemma_filter_map_none(rest, f);
        assert(f(s[s.len() - 1]) is None);
    }
}

proof fn lemma_filter_then_map<B>(
    s: Seq<ScheduledAction>,
    p: spec_fn(ScheduledAction) -> bool,
    f: spec_fn(ScheduledAction) -> Option<B>,
    g: spec_fn(ScheduledAction) -> Option<B>,
)
    requires
        forall|i: int|
            0 <= i < s.len() ==> g(#[trigger] s[i]) == (if p(s[i]) {
                f(s[i])
            } else {
                None
            }),
    ensures
        s.filter(p).filter_map(f) == s.filter_map(g),
    decreases s.len(),
{
    reveal(Seq::filter);
    if s.len() > 0 {
        let rest = s.drop_last();
        let last = s[s.len() - 1];
        assert forall|i: int| 0 <= i < rest.len() implies g(#[trigger] rest[i]) == (if p(rest[i]) {
            f(rest[i])
        } else {
            None
        }) by {
            assert(rest[i] == s[i]);
        }
        lemma_filter_then_map(rest, p, f, g);
        assert(g(last) == (if p(last) {
            f(last)
        } else {
            None
        }));
        if p(last) {
            assert(s.filter(p).drop_last() =~= rest.filter(p));
        }
    }
}

/// The action of a scheduled action that was not cancelled, if it has the given
/// time and origin.
spec fn live(time: int, channel_id: usize) -> spec_fn(ScheduledAction) -> Option<Action> {
    |e: ScheduledAction|
        if e.time@ == time && e.channel_id == channel_id && !e.cancelled {
            Some(e.action)
        } else {
            None
        }
}

/// The action of a periodic scheduled action that was not cancelled, if it recurs
/// at the given time with the given origin.
spec fn recurring(time: int, channel_id: usize) -> spec_fn(ScheduledAction) -> Option<Action> {
    |e: ScheduledAction|
        if e.action.period is Some && e.time@ + e.action.period->Some_0@ == time && e.channel_id
            == channel_id && !e.cancelled {
            Some(e.action)
        } else {
            None
        }
}

proof fn lemma_live_inserted(
    s: Seq<ScheduledAction>,
    new: ScheduledAction,
    time: int,
    channel_id: usize,
)
    ensures
        inserted(s, new).filter_map(live(time, channel_id)) == s.filter_map(live(time, channel_id))
            + (if new.time@ == time && new.channel_id == channel_id && !new.cancelled {
            seq![new.action]
        } else {
            Seq::empty()
        }),
    decreases s.len(),
{
    let f = live(time, channel_id);
    let r = inserted(s, new);
    if s.len() == 0 || s.last().precedes(new) {
        assert(r.drop_last() =~= s);
        assert(r.filter_map(f) =~= s.filter_map(f) + (if new.time@ == time && new.channel_id
            == channel_id && !new.cancelled {
            seq![new.action]
        } else {
            Seq::empty()
        }));
    } else {
        lemma_live_inserted(s.drop_last(), new, time, channel_id);
        assert(r.drop_last() =~= inserted(s.drop_last(), new));
        assert(r.last() == s.last());
        assert(r.filter_map(f) =~= s.filter_map(f) + (if new.time@ == time && new.channel_id
            == channel_id && !new.cancelled {
            seq![new.action]
        } else {
            Seq::empty()
        }));
    }
}

proof fn lemma_live_rescheduled(
    s: Seq<ScheduledAction>,
    performed: Seq<ScheduledAction>,
    time: int,
    channel_id: usize,
)
    requires
        forall|i: int|
            0 <= i < performed.len() && (#[trigger] performed[i]).action.period is Some
                ==> performed[i].time@ + performed[i].action.period->Some_0@ <= max_instant(),
    ensures
        rescheduled(s, performed).filter_map(live(time, channel_id)) == s.filter_map(
            live(time, channel_id),
        ) + performed.filter_map(recurring(time, channel_id)),
    decreases performed.len(),
{
    let f = live(time, channel_id);
    let g = recurring(time, channel_id);
    if performed.len() > 0 {
        let others = performed.drop_last();
        let last = performed[performed.len() - 1];
        assert forall|i: int|
            0 <= i < others.len() && (#[trigger] others[i]).action.period is Some implies
            others[i].time@ + others[i].action.period->Some_0@ <= max_instant() by {
            assert(others[i] == performed[i]);
        }
        lemma_live_rescheduled(s, others, time, channel_id);
        if last.action.period is Some {
            let period = last.action.period->Some_0;
            period.lemma_nonnegative();
            last.time.lemma_earliest();
            MonotonicTime::lemma_at(last.time@ + period@);
            lemma_live_inserted(
                rescheduled(s, others),
                last.next()->Some_0,
                time,
                channel_id,
            );
        }
        assert(rescheduled(s, performed).filter_map(f) =~= s.filter_map(f) + performed.filter_map(
            g,
        ));
    } else {
        assert(rescheduled(s, performed).filter_map(f) =~= s.filter_map(f) + performed.filter_map(
            g,
        ));
    }
}

proof fn lemma_live_purged(s: Seq<ScheduledAction>, bound: int, time: int, channel_id: usize)
    ensures
        purged(s, bound).filter_map(live(time, channel_id)) == s.filter_map(live(time, channel_id)),
    decreases s.len(),
{
    if s.len() > 0 && s[0].cancelled && s[0].time@ <= bound {
        lemma_live_purged(s.drop_first(), bound, time, channel_id);
        lemma_filter_map_first(s, live(time, channel_id));
    }
}

proof fn lemma_filter_map_first<B>(
    s: Seq<ScheduledAction>,
    f: spec_fn(ScheduledAction) -> Option<B>,
)
    requires
        s.len() > 0,
        f(s[0]) is None,
    ensures
        s.filter_map(f) == s.drop_first().filter_map(f),
    decreases s.len(),
{
    if s.len() > 1 {
        lemma_filter_map_first(s.drop_last(), f);
        assert(s.drop_last().drop_first() =~= s.drop_first().drop_last());
        assert(s.drop_first().last() == s.last());
    } else {
        assert(s.drop_first() =~= Seq::empty());
        assert(s.drop_last() =~= Seq::empty());
    }
}

/// The next time at which actions are performed, up to a bound, is the earliest time of
/// an action that was not cancelled.
pub proof fn law_next_time(s: Seq<ScheduledAction>, bound: int)
    requires
        in_order(s),
    ensures
        match next_time(s, bound) {
            Some(time) => {
                &&& time <= bound
                &&& exists|i: int|
                    0 <= i < s.len() && (#[trigger] s[i]).time@ == time && !s[i].cancelled
                &&& forall|i: int|
                    0 <= i < s.len() && !(#[trigger] s[i]).cancelled ==> s[i].time@ >= time
            },
            None => forall|i: int|
                0 <= i < s.len() && !(#[trigger] s[i]).cancelled ==> s[i].time@ > bound,
        },
{
    lemma_purged(s, bound);
    let rest = purged(s, bound);
    let n = s.len() - rest.len();
    if rest.len() > 0 {
        assert(rest[0] == s[n]);
        assert forall|i: int| 0 <= i < s.len() && !(#[trigger] s[i]).cancelled implies s[i].time@
            >= s[n].time@ by {
            if i > n {
                assert(s[n].precedes(s[i]));
            }
        }
    }
}

/// What remains to be performed with some origin at some time once a batch was
/// taken: what was there before, then what was performed and recurs at that time.
pub(crate) proof fn lemma_live_after_batch(
    s: Seq<ScheduledAction>,
    bound: int,
    now: int,
    time: int,
    channel_id: usize,
)
    requires
        now < time,
        forall|i: int|
            0 <= i < s.len() && (#[trigger] s[i]).time@ == now && !s[i].cancelled
                && s[i].action.period is Some ==> now + s[i].action.period->Some_0@
                <= max_instant(),
    ensures
        purged(rescheduled(later(s, now), due(s, now)), bound).filter_map(
            |e: ScheduledAction|
                if e.time@ == time && e.channel_id == channel_id && !e.cancelled {
                    Some(e.action)
                } else {
                    None
                },
        ) == s.filter_map(
            |e: ScheduledAction|
                if e.time@ == time && e.channel_id == channel_id && !e.cancelled {
                    Some(e.action)
                } else {
                    None
                },
        ) + s.filter_map(
            |e: ScheduledAction|
                if e.time@ == now && !e.cancelled && e.channel_id == channel_id
                    && e.action.period is Some && now + e.action.period->Some_0@ == time {
                    Some(e.action)
                } else {
                    None
                },
        ),
{
    let f = live(time, channel_id);
    let performed = due(s, now);
    let is_due = |e: ScheduledAction| e.is_due(now);
    let is_later = |e: ScheduledAction| e.time@ > now;
    let again = |e: ScheduledAction|
        if e.time@ == now && !e.cancelled && e.channel_id == channel_id && e.action.period is Some
            && now + e.action.period->Some_0@ == time {
            Some(e.action)
        } else {
            None
        };
    let inline = |e: ScheduledAction|
        if e.time@ == time && e.channel_id == channel_id && !e.cancelled {
            Some(e.action)
        } else {
            None
        };
    assert forall|i: int|
        0 <= i < performed.len() && (#[trigger] performed[i]).action.period is Some implies
        performed[i].time@ + performed[i].action.period->Some_0@ <= max_instant() by {
        s.lemma_filter_pred(is_due, i);
        assert(performed.contains(performed[i]));
        s.lemma_filter_contains_rev(is_due, performed[i]);
        let j = choose|j: int| 0 <= j < s.len() && s[j] == performed[i];
        assert(s[j].time@ == now);
    }
    let all = rescheduled(later(s, now), performed);
    lemma_live_purged(all, bound, time, channel_id);
    lemma_live_rescheduled(later(s, now), performed, time, channel_id);
    lemma_filter_then_map(s, is_later, f, f);
    lemma_filter_then_map(s, is_due, recurring(time, channel_id), again);
    lemma_filter_map_same(purged(all, bound), f, inline);
    lemma_filter_map_same(s, f, inline);
}

/// Purging leaves what is to be performed as it is.
pub(crate) proof fn lemma_live_left(
    s: Seq<ScheduledAction>,
    bound: int,
    time: int,
    channel_id: usize,
)
    ensures
        purged(s, bound).filter_map(
            |e: ScheduledAction|
                if e.time@ == time && e.channel_id == channel_id && !e.cancelled {
                    Some(e.action)
                } else {
                    None
                },
        ) == s.filter_map(
            |e: ScheduledAction|
                if e.time@ == time && e.channel_id == channel_id && !e.cancelled {
                    Some(e.action)
                } else {
                    None
                },
        ),
{
    let inline = |e: ScheduledAction|
        if e.time@ == time && e.channel_id == channel_id && !e.cancelled {
            Some(e.action)
        } else {
            None
        };
    lemma_live_purged(s, bound, time, channel_id);
    lemma_filter_map_same(s, live(time, channel_id), inline);
    lemma_filter_map_same(purged(s, bound), live(time, channel_id), inline);
}

/// Purging keeps actions that were not cancelled.
pub(crate) proof fn lemma_kept_by_purge(
    s: Seq<ScheduledAction>,
    bound: int,
    item: ScheduledAction,
)
    requires
        s.contains(item),
        !item.cancelled,
    ensures
        purged(s, bound).contains(item),
{
    lemma_purged(s, bound);
    let i = choose|i: int| 0 <= i < s.len() && s[i] == item;
    let n = s.len() - purged(s, bound).len();
    assert(s[i] == item);
    assert(purged(s, bound)[i - n] == item);
}

/// What is performed when a batch is taken.
pub(crate) proof fn lemma_performed(s: Seq<ScheduledAction>, now: int, channel_id: usize)
    requires
        in_order(s),
    ensures
        grouped(due(s, now)).flatten() == s.filter_map(
            |e: ScheduledAction|
                if e.time@ == now && !e.cancelled {
                    Some(e.action)
                } else {
                    None
                },
        ),
        ({
            let own = s.filter_map(
                |e: ScheduledAction|
                    if e.time@ == now && !e.cancelled && e.channel_id == channel_id {
                        Some(e.action)
                    } else {
                        None
                    },
            );
            own.len() > 0 ==> grouped(due(s, now)).contains(own)
        }),
        forall|g: int|
            0 <= g < grouped(due(s, now)).len() ==> (#[trigger] grouped(due(s, now))[g]).len() > 0,
{
    let performed = due(s, now);
    let is_due = |e: ScheduledAction| e.is_due(now);
    let all = |e: ScheduledAction|
        if e.time@ == now && !e.cancelled {
            Some(e.action)
        } else {
            None
        };
    let own = |e: ScheduledAction|
        if e.time@ == now && !e.cancelled && e.channel_id == channel_id {
            Some(e.action)
        } else {
            None
        };
    law_sequences_are_complete(performed);
    lemma_map_all(performed);
    lemma_filter_then_map(s, is_due, |e: ScheduledAction| Some(e.action), all);
    lemma_of_origin(performed, channel_id);
    lemma_filter_then_map(
        s,
        is_due,
        |e: ScheduledAction|
            if e.channel_id == channel_id {
                Some(e.action)
            } else {
                None
            },
        own,
    );
    lemma_due_in_order(s, now);
    if of_origin(performed, channel_id).len() > 0 {
        lemma_some_of_origin(performed, channel_id);
        let i = choose|i: int|
            0 <= i < performed.len() && (#[trigger] performed[i]).channel_id == channel_id;
        let group = law_same_origin_same_sequence(performed, now, i);
        assert(grouped(performed)[group] == of_origin(performed, channel_id));
    }
    lemma_groups_are_not_empty(performed);
}

proof fn lemma_groups_are_not_empty(s: Seq<ScheduledAction>)
    ensures
        forall|g: int| 0 <= g < grouped(s).len() ==> (#[trigger] grouped(s)[g]).len() > 0,
        s.len() > 0 ==> grouped(s).len() > 0,
    decreases s.len(),
{
    if s.len() > 0 {
        lemma_groups_are_not_empty(s.drop_last());
        let groups = grouped(s.drop_last());
        assert forall|g: int| 0 <= g < grouped(s).len() implies (
        #[trigger] grouped(s)[g]).len() > 0 by {
            if g < groups.len() {
                assert(groups[g].len() > 0);
            }
        }
    }
}

proof fn lemma_map_all(s: Seq<ScheduledAction>)
    ensures
        s.map_values(|e: ScheduledAction| e.action) == s.filter_map(
            |e: ScheduledAction| Some(e.action),
        ),
    decreases s.len(),
{
    let all = s.map_values(|e: ScheduledAction| e.action);
    if s.len() > 0 {
        lemma_map_all(s.drop_last());
        assert(all =~= s.drop_last().map_values(|e: ScheduledAction| e.action).push(
            s.last().action,
        ));
        assert(all =~= s.filter_map(|e: ScheduledAction| Some(e.action)));
    } else {
        assert(all =~= s.filter_map(|e: ScheduledAction| Some(e.action)));
    }
}

proof fn lemma_of_origin(s: Seq<ScheduledAction>, channel_id: usize)
    ensures
        of_origin(s, channel_id) == s.filter_map(
            |e: ScheduledAction|
                if e.channel_id == channel_id {
                    Some(e.action)
                } else {
                    None
                },
        ),
    decreases s.len(),
{
    if s.len() > 0 {
        lemma_of_origin(s.drop_last(), channel_id);
        assert(of_origin(s, channel_id) =~= s.filter_map(
            |e: ScheduledAction|
                if e.channel_id == channel_id {
                    Some(e.action)
                } else {
                    None
                },
        ));
    }
}

proof fn lemma_some_of_origin(s: Seq<ScheduledAction>, channel_id: usize)
    requires
        of_origin(s, channel_id).len() > 0,
    ensures
        exists|i: int| 0 <= i < s.len() && (#[trigger] s[i]).channel_id == channel_id,
    decreases s.len(),
{
    if s.last().channel_id == channel_id {
        assert(s[s.len() - 1].channel_id == channel_id);
    } else {
        lemma_some_of_origin(s.drop_last(), channel_id);
        let i = choose|i: int|
            0 <= i < s.drop_last().len() && (#[trigger] s.drop_last()[i]).channel_id == channel_id;
        assert(s[i].channel_id == channel_id);
    }
}

proof fn lemma_due_in_order(s: Seq<ScheduledAction>, time: int)
    requires
        in_order(s),
    ensures
        in_order(due(s, time)),
        forall|j: int| 0 <= j < due(s, time).len() ==> (#[trigger] due(s, time)[j]).time@ == time,
    decreases s.len(),
{
    reveal(Seq::filter);
    if s.len() > 0 {
        let rest = s.drop_last();
        let last = s[s.len() - 1];
        let is_due = |e: ScheduledAction| e.is_due(time);
        assert(in_order(rest)) by {
            assert forall|i: int, j: int| 0 <= i < j < rest.len() implies (
            #[trigger] rest[i]).precedes(#[trigger] rest[j]) by {
                assert(s[i].precedes(s[j]));
            }
        }
        lemma_due_in_order(rest, time);
        let r = due(s, time);
        if last.is_due(time) {
            assert forall|i: int, j: int| 0 <= i < j < r.len() implies (
            #[trigger] r[i]).precedes(#[trigger] r[j]) by {
                if j == r.len() - 1 {
                    let e = due(rest, time)[i];
                    assert(due(rest, time).contains(e));
                    rest.lemma_filter_contains_rev(is_due, e);
                    let k = choose|k: int| 0 <= k < rest.len() && rest[k] == e;
                    assert(s[k].precedes(s[s.len() - 1]));
                } else {
                    assert(due(rest, time)[i].precedes(due(rest, time)[j]));
                }
            }
        }
    }
}

/// The actions to be performed at some time are exactly those scheduled for that time that
/// were not cancelled, in the same order, whatever they are. Each of them occurs in one
/// of the sequences that are performed.
pub proof fn law_due_actions(s: Seq<ScheduledAction>, time: int, i: int)
    requires
        0 <= i < s.len(),
    ensures
        due(s, time) == s.filter(|e: ScheduledAction| e.time@ == time && !e.cancelled),
        due(s, time).contains(s[i]) <==> s[i].time@ == time && !s[i].cancelled,
        s[i].time@ == time && !s[i].cancelled ==> exists|g: int, k: int|
            #![trigger grouped(due(s, time))[g][k]]
            0 <= g < grouped(due(s, time)).len() && 0 <= k < grouped(due(s, time))[g].len()
                && grouped(due(s, time))[g][k] == s[i].action,
{
    broadcast use vstd::seq_lib::group_filter_ensures;

    let all = due(s, time);
    lemma_filter_same(
        s,
        |e: ScheduledAction| e.is_due(time),
        |e: ScheduledAction| e.time@ == time && !e.cancelled,
    );
    if s[i].time@ == time && !s[i].cancelled {
        assert(s[i].is_due(time));
        assert(all.contains(s[i]));
        let j = choose|j: int| 0 <= j < all.len() && all[j] == s[i];
        lemma_in_some_group(all, j);
    }
    if all.contains(s[i]) {
        let j = choose|j: int| 0 <= j < all.len() && all[j] == s[i];
        assert(s[i].is_due(time));
    }
}

proof fn lemma_filter_same(
    s: Seq<ScheduledAction>,
    p: spec_fn(ScheduledAction) -> bool,
    q: spec_fn(ScheduledAction) -> bool,
)
    requires
        forall|e: ScheduledAction| #[trigger] p(e) == q(e),
    ensures
        s.filter(p) == s.filter(q),
    decreases s.len(),
{
    reveal(Seq::filter);
    if s.len() > 0 {
        lemma_filter_same(s.drop_last(), p, q);
        assert(p(s.last()) == q(s.last()));
    }
}

proof fn lemma_in_some_group(s: Seq<ScheduledAction>, i: int)
    requires
        0 <= i < s.len(),
    ensures
        exists|g: int, k: int|
            #![trigger grouped(s)[g][k]]
            0 <= g < grouped(s).len() && 0 <= k < grouped(s)[g].len() && grouped(s)[g][k]
                == s[i].action,
    decreases s.len(),
{
    let rest = s.drop_last();
    let groups = grouped(rest);
    let all = grouped(s);
    lemma_groups_are_not_empty(rest);
    let joined = s.len() > 1 && s[s.len() - 2].channel_id == s.last().channel_id;
    if i == s.len() - 1 {
        let g = all.len() - 1;
        let k = all[g].len() - 1;
        assert(all[g][k] == s[i].action);
    } else {
        lemma_in_some_group(rest, i);
        let (g, k) = choose|g: int, k: int|
            #![trigger groups[g][k]]
            0 <= g < groups.len() && 0 <= k < groups[g].len() && groups[g][k] == rest[i].action;
        assert(all[g][k] == s[i].action);
    }
}

/// Actions scheduled after some time are exactly those with a later time, in the same
/// order.
pub proof fn law_later_actions(s: Seq<ScheduledAction>, time: int, i: int)
    requires
        0 <= i < s.len(),
    ensures
        later(s, time) == s.filter(|e: ScheduledAction| e.time@ > time),
        later(s, time).contains(s[i]) <==> s[i].time@ > time,
{
    broadcast use vstd::seq_lib::group_filter_ensures;

    let all = later(s, time);
    if s[i].time@ > time {
        assert(all.contains(s[i]));
    }
    if all.contains(s[i]) {
        let j = choose|j: int| 0 <= j < all.len() && all[j] == s[i];
        assert(all[j].time@ > time);
    }
}

/// An action that is performed comes again one period later if it is periodic: the very
/// same action, with its number, its key and its period, and with the same origin.
///
/// Its place among the scheduled actions is returned.
pub proof fn law_rescheduling(
    s: Seq<ScheduledAction>,
    performed: Seq<ScheduledAction>,
    i: int,
    period: Duration,
) -> (j: int)
    requires
        0 <= i < performed.len(),
        performed[i].action.period == Some(period),
        performed[i].time@ + period@ <= max_instant(),
    ensures
        0 <= j < rescheduled(s, performed).len(),
        rescheduled(s, performed)[j].time@ == performed[i].time@ + period@,
        rescheduled(s, performed)[j].channel_id == performed[i].channel_id,
        rescheduled(s, performed)[j].cancelled == performed[i].cancelled,
        rescheduled(s, performed)[j].action.id == performed[i].action.id,
        rescheduled(s, performed)[j].action.key == performed[i].action.key,
        rescheduled(s, performed)[j].action.period == Some(period),
{
    let all = rescheduled(s, performed);
    law_periodic_actions_are_repeated(s, performed, i);
    performed[i].time.lemma_earliest();
    period.lemma_nonnegative();
    MonotonicTime::lemma_at(performed[i].time@ + period@);
    let next = performed[i].next()->Some_0;
    choose|j: int| 0 <= j < all.len() && all[j] == next
}

/// Actions can be repeated up to a bound unless one of the next actions to be performed
/// would recur after the latest instant.
pub proof fn law_repeatable(s: Seq<ScheduledAction>, bound: int)
    ensures
        repeatable(s, bound) <==> match next_time(s, bound) {
            Some(time) => forall|i: int|
                0 <= i < s.len() && (#[trigger] s[i]).time@ == time && !s[i].cancelled
                    && s[i].action.period is Some ==> time + s[i].action.period->Some_0@ <= i64::MAX
                    * 1_000_000_000 + 999_999_999,
            None => true,
        },
{
    if let Some(time) = next_time(s, bound) {
        if forall|i: int|
            0 <= i < s.len() && (#[trigger] s[i]).time@ == time && !s[i].cancelled
                && s[i].action.period is Some ==> time + s[i].action.period->Some_0@ <= i64::MAX
                * 1_000_000_000 + 999_999_999 {
            assert forall|i: int|
                0 <= i < s.len() && (#[trigger] s[i]).is_due(time) implies s[i].can_repeat() by {}
        }
    }
}

/// Discarding cancelled actions keeps all others, in order.
pub proof fn law_purging(s: Seq<ScheduledAction>, bound: int)
    ensures
        purged(s, bound).filter(|e: ScheduledAction| !e.cancelled) == s.filter(
            |e: ScheduledAction| !e.cancelled,
        ),
        purged(s, bound).len() <= s.len(),
{
    let p = |e: ScheduledAction| !e.cancelled;
    lemma_purged(s, bound);
    let count = s.len() - purged(s, bound).len();
    let first = s.take(count);
    assert(s =~= first + purged(s, bound));
    assert forall|i: int| 0 <= i < first.len() implies !p(#[trigger] first[i]) by {
        assert(s[i].cancelled);
    }
    lemma_filter_none(first, p);
    Seq::filter_distributes_over_add(first, purged(s, bound), p);
    assert(first.filter(p) + purged(s, bound).filter(p) =~= purged(s, bound).filter(p));
}

} // verus!
