//! Simulation time.
//!
//! Instants are TAI timestamps with nanosecond resolution. In contracts an
//! instant stands for its signed count of nanoseconds since the epoch
//! (1970-01-01 00:00:00 TAI) and a duration for its count of nanoseconds.

use vstd::prelude::*;

verus! {

/// Number of nanoseconds in a second.
pub const NANOS_PER_SEC: u32 = 1_000_000_000;

/// A span of time between two instants.
#[derive(Clone, Copy, Debug, PartialEq, Eq, Structural)]
pub struct Duration {
    secs: u64,
    nanos: u32,
}

impl View for Duration {
    type V = int;

    /// The length of the span, in nanoseconds.
    closed spec fn view(&self) -> int {
        self.secs * NANOS_PER_SEC + self.nanos
    }
}

impl Duration {
    /// The sub-second part is less than a whole second.
    #[verifier::type_invariant]
    pub closed spec fn wf(self) -> bool {
        self.nanos < NANOS_PER_SEC
    }

    /// No duration is negative.
    pub proof fn lemma_nonnegative(self)
        ensures
            self@ >= 0,
    {
    }

    /// Creates a duration from a count of seconds and a count of nanoseconds,
    /// carrying whole seconds over from the latter.
    ///
    /// The total must not exceed the longest representable duration.
    pub fn new(secs: u64, nanos: u32) -> (d: Self)
        requires
            secs + nanos / NANOS_PER_SEC <= u64::MAX,
        ensures
            d@ == secs * NANOS_PER_SEC + nanos,
            d.wf(),
    {
        Duration { secs: secs + (nanos / NANOS_PER_SEC) as u64, nanos: nanos % NANOS_PER_SEC }
    }

    /// The null duration.
    pub fn zero() -> (d: Self)
        ensures
            d@ == 0,
            d.wf(),
    {
        Duration { secs: 0, nanos: 0 }
    }

    /// Number of whole seconds.
    pub fn as_secs(&self) -> (secs: u64)
        ensures
            secs == self@ / (NANOS_PER_SEC as int),
    {
        proof {
            use_type_invariant(self);
        }
        self.secs
    }

    /// Number of nanoseconds beyond the last whole second.
    pub fn subsec_nanos(&self) -> (nanos: u32)
        ensures
            nanos == self@ % (NANOS_PER_SEC as int),
            nanos < NANOS_PER_SEC,
    {
        proof {
            use_type_invariant(self);
        }
        self.nanos
    }

    /// Whether the duration is null.
    pub fn is_zero(&self) -> (r: bool)
        ensures
            r == (self@ == 0),
    {
        self.secs == 0 && self.nanos == 0
    }

    /// Whether this duration is longer than another one.
    pub fn exceeds(&self, other: &Duration) -> (r: bool)
        ensures
            r == (self@ > other@),
    {
        proof {
            use_type_invariant(self);
            use_type_invariant(other);
        }
        self.secs > other.secs || (self.secs == other.secs && self.nanos > other.nanos)
    }
}

/// The earliest instant that can be represented.
pub open spec fn min_instant() -> int {
    i64::MIN * NANOS_PER_SEC
}

/// The latest instant that can be represented.
pub open spec fn max_instant() -> int {
    i64::MAX * NANOS_PER_SEC + NANOS_PER_SEC - 1
}

/// Builds a timestamp from its parts with `tai_time::MonotonicTime::new` and
/// returns the parts that it holds.
///
/// The timestamp exists if and only if the nanosecond part is less than a
/// second, and then holds the two parts unchanged.
#[verifier::external_body]
fn tai_time_new(secs: i64, nanos: u32) -> (parts: Option<(i64, u32)>)
    ensures
        parts is Some <==> nanos < NANOS_PER_SEC,
        parts is Some ==> parts->Some_0 == (secs, nanos),
{
    let time = tai_time::MonotonicTime::new(secs, nanos)?;
    Some((time.as_secs(), time.subsec_nanos()))
}

/// Adds a duration to a timestamp with `tai_time::MonotonicTime::checked_add`
/// and returns the parts of the sum.
///
/// The sum exists if and only if it does not lie after the latest timestamp,
/// and is then exact.
#[verifier::external_body]
fn tai_time_checked_add(time: (i64, u32), secs: u64, nanos: u32) -> (sum: Option<(i64, u32)>)
    requires
        time.1 < NANOS_PER_SEC,
        nanos < NANOS_PER_SEC,
    ensures
        sum is Some <==> (time.0 + secs) * NANOS_PER_SEC + time.1 + nanos <= max_instant(),
        sum is Some ==> {
            &&& sum->Some_0.1 < NANOS_PER_SEC
            &&& sum->Some_0.0 * NANOS_PER_SEC + sum->Some_0.1 == (time.0 + secs) * NANOS_PER_SEC
                + time.1 + nanos
        },
{
    let start = tai_time::MonotonicTime::new(time.0, time.1)?;
    let sum = start.checked_add(std::time::Duration::new(secs, nanos))?;
    Some((sum.as_secs(), sum.subsec_nanos()))
}

/// The text that `tai_time` displays for the timestamp with the given parts.
pub uninterp spec fn tai_time_text(secs: i64, nanos: u32) -> Seq<char>;

/// Displays a timestamp with the `Display` implementation of
/// `tai_time::MonotonicTime`.
///
/// The text depends on nothing but the two parts; the format itself, an
/// RFC 3339-like date and time, is left unsaid.
#[verifier::external_body]
fn tai_time_display(secs: i64, nanos: u32) -> (text: String)
    requires
        nanos < NANOS_PER_SEC,
    ensures
        text@ == tai_time_text(secs, nanos),
{
    match tai_time::MonotonicTime::new(secs, nanos) {
        Some(time) => format!("{}", time),
        None => String::new(),
    }
}

/// The text that the standard library prints for the debug representation of
/// the duration with the given parts.
pub uninterp spec fn std_duration_text(secs: u64, nanos: u32) -> Seq<char>;

/// Prints a duration with the `Debug` implementation of
/// `std::time::Duration`.
///
/// The text depends on nothing but the two parts; the choice of unit and
/// decimals is left unsaid.
#[verifier::external_body]
fn std_duration_debug(secs: u64, nanos: u32) -> (text: String)
    requires
        nanos < NANOS_PER_SEC,
    ensures
        text@ == std_duration_text(secs, nanos),
{
    format!("{:?}", std::time::Duration::new(secs, nanos))
}

impl Duration {
    /// The text of the debug representation of this duration.
    pub open spec fn text(self) -> Seq<char> {
        std_duration_text(
            (self@ / (NANOS_PER_SEC as int)) as u64,
            (self@ % (NANOS_PER_SEC as int)) as u32,
        )
    }

    /// Prints the debug representation of this duration.
    pub fn to_text(&self) -> (text: String)
        ensures
            text@ == self.text(),
    {
        std_duration_debug(self.as_secs(), self.subsec_nanos())
    }
}

/// A TAI timestamp.
#[derive(Clone, Copy, Debug, PartialEq, Eq, Structural)]
pub struct MonotonicTime {
    secs: i64,
    nanos: u32,
}

impl View for MonotonicTime {
    type V = int;

    /// The number of nanoseconds elapsed since the epoch.
    closed spec fn view(&self) -> int {
        self.secs * NANOS_PER_SEC + self.nanos
    }
}

impl MonotonicTime {
    /// The sub-second part is less than a whole second.
    #[verifier::type_invariant]
    pub closed spec fn wf(self) -> bool {
        self.nanos < NANOS_PER_SEC
    }

    /// The timestamp that lies at the given instant.
    pub closed spec fn at(instant: int) -> Self {
        MonotonicTime {
            secs: (instant / (NANOS_PER_SEC as int)) as i64,
            nanos: (instant % (NANOS_PER_SEC as int)) as u32,
        }
    }

    /// No timestamp lies before the earliest instant.
    pub proof fn lemma_earliest(self)
        ensures
            min_instant() <= self@,
    {
    }

    /// No timestamp lies after the latest instant.
    pub proof fn lemma_latest(self)
        requires
            self.wf(),
        ensures
            self@ <= max_instant(),
    {
    }

    /// Every instant that can be represented has its timestamp.
    pub proof fn lemma_at(instant: int)
        requires
            min_instant() <= instant <= max_instant(),
        ensures
            Self::at(instant)@ == instant,
            Self::at(instant).wf(),
    {
    }

    /// A timestamp is the one at its instant.
    pub proof fn lemma_at_own_instant(self)
        requires
            self.wf(),
        ensures
            Self::at(self@) == self,
    {
    }

    /// Two timestamps that lie at the same instant are equal.
    pub proof fn lemma_view_is_injective(self, other: Self)
        requires
            self.wf(),
            other.wf(),
            self@ == other@,
        ensures
            self == other,
    {
    }

    /// Creates a timestamp from its parts, unless the number of nanoseconds
    /// amounts to a second or more.
    pub fn new(secs: i64, subsec_nanos: u32) -> (time: Option<Self>)
        ensures
            time is Some <==> subsec_nanos < NANOS_PER_SEC,
            time is Some ==> time->Some_0@ == secs * NANOS_PER_SEC + subsec_nanos
                && time->Some_0.wf(),
    {
        match tai_time_new(secs, subsec_nanos) {
            Some(parts) => Some(MonotonicTime { secs: parts.0, nanos: parts.1 }),
            None => None,
        }
    }

    /// The epoch.
    pub fn epoch() -> (time: Self)
        ensures
            time@ == 0,
            time.wf(),
    {
        MonotonicTime { secs: 0, nanos: 0 }
    }

    /// The latest timestamp.
    pub fn max() -> (time: Self)
        ensures
            time@ == max_instant(),
            time.wf(),
    {
        MonotonicTime { secs: i64::MAX, nanos: NANOS_PER_SEC - 1 }
    }

    /// Number of whole seconds since the epoch, rounded towards the past.
    pub fn as_secs(&self) -> (secs: i64)
        ensures
            secs == self@ / (NANOS_PER_SEC as int),
    {
        proof {
            use_type_invariant(self);
        }
        self.secs
    }

    /// Number of nanoseconds beyond the last whole second.
    pub fn subsec_nanos(&self) -> (nanos: u32)
        ensures
            nanos == self@ % (NANOS_PER_SEC as int),
            nanos < NANOS_PER_SEC,
    {
        proof {
            use_type_invariant(self);
        }
        self.nanos
    }

    /// Adds a duration, unless the sum lies beyond the latest timestamp.
    pub fn checked_add(&self, duration: &Duration) -> (sum: Option<Self>)
        ensures
            sum is Some <==> self@ + duration@ <= max_instant(),
            sum is Some ==> sum->Some_0@ == self@ + duration@ && sum->Some_0.wf(),
            sum is Some ==> sum->Some_0 == Self::at(self@ + duration@),
    {
        proof {
            use_type_invariant(self);
            use_type_invariant(duration);
        }
        match tai_time_checked_add((self.secs, self.nanos), duration.secs, duration.nanos) {
            Some(parts) => Some(MonotonicTime { secs: parts.0, nanos: parts.1 }),
            None => None,
        }
    }

    /// Whether this timestamp lies before another one.
    pub fn lt(&self, other: &Self) -> (r: bool)
        ensures
            r == (self@ < other@),
    {
        proof {
            use_type_invariant(self);
            use_type_invariant(other);
        }
        self.secs < other.secs || (self.secs == other.secs && self.nanos < other.nanos)
    }

    /// Whether this timestamp lies before or at another one.
    pub fn le(&self, other: &Self) -> (r: bool)
        ensures
            r == (self@ <= other@),
    {
        !other.lt(self)
    }

    /// Whether two timestamps lie at the same instant.
    pub fn same(&self, other: &Self) -> (r: bool)
        ensures
            r == (self@ == other@),
            r == (*self == *other),
    {
        proof {
            use_type_invariant(self);
            use_type_invariant(other);
        }
        self.secs == other.secs && self.nanos == other.nanos
    }

    /// The text that displays this timestamp.
    pub open spec fn text(self) -> Seq<char> {
        tai_time_text(
            (self@ / (NANOS_PER_SEC as int)) as i64,
            (self@ % (NANOS_PER_SEC as int)) as u32,
        )
    }

    /// Displays this timestamp.
    pub fn to_text(&self) -> (text: String)
        ensures
            text@ == self.text(),
    {
        tai_time_display(self.as_secs(), self.subsec_nanos())
    }
}

/// Instants range over all counts of seconds that 64 bits can hold and all
/// nanoseconds within each second.
pub proof fn law_limits()
    ensures
        min_instant() == -9_223_372_036_854_775_808 * 1_000_000_000,
        max_instant() == 9_223_372_036_854_775_807 * 1_000_000_000 + 999_999_999,
{
}

/// The text of an instant or of a duration tells its whole seconds and its
/// nanoseconds beyond the last whole second.
pub proof fn law_texts(time: MonotonicTime, duration: Duration, secs: i64, length: u64, nanos: u32)
    requires
        nanos < 1_000_000_000,
        time@ == secs * 1_000_000_000 + nanos,
        duration@ == length * 1_000_000_000 + nanos,
    ensures
        time.text() == tai_time_text(secs, nanos),
        duration.text() == std_duration_text(length, nanos),
{
}

/// The state of synchronization of a clock.
#[derive(Clone, Copy, Debug, PartialEq, Eq, Structural)]
pub enum SyncStatus {
    /// The clock is synchronized.
    Synchronized,
    /// The deadline has already elapsed and lags behind the current clock time
    /// by the duration given in the payload.
    OutOfSync(Duration),
}

} // verus!
