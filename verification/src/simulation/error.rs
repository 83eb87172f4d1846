//! Errors returned by the simulation.

use vstd::prelude::*;
use vstd::string::StringExecFns;

use super::scheduler::SchedulingError;
use crate::time::{Duration, MonotonicTime};
use crate::util::text::{decimal, decimal_text};

verus! {

/// Information regarding a deadlocked model.
#[derive(Clone, Debug, PartialEq, Eq, Hash)]
pub struct DeadlockInfo {
    /// The fully qualified name of a deadlocked model.
    ///
    /// This is the name of the model, if relevant prepended by the
    /// dot-separated names of all parent models.
    pub model: String,
    /// Number of messages in the mailbox.
    pub mailbox_size: usize,
}

impl DeadlockInfo {
    /// The description of a deadlocked model.
    pub open spec fn text(self) -> Seq<char> {
        "'"@ + self.model@ + "' ("@ + decimal(self.mailbox_size as nat) + (if self.mailbox_size
            == 1 {
            " item in mailbox)"@
        } else {
            " items in mailbox)"@
        })
    }

    /// Describes a deadlocked model.
    pub fn to_text(&self) -> (text: String)
        ensures
            text@ == self.text(),
    {
        let mut text = "'".to_owned();
        text.append(self.model.as_str());
        text.append("' (");
        text.append(decimal_text(self.mailbox_size).as_str());
        text.append(
            if self.mailbox_size == 1 {
                " item in mailbox)"
            } else {
                " items in mailbox)"
            },
        );
        text
    }
}

/// The payload of a panic.
#[derive(Debug, PartialEq, Eq, Hash)]
pub struct PanicPayload {
    /// Designates the payload.
    pub id: u64,
    /// The message of the panic, if its payload is a string.
    pub message: Option<String>,
}

/// An error returned upon simulation execution failure.
#[derive(Debug)]
pub enum ExecutionError {
    /// The simulation has been terminated due to an earlier deadlock, model
    /// panic, timeout or synchronization loss.
    Terminated,
    /// The simulation has deadlocked due to the enlisted models.
    ///
    /// This is a fatal error: any subsequent attempt to run the simulation will
    /// return an [`ExecutionError::Terminated`] error.
    Deadlock(Vec<DeadlockInfo>),
    /// A panic was caught during execution.
    ///
    /// This is a fatal error: any subsequent attempt to run the simulation will
    /// return an [`ExecutionError::Terminated`] error.
    Panic {
        /// The fully qualified name of the panicking model.
        ///
        /// The fully qualified name is made of the unqualified model name, if
        /// relevant prepended by the dot-separated names of all parent models.
        model: String,
        /// The payload associated with the panic.
        payload: PanicPayload,
    },
    /// The simulation step has failed to complete within the allocated time.
    ///
    /// This is a fatal error: any subsequent attempt to run the simulation will
    /// return an [`ExecutionError::Terminated`] error.
    Timeout,
    /// The simulation has lost synchronization with the clock and lags behind
    /// by the duration given in the payload.
    ///
    /// This is a fatal error: any subsequent attempt to run the simulation will
    /// return an [`ExecutionError::Terminated`] error.
    OutOfSync(Duration),
    /// The query did not obtain a response because the mailbox targeted by the
    /// query was not found in the simulation.
    ///
    /// This is a non-fatal error.
    BadQuery,
    /// The specified simulation deadline is in the past of the current
    /// simulation time.
    ///
    /// This is a non-fatal error.
    InvalidDeadline(MonotonicTime),
}

/// The descriptions of deadlocked models, separated by commas.
pub open spec fn deadlock_text(list: Seq<DeadlockInfo>) -> Seq<char>
    decreases list.len(),
{
    if list.len() == 0 {
        Seq::empty()
    } else if list.len() == 1 {
        list[0].text()
    } else {
        deadlock_text(list.drop_last()) + ", "@ + list.last().text()
    }
}

impl ExecutionError {
    /// Whether the simulation cannot be run any longer.
    pub open spec fn is_fatal(self) -> bool {
        !(self is BadQuery || self is InvalidDeadline)
    }

    /// The description of the error.
    pub open spec fn text(self) -> Seq<char> {
        match self {
            ExecutionError::Terminated => "the simulation has been terminated"@,
            ExecutionError::Deadlock(list) =>
            "a simulation deadlock has been detected that involves the following models: "@
                + deadlock_text(list@),
            ExecutionError::Panic { model, payload } => match payload.message {
                Some(message) => "model '"@ + model@ + "' has panicked with the message: '"@
                    + message@ + "'"@,
                None => "model '"@ + model@ + "' has panicked"@,
            },
            ExecutionError::Timeout =>
            "the simulation step has failed to complete within the allocated time"@,
            ExecutionError::OutOfSync(lag) =>
            "the simulation has lost synchronization and lags behind the clock by '"@ + lag.text()
                + "'"@,
            ExecutionError::BadQuery =>
            "the query did not return any response; was the target mailbox added to the simulation?"@,
            ExecutionError::InvalidDeadline(time) => "the specified deadline ("@ + time.text()
                + ") lies in the past of the current simulation time"@,
        }
    }

    /// Describes the error.
    pub fn to_text(&self) -> (text: String)
        ensures
            text@ == self.text(),
    {
        match self {
            ExecutionError::Terminated => "the simulation has been terminated".to_owned(),
            ExecutionError::Deadlock(list) => {
                let mut text =
                    "a simulation deadlock has been detected that involves the following models: ".to_owned();
                let ghost start = text@;
                proof {
                    assert(deadlock_text(list@.take(0)) =~= Seq::<char>::empty());
                }
                let mut i: usize = 0;
                while i < list.len()
                    invariant
                        i <= list@.len(),
                        text@ =~= start + deadlock_text(list@.take(i as int)),
                    decreases list@.len() - i,
                {
                    proof {
                        let listed = list@.take(i + 1);
                        assert(listed.drop_last() =~= list@.take(i as int));
                        assert(listed.last() == list@[i as int]);
                        if i == 0 {
                            assert(deadlock_text(list@.take(0)) =~= Seq::<char>::empty());
                        }
                    }
                    if i > 0 {
                        text.append(", ");
                    }
                    text.append(list[i].to_text().as_str());
                    i = i + 1;
                }
                assert(list@.take(i as int) =~= list@);
                text
            },
            ExecutionError::Panic { model, payload } => {
                let mut text = "model '".to_owned();
                text.append(model.as_str());
                match &payload.message {
                    Some(message) => {
                        text.append("' has panicked with the message: '");
                        text.append(message.as_str());
                        text.append("'");
                    },
                    None => {
                        text.append("' has panicked");
                    },
                }
                text
            },
            ExecutionError::Timeout =>
            "the simulation step has failed to complete within the allocated time".to_owned(),
            ExecutionError::OutOfSync(lag) => {
                let mut text =
                    "the simulation has lost synchronization and lags behind the clock by '".to_owned();
                text.append(lag.to_text().as_str());
                text.append("'");
                text
            },
            ExecutionError::BadQuery =>
            "the query did not return any response; was the target mailbox added to the simulation?".to_owned(),
            ExecutionError::InvalidDeadline(time) => {
                let mut text = "the specified deadline (".to_owned();
                text.append(time.to_text().as_str());
                text.append(") lies in the past of the current simulation time");
                text
            },
        }
    }
}

/// An error returned upon simulation execution or scheduling failure.
#[derive(Debug)]
pub enum SimulationError {
    /// The execution of the simulation failed.
    ExecutionError(ExecutionError),
    /// An attempt to schedule an item failed.
    SchedulingError(SchedulingError),
}

impl SimulationError {
    /// The description of the error.
    pub open spec fn text(self) -> Seq<char> {
        match self {
            SimulationError::ExecutionError(e) => e.text(),
            SimulationError::SchedulingError(e) => e.text(),
        }
    }

    /// Describes the error.
    pub fn to_text(&self) -> (text: String)
        ensures
            text@ == self.text(),
    {
        match self {
            SimulationError::ExecutionError(e) => e.to_text(),
            SimulationError::SchedulingError(e) => e.to_text(),
        }
    }
}

impl From<ExecutionError> for SimulationError {
    fn from(e: ExecutionError) -> (error: Self) {
        SimulationError::ExecutionError(e)
    }
}

impl vstd::std_specs::convert::FromSpecImpl<ExecutionError> for SimulationError {
    open spec fn obeys_from_spec() -> bool {
        true
    }

    open spec fn from_spec(e: ExecutionError) -> Self {
        SimulationError::ExecutionError(e)
    }
}

impl From<SchedulingError> for SimulationError {
    fn from(e: SchedulingError) -> (error: Self) {
        SimulationError::SchedulingError(e)
    }
}

impl vstd::std_specs::convert::FromSpecImpl<SchedulingError> for SimulationError {
    open spec fn obeys_from_spec() -> bool {
        true
    }

    open spec fn from_spec(e: SchedulingError) -> Self {
        SimulationError::SchedulingError(e)
    }
}

/// An error is fatal unless it is due to a query that nobody has replied to or to a
/// deadline in the past.
pub proof fn law_fatal_errors(error: ExecutionError)
    ensures
        error.is_fatal() <==> match error {
            ExecutionError::Terminated => true,
            ExecutionError::Deadlock(_) => true,
            ExecutionError::Panic { .. } => true,
            ExecutionError::Timeout => true,
            ExecutionError::OutOfSync(_) => true,
            ExecutionError::BadQuery => false,
            ExecutionError::InvalidDeadline(_) => false,
        },
{
}

/// The description of a deadlock lists all deadlocked models, in order and separated by
/// commas, along with the number of messages in their mailboxes.
pub proof fn law_deadlock_text(list: Seq<DeadlockInfo>, info: DeadlockInfo)
    ensures
        deadlock_text(seq![info]) == info.text(),
        list.len() > 0 ==> deadlock_text(list.push(info)) == deadlock_text(list) + seq![',', ' ']
            + info.text(),
        info.text() == seq!['\''] + info.model@ + seq!['\'', ' ', '('] + decimal(
            info.mailbox_size as nat,
        ) + (if info.mailbox_size == 1 {
            " item in mailbox)"@
        } else {
            " items in mailbox)"@
        }),
{
    reveal_strlit(", ");
    reveal_strlit("'");
    reveal_strlit("' (");
    assert(", "@ =~= seq![',', ' ']);
    assert("'"@ =~= seq!['\'']);
    assert("' ("@ =~= seq!['\'', ' ', '(']);
    assert(list.push(info).drop_last() =~= list);
    assert(list.push(info).last() == info);
}

/// The descriptions of errors tell what they are about: the deadlocked models, the model
/// that has panicked and its message, the lag, or the deadline.
pub proof fn law_error_texts(error: ExecutionError)
    ensures
        match error {
            ExecutionError::Terminated => error.text() == "the simulation has been terminated"@,
            ExecutionError::Deadlock(list) => error.text()
                == "a simulation deadlock has been detected that involves the following models: "@
                + deadlock_text(list@),
            ExecutionError::Panic { model, payload } => match payload.message {
                Some(message) => error.text() == "model '"@ + model@
                    + "' has panicked with the message: '"@ + message@ + "'"@,
                None => error.text() == "model '"@ + model@ + "' has panicked"@,
            },
            ExecutionError::Timeout => error.text()
                == "the simulation step has failed to complete within the allocated time"@,
            ExecutionError::OutOfSync(lag) => error.text()
                == "the simulation has lost synchronization and lags behind the clock by '"@
                + lag.text() + "'"@,
            ExecutionError::BadQuery => error.text()
                == "the query did not return any response; was the target mailbox added to the simulation?"@,
            ExecutionError::InvalidDeadline(time) => error.text() == "the specified deadline ("@
                + time.text() + ") lies in the past of the current simulation time"@,
        },
        SimulationError::ExecutionError(error).text() == error.text(),
        SimulationError::SchedulingError(SchedulingError::InvalidScheduledTime).text()
            == "the scheduled time should be in the future of the current simulation time"@,
        SimulationError::SchedulingError(SchedulingError::NullRepetitionPeriod).text()
            == "the repetition period cannot be zero"@,
{
}

} // verus!
