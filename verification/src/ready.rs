//! Bringing a freshly connected unit to readiness.
//!
//! After a reset or a change of medium a unit reports UNIT ATTENTION once. That
//! report, and no other, is consumed: TEST UNIT READY is asked, its failure is
//! explained by REQUEST SENSE, and a current fixed-format reset or
//! medium-change sense lets TEST UNIT READY be asked one more time. No other
//! command is ever repeated.

use vstd::prelude::*;

use crate::error::Error;
use crate::exchange;
use crate::exchange::Completion;
use crate::exchange::CompletionOf;
use crate::exchange::Exchange;
use crate::exchange::ExchangeModel;
use crate::exchange::Progress;
use crate::exchange::ProgressModel;
use crate::exchange::ResponseOf;
use crate::exchange::Transfer;
use crate::scsi;
use crate::scsi::Scsi;
use crate::scsi::ScsiModel;

verus! {

/// Which of the three commands is in flight.
#[derive(Clone, Copy, Debug, PartialEq, Eq, Structural)]
pub enum Attempt {
    /// The first TEST UNIT READY.
    Probe,
    /// REQUEST SENSE, after the first failed.
    Sense,
    /// The second and last TEST UNIT READY.
    Retry,
}

/// A readiness check in flight, as mathematics.
pub struct ReadyModel {
    pub attempt: Attempt,
    pub exchange: ExchangeModel,
}

/// What a completion makes of a readiness check.
pub enum ReadyStepModel {
    More(ReadyModel),
    Done(Result<(), Error>),
}

/// Whether sense data is a current fixed-format UNIT ATTENTION for a reset or a
/// change of medium.
pub open spec fn consumable_sense(sense: Seq<u8>) -> bool {
    &&& sense.len() >= 13
    &&& sense[0] % 128 == 0x70
    &&& sense[2] % 16 == 6
    &&& sense[12] == 0x28 || sense[12] == 0x29
}

/// A check that goes on with a newly opened command, or ends with why not.
pub open spec fn attempted<T>(opened: scsi::Opened<T>, attempt: Attempt) -> (
    ScsiModel<T>,
    ReadyStepModel,
) {
    match opened.1 {
        Ok(exchange) => (opened.0, ReadyStepModel::More(ReadyModel { attempt, exchange })),
        Err(e) => (opened.0, ReadyStepModel::Done(Err(e))),
    }
}

impl<T> ScsiModel<T> {
    /// Starts a readiness check.
    pub open spec fn initialize_ready(self) -> (ScsiModel<T>, ReadyStepModel) {
        attempted(self.test_unit_ready(), Attempt::Probe)
    }

    /// Takes the end of the outstanding transfer of a readiness check.
    pub open spec fn resume_ready(self, run: ReadyModel, c: CompletionOf<Seq<u8>>) -> (
        ScsiModel<T>,
        ReadyStepModel,
    ) {
        let (s, p) = self.resume(run.exchange, c);
        match p {
            ProgressModel::More(exchange) => (
                s,
                ReadyStepModel::More(ReadyModel { exchange, ..run }),
            ),
            ProgressModel::Done { reply, .. } => match (run.attempt, reply) {
                (Attempt::Probe, Err(Error::CommandFailed)) => attempted(
                    s.request_sense(),
                    Attempt::Sense,
                ),
                (Attempt::Sense, Ok(ResponseOf::Data(sense))) => if consumable_sense(sense) {
                    attempted(s.test_unit_ready(), Attempt::Retry)
                } else {
                    (s, ReadyStepModel::Done(Err(Error::CommandFailed)))
                },
                (Attempt::Sense, Ok(_)) => (s, ReadyStepModel::Done(Err(Error::CommandFailed))),
                (_, Ok(_)) => (s, ReadyStepModel::Done(Ok(()))),
                (_, Err(e)) => (s, ReadyStepModel::Done(Err(e))),
            },
        }
    }
}

/// A readiness check in flight.
pub struct ReadyRun {
    attempt: Attempt,
    exchange: Exchange,
}

impl View for ReadyRun {
    type V = ReadyModel;

    closed spec fn view(&self) -> ReadyModel {
        ReadyModel { attempt: self.attempt, exchange: self.exchange@ }
    }
}

/// What a completion made of a readiness check.
pub enum ReadyStep {
    More(ReadyRun),
    Done(Result<(), Error>),
}

impl View for ReadyStep {
    type V = ReadyStepModel;

    open spec fn view(&self) -> ReadyStepModel {
        match *self {
            ReadyStep::More(run) => ReadyStepModel::More(run@),
            ReadyStep::Done(r) => ReadyStepModel::Done(r),
        }
    }
}

impl ReadyRun {
    /// The bulk transfer that the caller is to perform next.
    pub fn transfer(&self) -> (t: Transfer)
        ensures
            t@ == self@.exchange.transfer(),
    {
        self.exchange.transfer()
    }
}

/// Whether sense data lets TEST UNIT READY be asked again.
fn is_consumable(sense: &Vec<u8>) -> (yes: bool)
    ensures
        yes == consumable_sense(sense@),
{
    sense.len() >= 13 && sense[0] % 128 == 0x70 && sense[2] % 16 == 6 && (sense[12] == 0x28
        || sense[12] == 0x29)
}

fn attempt_with(opened: Result<Exchange, Error>, attempt: Attempt) -> (step: ReadyStep)
    ensures
        match scsi::opened_view(opened) {
            Ok(exchange) => step@ == ReadyStepModel::More(ReadyModel { attempt, exchange }),
            Err(e) => step@ == ReadyStepModel::Done(Err(e)),
        },
{
    match opened {
        Ok(exchange) => ReadyStep::More(ReadyRun { attempt, exchange }),
        Err(e) => ReadyStep::Done(Err(e)),
    }
}

impl<T> Scsi<T> {
    /// Starts a readiness check.
    pub fn initialize_ready(&mut self) -> (step: ReadyStep)
        ensures
            (final(self)@, step@) == old(self)@.initialize_ready(),
    {
        let opened = self.test_unit_ready();
        attempt_with(opened, Attempt::Probe)
    }

    /// Takes the end of the outstanding transfer of a readiness check.
    pub fn resume_ready(&mut self, run: ReadyRun, completion: Completion) -> (step: ReadyStep)
        ensures
            (final(self)@, step@) == old(self)@.resume_ready(run@, completion@),
    {
        let attempt = run.attempt;
        let progress = self.resume(run.exchange, completion);
        match progress {
            Progress::More(exchange) => ReadyStep::More(ReadyRun { attempt, exchange }),
            Progress::Done(reply) => match (attempt, reply) {
                (Attempt::Probe, Err(Error::CommandFailed)) => {
                    let opened = self.request_sense();
                    attempt_with(opened, Attempt::Sense)
                },
                (Attempt::Sense, Ok(ResponseOf::Data(sense))) => {
                    if is_consumable(&sense) {
                        let opened = self.test_unit_ready();
                        attempt_with(opened, Attempt::Retry)
                    } else {
                        ReadyStep::Done(Err(Error::CommandFailed))
                    }
                },
                (Attempt::Sense, Ok(_)) => ReadyStep::Done(Err(Error::CommandFailed)),
                (_, Ok(_)) => ReadyStep::Done(Ok(())),
                (_, Err(e)) => ReadyStep::Done(Err(e)),
            },
        }
    }
}

/// How many commands a readiness check has before it, the one in flight
/// counted.
pub open spec fn commands_left(attempt: Attempt) -> int {
    match attempt {
        Attempt::Probe => 3,
        Attempt::Sense => 2,
        Attempt::Retry => 1,
    }
}

/// A step of a readiness check either moves the command in flight or goes on to
/// a later one, which is REQUEST SENSE after the first and TEST UNIT READY after
/// that: at most three commands, none of which moves a block.
pub proof fn law_readiness_takes_at_most_three_commands<T>(
    s: ScsiModel<T>,
    run: ReadyModel,
    c: CompletionOf<Seq<u8>>,
)
    ensures
        s.resume_ready(run, c).1 matches ReadyStepModel::More(next) ==> {
            ||| next.attempt == run.attempt && run.exchange.absorb(c) == ProgressModel::More(
                next.exchange,
            )
            ||| commands_left(next.attempt) == commands_left(run.attempt) - 1 && ({
                let idle = s.resume(run.exchange, c).0;
                match next.attempt {
                    Attempt::Probe => false,
                    Attempt::Sense => idle.request_sense().1 == Ok::<ExchangeModel, Error>(
                        next.exchange,
                    ),
                    Attempt::Retry => idle.test_unit_ready().1 == Ok::<ExchangeModel, Error>(
                        next.exchange,
                    ),
                }
            })
        },
{
}

/// A transfer that failed, or an exchange that was framed wrongly, ends the
/// check at once: what is uncertain is never repeated.
pub proof fn law_uncertainty_ends_readiness<T>(
    s: ScsiModel<T>,
    run: ReadyModel,
    c: CompletionOf<Seq<u8>>,
)
    requires
        s.awaits(run.exchange),
        run.exchange.absorb(c) matches ProgressModel::Done { usable, .. } && !usable,
        run.exchange.form != exchange::Form::Eject,
        run.exchange.wf(),
    ensures
        s.resume_ready(run, c).1 is Done,
        s.resume_ready(run, c).1->Done_0 is Err,
        !s.resume_ready(run, c).0.usable,
{
}

} // verus!
