//! The handshake of a connection, seen from the task that drives it.
//!
//! The negotiation itself (key exchange, identity verification, protocol
//! selection) is the work of a state machine that the task is given. This
//! module decides what the task does between two runs of that machine: run it
//! again, feed it the key it asks for, wait for the socket, or give up.

use vstd::prelude::*;

verus! {

/// Seconds after which a remote that has not finished the handshake is given
/// up on, counted from the start of the handshake.
pub const HANDSHAKE_TIMEOUT_SECS: u64 = 20;

/// The same, in nanoseconds.
pub const HANDSHAKE_TIMEOUT_NANOS: u64 = HANDSHAKE_TIMEOUT_SECS * 1_000_000_000;

/// The moment at which a handshake that started at `start` is given up.
/// Moments are nanoseconds on the clock of the task.
pub open spec fn spec_deadline(start: u64) -> u64 {
    if start + HANDSHAKE_TIMEOUT_NANOS > u64::MAX {
        u64::MAX
    } else {
        (start + HANDSHAKE_TIMEOUT_NANOS) as u64
    }
}

/// The time that is left at `now` until `deadline`: none once it has come.
pub open spec fn spec_time_left(deadline: u64, now: u64) -> u64 {
    if now >= deadline {
        0
    } else {
        (deadline - now) as u64
    }
}

/// Why a handshake failed.
#[derive(Clone, Copy, Debug, PartialEq, Eq, Structural, Hash)]
pub enum HandshakeError {
    /// The socket failed.
    Io,
    /// The remote did not finish the handshake in time.
    Timeout,
    /// The remote closed its side before the handshake was over.
    UnexpectedEof,
    /// The remote did not follow the protocol.
    Protocol,
}

/// Where the driving of a handshake stands.
#[derive(Clone, Copy, Debug, PartialEq, Eq, Structural, Hash)]
pub enum HandshakePhase {
    /// The state machine is to be run.
    Negotiating,
    /// The last run moved no byte: the task waits for the socket, or for the
    /// timeout.
    Waiting,
    /// The handshake is over and the remote is who it proved to be.
    Succeeded,
    /// The handshake is over and has failed.
    Failed(HandshakeError),
}

/// What the task has seen since the last decision.
#[derive(Clone, Copy, Debug, PartialEq, Eq, Structural, Hash)]
pub enum HandshakeEvent {
    /// The state machine has reached its successful end.
    Finished,
    /// The state machine asks for the static key of the encryption layer.
    NoiseKeyRequired,
    /// The buffers of the socket could not be had.
    SocketFailed,
    /// The remote has closed its writing side.
    ReadClosed,
    /// The state machine has rejected what the remote sent.
    Rejected,
    /// The state machine has run: it read and wrote this many bytes.
    Advanced { num_read: usize, num_written: usize },
    /// While waiting: something happened on the socket.
    SocketReady,
    /// While waiting: the timeout has passed.
    TimedOut,
}

/// What the task has to do next.
#[derive(Clone, Copy, Debug, PartialEq, Eq, Structural, Hash)]
pub enum HandshakeAction {
    /// Run the state machine again, at once.
    RunAgain,
    /// Hand the static key to the state machine, then run it again.
    ResumeWithNoiseKey,
    /// Wait for the socket or for the timeout, whichever comes first.
    Wait,
    /// Stop: the handshake has succeeded.
    Succeed,
    /// Stop: the handshake has failed.
    Fail(HandshakeError),
}

/// The phase and the action that follow `event` in `phase`.
///
/// A handshake that is over stays over, with the same outcome. Otherwise a
/// failure of any kind ends it, a run that moved bytes calls for another run
/// at once, and a run that moved none makes the task wait. The timeout counts
/// only while the task waits; when it passes then, the handshake has failed.
pub open spec fn handshake_step(phase: HandshakePhase, event: HandshakeEvent) -> (
    HandshakePhase,
    HandshakeAction,
) {
    match phase {
        HandshakePhase::Succeeded => (HandshakePhase::Succeeded, HandshakeAction::Succeed),
        HandshakePhase::Failed(error) => (
            HandshakePhase::Failed(error),
            HandshakeAction::Fail(error),
        ),
        _ => match event {
            HandshakeEvent::Finished => (HandshakePhase::Succeeded, HandshakeAction::Succeed),
            HandshakeEvent::NoiseKeyRequired => (
                HandshakePhase::Negotiating,
                HandshakeAction::ResumeWithNoiseKey,
            ),
            HandshakeEvent::SocketFailed => (
                HandshakePhase::Failed(HandshakeError::Io),
                HandshakeAction::Fail(HandshakeError::Io),
            ),
            HandshakeEvent::ReadClosed => (
                HandshakePhase::Failed(HandshakeError::UnexpectedEof),
                HandshakeAction::Fail(HandshakeError::UnexpectedEof),
            ),
            HandshakeEvent::Rejected => (
                HandshakePhase::Failed(HandshakeError::Protocol),
                HandshakeAction::Fail(HandshakeError::Protocol),
            ),
            HandshakeEvent::Advanced { num_read, num_written } => if num_read != 0 || num_written
                != 0 {
                (HandshakePhase::Negotiating, HandshakeAction::RunAgain)
            } else {
                (HandshakePhase::Waiting, HandshakeAction::Wait)
            },
            HandshakeEvent::SocketReady => (HandshakePhase::Negotiating, HandshakeAction::RunAgain),
            HandshakeEvent::TimedOut => if phase == HandshakePhase::Waiting {
                (
                    HandshakePhase::Failed(HandshakeError::Timeout),
                    HandshakeAction::Fail(HandshakeError::Timeout),
                )
            } else {
                (HandshakePhase::Negotiating, HandshakeAction::RunAgain)
            },
        },
    }
}

/// The driving of one handshake.
#[derive(Debug, PartialEq, Eq)]
pub struct HandshakeDriver {
    phase: HandshakePhase,
    is_initiator: bool,
    deadline: u64,
}

impl HandshakeDriver {
    /// Where the driving stands.
    pub closed spec fn spec_phase(&self) -> HandshakePhase {
        self.phase
    }

    /// Whether this side opened the connection.
    pub closed spec fn spec_is_initiator(&self) -> bool {
        self.is_initiator
    }

    /// The moment at which the handshake is given up.
    pub closed spec fn spec_deadline(&self) -> u64 {
        self.deadline
    }

    /// The driving of a handshake that starts at `now`.
    pub fn new(is_initiator: bool, now: u64) -> (driver: HandshakeDriver)
        ensures
            driver.spec_phase() == HandshakePhase::Negotiating,
            driver.spec_is_initiator() == is_initiator,
            driver.spec_deadline() == spec_deadline(now),
    {
        let deadline = if now > u64::MAX - HANDSHAKE_TIMEOUT_NANOS {
            u64::MAX
        } else {
            now + HANDSHAKE_TIMEOUT_NANOS
        };
        HandshakeDriver { phase: HandshakePhase::Negotiating, is_initiator, deadline }
    }

    /// How long the task may wait at `now` before the timeout has passed, in
    /// nanoseconds.
    pub fn time_left(&self, now: u64) -> (nanos: u64)
        ensures
            nanos == spec_time_left(self.spec_deadline(), now),
    {
        if now >= self.deadline {
            0
        } else {
            self.deadline - now
        }
    }

    /// Where the driving stands.
    pub fn phase(&self) -> (phase: HandshakePhase)
        ensures
            phase == self.spec_phase(),
    {
        self.phase
    }

    /// Whether this side opened the connection.
    pub fn is_initiator(&self) -> (is_initiator: bool)
        ensures
            is_initiator == self.spec_is_initiator(),
    {
        self.is_initiator
    }

    /// Takes in what the task has seen, and says what it has to do next.
    pub fn on_event(&mut self, event: HandshakeEvent) -> (action: HandshakeAction)
        ensures
            (final(self).spec_phase(), action) == handshake_step(old(self).spec_phase(), event),
            final(self).spec_is_initiator() == old(self).spec_is_initiator(),
            final(self).spec_deadline() == old(self).spec_deadline(),
    {
        let (phase, action) = match self.phase {
            HandshakePhase::Succeeded => (HandshakePhase::Succeeded, HandshakeAction::Succeed),
            HandshakePhase::Failed(error) => (
                HandshakePhase::Failed(error),
                HandshakeAction::Fail(error),
            ),
            _ => match event {
                HandshakeEvent::Finished => (HandshakePhase::Succeeded, HandshakeAction::Succeed),
                HandshakeEvent::NoiseKeyRequired => (
                    HandshakePhase::Negotiating,
                    HandshakeAction::ResumeWithNoiseKey,
                ),
                HandshakeEvent::SocketFailed => Self::failed(HandshakeError::Io),
                HandshakeEvent::ReadClosed => Self::failed(HandshakeError::UnexpectedEof),
                HandshakeEvent::Rejected => Self::failed(HandshakeError::Protocol),
                HandshakeEvent::Advanced { num_read, num_written } => {
                    if num_read != 0 || num_written != 0 {
                        (HandshakePhase::Negotiating, HandshakeAction::RunAgain)
                    } else {
                        (HandshakePhase::Waiting, HandshakeAction::Wait)
                    }
                },
                HandshakeEvent::SocketReady => (
                    HandshakePhase::Negotiating,
                    HandshakeAction::RunAgain,
                ),
                HandshakeEvent::TimedOut => {
                    if self.phase == HandshakePhase::Waiting {
                        Self::failed(HandshakeError::Timeout)
                    } else {
                        (HandshakePhase::Negotiating, HandshakeAction::RunAgain)
                    }
                },
            },
        };
        self.phase = phase;
        action
    }

    fn failed(error: HandshakeError) -> (end: (HandshakePhase, HandshakeAction))
        ensures
            end == (HandshakePhase::Failed(error), HandshakeAction::Fail(error)),
    {
        (HandshakePhase::Failed(error), HandshakeAction::Fail(error))
    }
}

/// A handshake always knows what to do next, and one that is over never
/// starts again: whatever happens afterwards, the outcome stays.
pub proof fn lemma_handshake_end_is_final(phase: HandshakePhase, event: HandshakeEvent)
    requires
        phase is Succeeded || phase is Failed,
    ensures
        handshake_step(phase, event).0 == phase,
        phase is Succeeded ==> handshake_step(phase, event).1 == HandshakeAction::Succeed,
        phase matches HandshakePhase::Failed(error) ==> handshake_step(phase, event).1
            == HandshakeAction::Fail(error),
{
}

/// The wait for a handshake is bounded: whenever it is asked, after the
/// start, the time left is at most the timeout, it shrinks as time passes,
/// and none is left from the deadline on.
pub proof fn lemma_time_left_is_bounded(start: u64, now: u64, later: u64)
    requires
        start <= now <= later,
    ensures
        spec_time_left(spec_deadline(start), now) <= HANDSHAKE_TIMEOUT_NANOS,
        spec_time_left(spec_deadline(start), later) <= spec_time_left(spec_deadline(start), now),
        now >= spec_deadline(start) ==> spec_time_left(spec_deadline(start), now) == 0,
        now - start >= HANDSHAKE_TIMEOUT_NANOS ==> spec_time_left(spec_deadline(start), now) == 0,
{
}

/// A handshake that stalls times out: after a run that moved no byte the
/// task waits, and when the timeout passes while it waits, the handshake has
/// failed with [`HandshakeError::Timeout`], for good.
pub proof fn lemma_stalled_handshake_times_out(phase: HandshakePhase, later: HandshakeEvent)
    requires
        phase is Negotiating || phase is Waiting,
    ensures
        ({
            let stalled = handshake_step(
                phase,
                (HandshakeEvent::Advanced { num_read: 0, num_written: 0 }),
            );
            let timed_out = handshake_step(stalled.0, HandshakeEvent::TimedOut);
            &&& stalled == (HandshakePhase::Waiting, HandshakeAction::Wait)
            &&& timed_out == (
                HandshakePhase::Failed(HandshakeError::Timeout),
                HandshakeAction::Fail(HandshakeError::Timeout),
            )
            &&& handshake_step(timed_out.0, later) == timed_out
        }),
{
}

} // verus!
