//! The background tasks: one per connection, one per listening socket.
//!
//! A task owns a socket and does all the waiting: for the socket, for a
//! timer, for a command of the front end. What it does when one of these
//! comes about is decided here, as a state machine that takes what happened
//! and answers with what to do. A task never touches the peerset: it
//! reports, and the front end acts.

use vstd::prelude::*;

use crate::entropy::random_seed;
use crate::handshake::HandshakeError;
use crate::peer_id::PeerId;
use crate::peerset_model::{ConnectionId, PendingId};
use crate::service::FromBackground;

verus! {

/// How long a task sleeps, in nanoseconds, when the connection asks for no
/// wake-up of its own: an hour.
pub const IDLE_POLL_NANOS: u64 = 3_600_000_000_000;

/// Seconds that a listener waits after a failed accept before it tries
/// again.
pub const ACCEPT_RETRY_SECS: u64 = 2;

/// Name of the protocol of keep-alive pings.
pub fn ping_protocol() -> (name: &'static str)
    ensures
        name@ == "/ipfs/ping/1.0.0"@,
{
    "/ipfs/ping/1.0.0"
}

/// Name of the protocol on which blocks are requested.
pub fn sync_protocol() -> (name: &'static str)
    ensures
        name@ == "/dot/sync/2"@,
{
    "/dot/sync/2"
}

/// Name of the protocol of block announces, the one notifications protocol.
pub fn block_announces_protocol() -> (name: &'static str)
    ensures
        name@ == "/dot/block-announces/1"@,
{
    "/dot/block-announces/1"
}

/// Name of the one protocol on which requests of the remote are accepted.
pub fn inbound_request_protocol() -> (name: &'static str)
    ensures
        name@ == "/foo"@,
{
    "/foo"
}

/// What an established connection is configured with.
pub struct EstablishedConfig {
    /// Protocols on which the remote may send requests.
    pub in_request_protocols: Vec<&'static str>,
    /// Protocols on which the remote may open a notifications substream.
    pub in_notifications_protocols: Vec<&'static str>,
    /// Protocol of keep-alive pings.
    pub ping_protocol: &'static str,
    /// Seed of the randomness of the connection.
    pub randomness_seed: [u8; 32],
}

/// The configuration of every established connection. The protocol names
/// are fixed; the seed is drawn anew at each call.
pub fn established_config() -> (config: EstablishedConfig)
    ensures
        config.in_request_protocols@.len() == 1,
        config.in_request_protocols@[0]@ == "/foo"@,
        config.in_notifications_protocols@.len() == 1,
        config.in_notifications_protocols@[0]@ == "/dot/block-announces/1"@,
        config.ping_protocol@ == "/ipfs/ping/1.0.0"@,
{
    let mut in_request_protocols: Vec<&'static str> = Vec::new();
    in_request_protocols.push(inbound_request_protocol());
    let mut in_notifications_protocols: Vec<&'static str> = Vec::new();
    in_notifications_protocols.push(block_announces_protocol());
    EstablishedConfig {
        in_request_protocols,
        in_notifications_protocols,
        ping_protocol: ping_protocol(),
        randomness_seed: random_seed(),
    }
}

/// How long to sleep at `now` when the connection asks to be woken at
/// `wake_up_after`: the time until then, none when that moment has passed,
/// and [`IDLE_POLL_NANOS`] when the connection asks for nothing.
pub open spec fn spec_poll_delay(now: u64, wake_up_after: Option<u64>) -> u64 {
    match wake_up_after {
        Some(wake_up) => if wake_up > now {
            (wake_up - now) as u64
        } else {
            0
        },
        None => IDLE_POLL_NANOS,
    }
}

/// How long to sleep before the connection needs to be run again. Times are
/// nanoseconds on the clock of the task.
pub fn poll_delay(now: u64, wake_up_after: Option<u64>) -> (nanos: u64)
    ensures
        nanos == spec_poll_delay(now, wake_up_after),
{
    match wake_up_after {
        Some(wake_up) => {
            if wake_up > now {
                wake_up - now
            } else {
                0
            }
        },
        None => IDLE_POLL_NANOS,
    }
}

/// What is sent back to whoever asked for blocks, once the connection has
/// the outcome of the request.
///
/// `response` is `Err` when the request failed on the way, and holds the
/// outcome of decoding otherwise. A response that does not decode is a
/// failure of the request like any other: the requester gets `Err`.
pub fn response_reply<T, E>(response: Result<Result<T, E>, ()>) -> (reply: Result<T, ()>)
    ensures
        match response {
            Ok(Ok(decoded)) => reply == Ok::<T, ()>(decoded),
            _ => reply.is_err(),
        },
{
    match response {
        Ok(Ok(decoded)) => Ok(decoded),
        _ => Err(()),
    }
}

/// The bytes of a request that was built in chunks: the chunks one after
/// the other.
pub fn join_chunks(chunks: &Vec<Vec<u8>>) -> (joined: Vec<u8>)
    ensures
        joined@ == chunks@.map_values(|chunk: Vec<u8>| chunk@).flatten(),
{
    let ghost views = chunks@.map_values(|chunk: Vec<u8>| chunk@);
    let mut joined: Vec<u8> = Vec::new();
    let mut i: usize = 0;
    while i < chunks.len()
        invariant
            i <= chunks.len(),
            views == chunks@.map_values(|chunk: Vec<u8>| chunk@),
            joined@ == views.take(i as int).flatten_alt(),
        decreases chunks.len() - i,
    {
        proof {
            assert(views.take(i + 1).drop_last() =~= views.take(i as int));
            assert(views.take(i + 1).last() == chunks@[i as int]@);
        }
        joined.extend_from_slice(chunks[i].as_slice());
        i += 1;
    }
    proof {
        assert(views.take(chunks.len() as int) =~= views);
        views.lemma_flatten_and_flatten_alt_are_equivalent();
    }
    joined
}

/// What a blocks request comes to for the application, once the wait for
/// the reply of the task is over.
///
/// `answer` is `None` when the task dropped its end without an answer.
pub fn request_outcome<T>(answer: Option<Result<T, ()>>) -> (outcome: Result<T, ()>)
    ensures
        match answer {
            Some(Ok(blocks)) => outcome == Ok::<T, ()>(blocks),
            _ => outcome.is_err(),
        },
{
    match answer {
        Some(Ok(blocks)) => Ok(blocks),
        _ => Err(()),
    }
}

/// What the connection has to tell after a round of reading and writing.
#[derive(Clone, Copy, Debug, PartialEq, Eq, Structural, Hash)]
pub enum EngineEvent {
    /// The outcome of a request of ours has arrived.
    Response,
    /// Anything else.
    Other,
}

/// What the front end asks of a connection.
#[derive(Clone, Copy, Debug, PartialEq, Eq, Structural, Hash)]
pub enum Command {
    /// Start a blocks request.
    BlocksRequest,
    /// Open the notifications substream.
    OpenNotifications,
    /// Close the notifications substream.
    CloseNotifications,
}

/// Where the task of a connection stands.
#[allow(inconsistent_fields)]
#[derive(Debug, PartialEq, Eq)]
pub enum TaskState {
    /// The socket is being connected. Only a connection that this side
    /// opens starts here.
    Connecting { pending_id: PendingId },
    /// The handshake is under way.
    Handshaking { pending_id: PendingId },
    /// The handshake has succeeded and the front end has been told; its
    /// answer is awaited.
    AwaitingAcceptance { pending_id: PendingId },
    /// The connection is established. The two flags say whether the command
    /// channel and the results channel are still open.
    Established { connection_id: ConnectionId, commands_open: bool, reports_open: bool },
    /// The task is over.
    Closed,
}

/// What has happened to the task of a connection.
#[derive(Debug, PartialEq, Eq)]
pub enum TaskEvent {
    /// The socket is connected.
    Connected,
    /// The socket could not be connected.
    ConnectFailed,
    /// The handshake has verified who the remote is.
    HandshakeSucceeded(PeerId),
    /// The handshake has failed.
    HandshakeFailed(HandshakeError),
    /// The front end has accepted the connection, under this identifier.
    Accepted(ConnectionId),
    /// The front end has dropped the reply channel.
    Refused,
    /// The buffers of the socket could not be had.
    SocketFailed,
    /// The connection has failed: the socket, or what the remote sent.
    EngineFailed,
    /// The connection has been run, at `now`: it read and wrote this many
    /// bytes, may have an event to tell, and may ask to be run again no
    /// later than `wake_up_after`.
    Round {
        read_bytes: usize,
        written_bytes: usize,
        event: Option<EngineEvent>,
        wake_up_after: Option<u64>,
        now: u64,
    },
    /// The wait is over: the socket is ready, or the time has come.
    Woken,
    /// The front end has sent a command.
    Command(Command),
    /// The command channel is closed.
    CommandsClosed,
    /// The results channel is closed.
    ReportsClosed,
}

/// What the task of a connection has to do next.
#[derive(Debug, PartialEq, Eq)]
pub enum TaskAction {
    /// Nothing: what happened does not concern the task as it stands.
    Ignore,
    /// Start the handshake.
    StartHandshake,
    /// Send the report to the front end, as far as the channel allows.
    Report(FromBackground),
    /// Run the connection, at once.
    RunEngine,
    /// Hand the outcome of the request to whoever asked, as
    /// [`response_reply`] says, then run the connection at once.
    CompleteRequest,
    /// Sleep until the socket is ready, a command arrives or this many
    /// nanoseconds have passed, whichever comes first.
    Wait { nanos: u64 },
    /// Add a request on [`sync_protocol`], then run the connection.
    AddRequest,
    /// Open a substream on [`block_announces_protocol`], then run the
    /// connection.
    OpenNotifications,
    /// Close the substream on [`block_announces_protocol`], then run the
    /// connection.
    CloseNotifications,
    /// End the task.
    Stop,
}

/// The state and the action that follow `event` in `state`.
///
/// A task goes from connecting to handshaking to established, and from
/// anywhere to closed; it never goes back. The front end hears of every
/// end but one: of a failed connect or handshake as a handshake error, of
/// the end of an established connection as a disconnect, and of nothing when
/// it refused the connection itself. Once established, a round that moved
/// bytes or had something to tell is followed by another round at once; the
/// task only sleeps after a round that did nothing. The outcome of a request
/// goes to whoever asked, and leaves the connection as it is. What does not
/// concern the state is ignored.
pub open spec fn task_step(state: TaskState, event: TaskEvent) -> (TaskState, TaskAction) {
    match state {
        TaskState::Connecting { pending_id } => match event {
            TaskEvent::Connected => (
                TaskState::Handshaking { pending_id },
                TaskAction::StartHandshake,
            ),
            TaskEvent::ConnectFailed => (
                TaskState::Closed,
                TaskAction::Report(
                    FromBackground::HandshakeError {
                        connection_id: pending_id,
                        error: HandshakeError::Io,
                    },
                ),
            ),
            _ => (state, TaskAction::Ignore),
        },
        TaskState::Handshaking { pending_id } => match event {
            TaskEvent::HandshakeSucceeded(peer_id) => (
                TaskState::AwaitingAcceptance { pending_id },
                TaskAction::Report(
                    FromBackground::HandshakeSuccess { connection_id: pending_id, peer_id },
                ),
            ),
            TaskEvent::HandshakeFailed(error) => (
                TaskState::Closed,
                TaskAction::Report(
                    FromBackground::HandshakeError { connection_id: pending_id, error },
                ),
            ),
            _ => (state, TaskAction::Ignore),
        },
        TaskState::AwaitingAcceptance { pending_id } => match event {
            TaskEvent::Accepted(connection_id) => (
                TaskState::Established { connection_id, commands_open: true, reports_open: true },
                TaskAction::RunEngine,
            ),
            TaskEvent::Refused => (TaskState::Closed, TaskAction::Stop),
            TaskEvent::ReportsClosed => (TaskState::Closed, TaskAction::Stop),
            _ => (state, TaskAction::Ignore),
        },
        TaskState::Established { connection_id, commands_open, reports_open } => match event {
            TaskEvent::SocketFailed => (
                TaskState::Closed,
                TaskAction::Report(FromBackground::Disconnected { connection_id }),
            ),
            TaskEvent::EngineFailed => (
                TaskState::Closed,
                TaskAction::Report(FromBackground::Disconnected { connection_id }),
            ),
            TaskEvent::Round { read_bytes, written_bytes, event, wake_up_after, now } => (
                state,
                if event == Some(EngineEvent::Response) {
                    TaskAction::CompleteRequest
                } else if event.is_some() || read_bytes != 0 || written_bytes != 0 {
                    TaskAction::RunEngine
                } else {
                    TaskAction::Wait { nanos: spec_poll_delay(now, wake_up_after) }
                },
            ),
            TaskEvent::Woken => (state, TaskAction::RunEngine),
            TaskEvent::Command(command) => (
                state,
                match command {
                    Command::BlocksRequest => TaskAction::AddRequest,
                    Command::OpenNotifications => TaskAction::OpenNotifications,
                    Command::CloseNotifications => TaskAction::CloseNotifications,
                },
            ),
            TaskEvent::CommandsClosed => if reports_open {
                (
                    TaskState::Established { connection_id, commands_open: false, reports_open },
                    TaskAction::RunEngine,
                )
            } else {
                (TaskState::Closed, TaskAction::Stop)
            },
            TaskEvent::ReportsClosed => if commands_open {
                (
                    TaskState::Established { connection_id, commands_open, reports_open: false },
                    TaskAction::RunEngine,
                )
            } else {
                (TaskState::Closed, TaskAction::Stop)
            },
            _ => (state, TaskAction::Ignore),
        },
        TaskState::Closed => (TaskState::Closed, TaskAction::Stop),
    }
}

/// The task of one connection.
#[derive(Debug, PartialEq, Eq)]
pub struct ConnectionTask {
    state: TaskState,
}

impl View for ConnectionTask {
    type V = TaskState;

    closed spec fn view(&self) -> TaskState {
        self.state
    }
}

impl ConnectionTask {
    /// The task of a connection in the pending slot `pending_id`. A
    /// connection that this side opens has yet to be connected; one that the
    /// remote opened starts with its handshake.
    pub fn new(pending_id: PendingId, is_initiator: bool) -> (task: ConnectionTask)
        ensures
            task@ == if is_initiator {
                TaskState::Connecting { pending_id }
            } else {
                TaskState::Handshaking { pending_id }
            },
    {
        if is_initiator {
            ConnectionTask { state: TaskState::Connecting { pending_id } }
        } else {
            ConnectionTask { state: TaskState::Handshaking { pending_id } }
        }
    }

    /// Where the task stands.
    pub fn state(&self) -> (state: &TaskState)
        ensures
            *state == self@,
    {
        &self.state
    }

    /// Whether the task is over.
    pub fn is_closed(&self) -> (closed: bool)
        ensures
            closed == (self@ is Closed),
    {
        match self.state {
            TaskState::Closed => true,
            _ => false,
        }
    }

    /// Takes in what has happened, and says what the task has to do next.
    pub fn on_event(&mut self, event: TaskEvent) -> (action: TaskAction)
        ensures
            (final(self)@, action) == task_step(old(self)@, event),
    {
        match self.state {
            TaskState::Connecting { pending_id } => match event {
                TaskEvent::Connected => {
                    self.state = TaskState::Handshaking { pending_id };
                    TaskAction::StartHandshake
                },
                TaskEvent::ConnectFailed => {
                    self.state = TaskState::Closed;
                    TaskAction::Report(
                        FromBackground::HandshakeError {
                            connection_id: pending_id,
                            error: HandshakeError::Io,
                        },
                    )
                },
                _ => TaskAction::Ignore,
            },
            TaskState::Handshaking { pending_id } => match event {
                TaskEvent::HandshakeSucceeded(peer_id) => {
                    self.state = TaskState::AwaitingAcceptance { pending_id };
                    TaskAction::Report(
                        FromBackground::HandshakeSuccess { connection_id: pending_id, peer_id },
                    )
                },
                TaskEvent::HandshakeFailed(error) => {
                    self.state = TaskState::Closed;
                    TaskAction::Report(
                        FromBackground::HandshakeError { connection_id: pending_id, error },
                    )
                },
                _ => TaskAction::Ignore,
            },
            TaskState::AwaitingAcceptance { pending_id: _ } => match event {
                TaskEvent::Accepted(connection_id) => {
                    self.state = TaskState::Established {
                        connection_id,
                        commands_open: true,
                        reports_open: true,
                    };
                    TaskAction::RunEngine
                },
                TaskEvent::Refused => {
                    self.state = TaskState::Closed;
                    TaskAction::Stop
                },
                TaskEvent::ReportsClosed => {
                    self.state = TaskState::Closed;
                    TaskAction::Stop
                },
                _ => TaskAction::Ignore,
            },
            TaskState::Established { connection_id, commands_open, reports_open } => match event {
                TaskEvent::SocketFailed => {
                    self.state = TaskState::Closed;
                    TaskAction::Report(FromBackground::Disconnected { connection_id })
                },
                TaskEvent::EngineFailed => {
                    self.state = TaskState::Closed;
                    TaskAction::Report(FromBackground::Disconnected { connection_id })
                },
                TaskEvent::Round { read_bytes, written_bytes, event, wake_up_after, now } => {
                    match event {
                        Some(EngineEvent::Response) => TaskAction::CompleteRequest,
                        Some(EngineEvent::Other) => TaskAction::RunEngine,
                        None => {
                            if read_bytes != 0 || written_bytes != 0 {
                                TaskAction::RunEngine
                            } else {
                                TaskAction::Wait { nanos: poll_delay(now, wake_up_after) }
                            }
                        },
                    }
                },
                TaskEvent::Woken => TaskAction::RunEngine,
                TaskEvent::Command(command) => match command {
                    Command::BlocksRequest => TaskAction::AddRequest,
                    Command::OpenNotifications => TaskAction::OpenNotifications,
                    Command::CloseNotifications => TaskAction::CloseNotifications,
                },
                TaskEvent::CommandsClosed => {
                    if reports_open {
                        self.state = TaskState::Established {
                            connection_id,
                            commands_open: false,
                            reports_open,
                        };
                        TaskAction::RunEngine
                    } else {
                        self.state = TaskState::Closed;
                        TaskAction::Stop
                    }
                },
                TaskEvent::ReportsClosed => {
                    if commands_open {
                        self.state = TaskState::Established {
                            connection_id,
                            commands_open,
                            reports_open: false,
                        };
                        TaskAction::RunEngine
                    } else {
                        self.state = TaskState::Closed;
                        TaskAction::Stop
                    }
                },
                _ => TaskAction::Ignore,
            },
            TaskState::Closed => TaskAction::Stop,
        }
    }
}

/// What has happened to the task of a listening socket.
#[derive(Clone, Copy, Debug, PartialEq, Eq, Structural, Hash)]
pub enum ListenerEvent {
    /// A socket has been accepted.
    Accepted,
    /// Accepting has failed, for instance for want of a file descriptor.
    AcceptFailed,
    /// The report of the last socket has been taken.
    ReportDelivered,
    /// The results channel is closed.
    ReportsClosed,
}

/// What the task of a listening socket has to do next.
#[derive(Debug, PartialEq, Eq)]
pub enum ListenerAction {
    /// Accept the next socket.
    Accept,
    /// Send the report, with the socket, to the front end.
    Report(FromBackground),
    /// Sleep for this many seconds, then accept again.
    RetryAfter { secs: u64 },
    /// End the task.
    Stop,
}

/// The action that follows `event` for a listener.
///
/// A failed accept is never the end: the listener tries again after
/// [`ACCEPT_RETRY_SECS`], for ever. Only a closed results channel ends it.
pub open spec fn spec_listener_step(event: ListenerEvent) -> ListenerAction {
    match event {
        ListenerEvent::Accepted => ListenerAction::Report(
            FromBackground::NewConnection { is_initiator: false },
        ),
        ListenerEvent::AcceptFailed => ListenerAction::RetryAfter { secs: ACCEPT_RETRY_SECS },
        ListenerEvent::ReportDelivered => ListenerAction::Accept,
        ListenerEvent::ReportsClosed => ListenerAction::Stop,
    }
}

/// Says what a listener has to do about `event`.
pub fn listener_step(event: ListenerEvent) -> (action: ListenerAction)
    ensures
        action == spec_listener_step(event),
{
    match event {
        ListenerEvent::Accepted => ListenerAction::Report(
            FromBackground::NewConnection { is_initiator: false },
        ),
        ListenerEvent::AcceptFailed => ListenerAction::RetryAfter { secs: ACCEPT_RETRY_SECS },
        ListenerEvent::ReportDelivered => ListenerAction::Accept,
        ListenerEvent::ReportsClosed => ListenerAction::Stop,
    }
}

/// A task that is over stays over, and has nothing more to do.
pub proof fn lemma_closed_is_final(event: TaskEvent)
    ensures
        task_step(TaskState::Closed, event) == (TaskState::Closed, TaskAction::Stop),
{
}

/// The outcome of a request never costs the connection: whether the
/// response decoded or not, the task stays established as it was, and the
/// requester is answered.
pub proof fn lemma_response_keeps_connection(
    state: TaskState,
    read_bytes: usize,
    written_bytes: usize,
    wake_up_after: Option<u64>,
    now: u64,
)
    requires
        state is Established,
    ensures
        task_step(
            state,
            (TaskEvent::Round {
                read_bytes,
                written_bytes,
                event: Some(EngineEvent::Response),
                wake_up_after,
                now,
            }),
        ) == (state, TaskAction::CompleteRequest),
{
}

/// An established task only sleeps after a round that did nothing: a round
/// that moved a byte or had something to tell is followed by the next at
/// once.
pub proof fn lemma_busy_round_runs_again(
    state: TaskState,
    read_bytes: usize,
    written_bytes: usize,
    event: Option<EngineEvent>,
    wake_up_after: Option<u64>,
    now: u64,
)
    requires
        state is Established,
    ensures
        (task_step(
            state,
            (TaskEvent::Round { read_bytes, written_bytes, event, wake_up_after, now }),
        ).1 is Wait) <==> (event.is_none() && read_bytes == 0 && written_bytes == 0),
{
}

} // verus!
