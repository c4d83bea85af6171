use peer_network::handshake::HandshakeError;
use peer_network::peer_id::PeerId;
use peer_network::peerset_model::{ConnectionId, PendingId};
use peer_network::service::FromBackground;
use peer_network::task::{
    block_announces_protocol, established_config, inbound_request_protocol, join_chunks,
    listener_step,
    ping_protocol, poll_delay, request_outcome, response_reply, sync_protocol, Command,
    ConnectionTask, EngineEvent, ListenerAction, ListenerEvent, TaskAction, TaskEvent, TaskState,
    ACCEPT_RETRY_SECS, IDLE_POLL_NANOS,
};

fn round(read_bytes: usize, written_bytes: usize, event: Option<EngineEvent>) -> TaskEvent {
    TaskEvent::Round { read_bytes, written_bytes, event, wake_up_after: Some(1_500), now: 1_000 }
}

fn established(connection_id: ConnectionId) -> ConnectionTask {
    let mut task = ConnectionTask::new(PendingId(3), false);
    task.on_event(TaskEvent::HandshakeSucceeded(PeerId::from_bytes(vec![1])));
    assert_eq!(task.on_event(TaskEvent::Accepted(connection_id)), TaskAction::RunEngine);
    task
}

fn open(connection_id: ConnectionId) -> TaskState {
    TaskState::Established { connection_id, commands_open: true, reports_open: true }
}

#[test]
fn protocol_names() {
    assert_eq!(ping_protocol(), "/ipfs/ping/1.0.0");
    assert_eq!(sync_protocol(), "/dot/sync/2");
    assert_eq!(block_announces_protocol(), "/dot/block-announces/1");
    assert_eq!(inbound_request_protocol(), "/foo");
}

#[test]
fn configuration_of_a_connection() {
    let config = established_config();
    assert_eq!(config.in_request_protocols, vec!["/foo"]);
    assert_eq!(config.in_notifications_protocols, vec!["/dot/block-announces/1"]);
    assert_eq!(config.ping_protocol, "/ipfs/ping/1.0.0");
    assert_eq!(config.randomness_seed.len(), 32);
}

#[test]
fn delays() {
    assert_eq!(IDLE_POLL_NANOS, 3_600 * 1_000_000_000);
    assert_eq!(poll_delay(1_000, Some(1_500)), 500);
    assert_eq!(poll_delay(1_000, Some(1_000)), 0);
    assert_eq!(poll_delay(1_000, Some(999)), 0);
    assert_eq!(poll_delay(1_000, Some(0)), 0);
    assert_eq!(poll_delay(0, Some(u64::MAX)), u64::MAX);
    assert_eq!(poll_delay(u64::MAX, Some(0)), 0);
    assert_eq!(poll_delay(1_000, None), IDLE_POLL_NANOS);
    assert_eq!(poll_delay(u64::MAX, None), IDLE_POLL_NANOS);
}

#[test]
fn replies_to_a_request() {
    assert_eq!(response_reply::<u8, &str>(Ok(Ok(5))), Ok(5));
    assert_eq!(response_reply::<u8, &str>(Ok(Err("undecodable"))), Err(()));
    assert_eq!(response_reply::<u8, &str>(Err(())), Err(()));
    assert_eq!(request_outcome(Some(Ok(vec![1, 2]))), Ok(vec![1, 2]));
    assert_eq!(request_outcome::<Vec<u8>>(Some(Err(()))), Err(()));
    assert_eq!(request_outcome::<Vec<u8>>(None), Err(()));
}

#[test]
fn an_outbound_task_connects_first() {
    let mut task = ConnectionTask::new(PendingId(4), true);
    assert_eq!(task.state(), &TaskState::Connecting { pending_id: PendingId(4) });
    assert_eq!(task.on_event(TaskEvent::Connected), TaskAction::StartHandshake);
    assert_eq!(task.state(), &TaskState::Handshaking { pending_id: PendingId(4) });
}

#[test]
fn an_inbound_task_starts_with_its_handshake() {
    let task = ConnectionTask::new(PendingId(4), false);
    assert_eq!(task.state(), &TaskState::Handshaking { pending_id: PendingId(4) });
    assert!(!task.is_closed());
}

#[test]
fn a_failed_connect_is_reported_as_a_handshake_error() {
    let mut task = ConnectionTask::new(PendingId(4), true);
    assert_eq!(
        task.on_event(TaskEvent::ConnectFailed),
        TaskAction::Report(FromBackground::HandshakeError {
            connection_id: PendingId(4),
            error: HandshakeError::Io,
        })
    );
    assert!(task.is_closed());
}

#[test]
fn a_failed_handshake_is_reported_with_its_error() {
    for error in [
        HandshakeError::Io,
        HandshakeError::Timeout,
        HandshakeError::UnexpectedEof,
        HandshakeError::Protocol,
    ] {
        let mut task = ConnectionTask::new(PendingId(9), false);
        assert_eq!(
            task.on_event(TaskEvent::HandshakeFailed(error)),
            TaskAction::Report(FromBackground::HandshakeError {
                connection_id: PendingId(9),
                error,
            })
        );
        assert!(task.is_closed());
    }
}

#[test]
fn a_successful_handshake_waits_for_the_front_end() {
    let who = PeerId::from_bytes(vec![1, 2]);
    let mut task = ConnectionTask::new(PendingId(2), false);
    assert_eq!(
        task.on_event(TaskEvent::HandshakeSucceeded(who.clone())),
        TaskAction::Report(FromBackground::HandshakeSuccess {
            connection_id: PendingId(2),
            peer_id: who,
        })
    );
    assert_eq!(task.state(), &TaskState::AwaitingAcceptance { pending_id: PendingId(2) });
    assert_eq!(task.on_event(TaskEvent::Woken), TaskAction::Ignore);
    assert_eq!(task.on_event(TaskEvent::Accepted(ConnectionId(5))), TaskAction::RunEngine);
    assert_eq!(task.state(), &open(ConnectionId(5)));
}

#[test]
fn a_refused_task_ends_silently() {
    for event in [TaskEvent::Refused, TaskEvent::ReportsClosed] {
        let mut task = ConnectionTask::new(PendingId(2), false);
        task.on_event(TaskEvent::HandshakeSucceeded(PeerId::from_bytes(vec![1])));
        assert_eq!(task.on_event(event), TaskAction::Stop);
        assert!(task.is_closed());
    }
}

#[test]
fn a_busy_round_is_followed_by_another() {
    let mut task = established(ConnectionId(5));
    assert_eq!(task.on_event(round(1, 0, None)), TaskAction::RunEngine);
    assert_eq!(task.on_event(round(0, 1, None)), TaskAction::RunEngine);
    assert_eq!(task.on_event(round(0, 0, Some(EngineEvent::Other))), TaskAction::RunEngine);
    assert_eq!(task.on_event(round(0, 0, None)), TaskAction::Wait { nanos: 500 });
    assert_eq!(task.on_event(TaskEvent::Woken), TaskAction::RunEngine);
    assert_eq!(task.state(), &open(ConnectionId(5)));
}

#[test]
fn an_idle_round_sleeps_as_long_as_the_connection_allows() {
    let mut task = established(ConnectionId(5));
    let idle = |wake_up_after, now| TaskEvent::Round {
        read_bytes: 0,
        written_bytes: 0,
        event: None,
        wake_up_after,
        now,
    };
    assert_eq!(task.on_event(idle(Some(70), 50)), TaskAction::Wait { nanos: 20 });
    assert_eq!(task.on_event(idle(Some(50), 70)), TaskAction::Wait { nanos: 0 });
    assert_eq!(task.on_event(idle(None, 70)), TaskAction::Wait { nanos: IDLE_POLL_NANOS });
}

#[test]
fn a_response_is_handed_on_and_the_connection_stays() {
    let mut task = established(ConnectionId(5));
    assert_eq!(task.on_event(round(0, 0, Some(EngineEvent::Response))), TaskAction::CompleteRequest);
    assert_eq!(task.on_event(round(9, 9, Some(EngineEvent::Response))), TaskAction::CompleteRequest);
    assert_eq!(task.state(), &open(ConnectionId(5)));
}

#[test]
fn commands_reach_the_connection() {
    let mut task = established(ConnectionId(5));
    assert_eq!(task.on_event(TaskEvent::Command(Command::BlocksRequest)), TaskAction::AddRequest);
    assert_eq!(
        task.on_event(TaskEvent::Command(Command::OpenNotifications)),
        TaskAction::OpenNotifications
    );
    assert_eq!(
        task.on_event(TaskEvent::Command(Command::CloseNotifications)),
        TaskAction::CloseNotifications
    );
    assert_eq!(task.state(), &open(ConnectionId(5)));
}

#[test]
fn commands_before_the_connection_are_ignored() {
    let mut task = ConnectionTask::new(PendingId(1), true);
    assert_eq!(task.on_event(TaskEvent::Command(Command::BlocksRequest)), TaskAction::Ignore);
    assert_eq!(task.on_event(round(1, 1, None)), TaskAction::Ignore);
    assert_eq!(task.on_event(TaskEvent::Accepted(ConnectionId(1))), TaskAction::Ignore);
    assert_eq!(task.state(), &TaskState::Connecting { pending_id: PendingId(1) });
    task.on_event(TaskEvent::Connected);
    assert_eq!(task.on_event(TaskEvent::Connected), TaskAction::Ignore);
    assert_eq!(task.on_event(TaskEvent::SocketFailed), TaskAction::Ignore);
    assert_eq!(task.state(), &TaskState::Handshaking { pending_id: PendingId(1) });
}

#[test]
fn a_failure_of_the_connection_is_reported_as_a_disconnect() {
    for event in [TaskEvent::SocketFailed, TaskEvent::EngineFailed] {
        let mut task = established(ConnectionId(6));
        assert_eq!(
            task.on_event(event),
            TaskAction::Report(FromBackground::Disconnected { connection_id: ConnectionId(6) })
        );
        assert!(task.is_closed());
    }
}

#[test]
fn the_task_ends_when_both_channels_are_closed() {
    let mut task = established(ConnectionId(6));
    assert_eq!(task.on_event(TaskEvent::CommandsClosed), TaskAction::RunEngine);
    assert_eq!(
        task.state(),
        &TaskState::Established {
            connection_id: ConnectionId(6),
            commands_open: false,
            reports_open: true,
        }
    );
    assert_eq!(task.on_event(TaskEvent::ReportsClosed), TaskAction::Stop);
    assert!(task.is_closed());

    let mut task = established(ConnectionId(6));
    assert_eq!(task.on_event(TaskEvent::ReportsClosed), TaskAction::RunEngine);
    assert_eq!(
        task.state(),
        &TaskState::Established {
            connection_id: ConnectionId(6),
            commands_open: true,
            reports_open: false,
        }
    );
    assert_eq!(task.on_event(round(0, 0, None)), TaskAction::Wait { nanos: 500 });
    assert_eq!(task.on_event(TaskEvent::CommandsClosed), TaskAction::Stop);
    assert!(task.is_closed());
}

#[test]
fn a_closed_task_stays_closed() {
    let mut task = ConnectionTask::new(PendingId(1), true);
    task.on_event(TaskEvent::ConnectFailed);
    let events = vec![
        TaskEvent::Connected,
        TaskEvent::ConnectFailed,
        TaskEvent::HandshakeSucceeded(PeerId::from_bytes(vec![1])),
        TaskEvent::HandshakeFailed(HandshakeError::Io),
        TaskEvent::Accepted(ConnectionId(1)),
        TaskEvent::Refused,
        TaskEvent::SocketFailed,
        TaskEvent::EngineFailed,
        round(1, 1, Some(EngineEvent::Response)),
        TaskEvent::Woken,
        TaskEvent::Command(Command::BlocksRequest),
        TaskEvent::CommandsClosed,
        TaskEvent::ReportsClosed,
    ];
    for event in events {
        assert_eq!(task.on_event(event), TaskAction::Stop);
        assert!(task.is_closed());
    }
}

#[test]
fn a_listener_retries_for_ever() {
    assert_eq!(ACCEPT_RETRY_SECS, 2);
    assert_eq!(
        listener_step(ListenerEvent::AcceptFailed),
        ListenerAction::RetryAfter { secs: 2 }
    );
    assert_eq!(
        listener_step(ListenerEvent::Accepted),
        ListenerAction::Report(FromBackground::NewConnection { is_initiator: false })
    );
    assert_eq!(listener_step(ListenerEvent::ReportDelivered), ListenerAction::Accept);
    assert_eq!(listener_step(ListenerEvent::ReportsClosed), ListenerAction::Stop);
}

#[test]
fn chunks_are_joined_in_order() {
    assert_eq!(join_chunks(&vec![]), Vec::<u8>::new());
    assert_eq!(join_chunks(&vec![vec![], vec![]]), Vec::<u8>::new());
    assert_eq!(join_chunks(&vec![vec![1, 2, 3]]), vec![1, 2, 3]);
    assert_eq!(
        join_chunks(&vec![vec![1], vec![], vec![2, 3], vec![4]]),
        vec![1, 2, 3, 4]
    );
    assert_eq!(join_chunks(&vec![vec![9, 8], vec![9, 8]]), vec![9, 8, 9, 8]);
}
