//! What the front end guarantees over time.

use futures::channel::mpsc::Sender;
use vstd::prelude::*;

use crate::handshake::HandshakeError;
use crate::peer_id::PeerId;
use crate::peerset_laws::{
    lemma_add_address, lemma_identifiers_fresh, lemma_promotion_happens_once,
};
use crate::peerset_model::{
    Address, ConnectionId, EstablishedView, PeerKey, PeersetView, PendingId, PendingView,
};
use crate::service::{
    dial_count, dialable_addresses, dialed, handled, lemma_dialable_from,
    lemma_filling_dials_each_address_once, lemma_kept_distinct, no_duplicate_dials, seeded,
    slots_filled, Event, FromBackground, OutboundDial, Reaction, BOOTSTRAP_OVERLAY,
};
use crate::task::{task_step, TaskAction, TaskEvent, TaskState};

verus! {

/// One thing the front end does: fill the outbound slots, or handle a
/// report.
#[verifier::reject_recursive_types(TCommand)]
#[verifier::reject_recursive_types(TReport)]
pub enum Step<TCommand, TReport> {
    /// The outbound slots were filled with `peer`, or with none when none
    /// fit, and `dials` were to be started.
    Fill { peer: Option<PeerKey>, dials: Seq<OutboundDial<TCommand, TReport>> },
    /// `message` was handled, with `reaction`.
    Report { message: FromBackground, reaction: Reaction<TCommand, TReport> },
}

/// `step` takes the state `before` to the state `after`, as the functions
/// of the service promise.
pub open spec fn step_taken<TCommand, TReport>(
    before: PeersetView<Sender<TCommand>, Sender<TCommand>>,
    step: Step<TCommand, TReport>,
    after: PeersetView<Sender<TCommand>, Sender<TCommand>>,
) -> bool {
    match step {
        Step::Fill { peer: None, dials } => {
            &&& forall|peer: PeerKey| !before.not_connected(BOOTSTRAP_OVERLAY, peer)
            &&& after == before
            &&& dials.len() == 0
        },
        Step::Fill { peer: Some(peer), dials } => {
            &&& before.not_connected(BOOTSTRAP_OVERLAY, peer)
            &&& slots_filled(before, peer, after, dials)
        },
        Step::Report { message, reaction } => handled(before, message, after, reaction),
    }
}

/// `step` is a successful handshake: the report of one, on a slot that is
/// pending in `before`.
pub open spec fn connects<TCommand, TReport>(
    before: PeersetView<Sender<TCommand>, Sender<TCommand>>,
    step: Step<TCommand, TReport>,
) -> bool {
    step matches Step::Report {
        message: FromBackground::HandshakeSuccess { connection_id, .. },
        ..
    } && before.pending.contains_key(connection_id)
}

/// `step` is a disconnect: the report of one, of a connection that is
/// established in `before`.
pub open spec fn disconnects<TCommand, TReport>(
    before: PeersetView<Sender<TCommand>, Sender<TCommand>>,
    step: Step<TCommand, TReport>,
) -> bool {
    step matches Step::Report { message: FromBackground::Disconnected { connection_id }, .. }
        && before.established.contains_key(connection_id)
}

/// Number of successful handshakes among `steps`.
pub open spec fn handshakes<TCommand, TReport>(
    states: Seq<PeersetView<Sender<TCommand>, Sender<TCommand>>>,
    steps: Seq<Step<TCommand, TReport>>,
) -> nat
    decreases steps.len(),
{
    if steps.len() == 0 {
        0
    } else {
        handshakes(states.drop_last(), steps.drop_last()) + if connects(
            states[steps.len() - 1],
            steps.last(),
        ) {
            1nat
        } else {
            0nat
        }
    }
}

/// Number of disconnects among `steps`.
pub open spec fn disconnections<TCommand, TReport>(
    states: Seq<PeersetView<Sender<TCommand>, Sender<TCommand>>>,
    steps: Seq<Step<TCommand, TReport>>,
) -> nat
    decreases steps.len(),
{
    if steps.len() == 0 {
        0
    } else {
        disconnections(states.drop_last(), steps.drop_last()) + if disconnects(
            states[steps.len() - 1],
            steps.last(),
        ) {
            1nat
        } else {
            0nat
        }
    }
}

/// A step adds one established connection when it is a successful
/// handshake, takes one away when it is a disconnect, and leaves their
/// number alone otherwise.
pub proof fn lemma_step_counts<TCommand, TReport>(
    before: PeersetView<Sender<TCommand>, Sender<TCommand>>,
    step: Step<TCommand, TReport>,
    after: PeersetView<Sender<TCommand>, Sender<TCommand>>,
)
    requires
        before.wf(),
        step_taken(before, step, after),
    ensures
        after.established.len() + if disconnects(before, step) {
            1nat
        } else {
            0nat
        } == before.established.len() + if connects(before, step) {
            1nat
        } else {
            0nat
        },
{
    match step {
        Step::Report { message: FromBackground::HandshakeSuccess { connection_id, peer_id }, .. } => {
            if before.pending.contains_key(connection_id) {
                lemma_promotion_happens_once(
                    before,
                    connection_id,
                    peer_id@,
                    before.pending[connection_id].user_data,
                );
            }
        },
        Step::Report { message: FromBackground::Disconnected { connection_id }, .. } => {
            if !before.established.contains_key(connection_id) {
                assert(before.established.remove(connection_id) =~= before.established);
            }
        },
        _ => {},
    }
}

/// At every moment, the number of established connections is what it was at
/// the start, plus the successful handshakes, minus the disconnects, inbound
/// and outbound alike. Failed handshakes and slot filling change neither.
pub proof fn lemma_connection_count<TCommand, TReport>(
    states: Seq<PeersetView<Sender<TCommand>, Sender<TCommand>>>,
    steps: Seq<Step<TCommand, TReport>>,
)
    requires
        states.len() == steps.len() + 1,
        valid(states[0]),
        forall|i: int|
            0 <= i < steps.len() ==> step_taken(states[i], #[trigger] steps[i], states[i + 1]),
    ensures
        states.last().established.len() + disconnections(states, steps)
            == states[0].established.len() + handshakes(states, steps),
    decreases steps.len(),
{
    if steps.len() > 0 {
        let n = steps.len() - 1;
        let earlier_states = states.drop_last();
        let earlier_steps = steps.drop_last();
        assert forall|i: int| 0 <= i < earlier_steps.len() implies step_taken(
            earlier_states[i],
            #[trigger] earlier_steps[i],
            earlier_states[i + 1],
        ) by {
            assert(step_taken(states[i], steps[i], states[i + 1]));
        }
        lemma_connection_count(earlier_states, earlier_steps);
        assert(earlier_states.last() == states[n]);
        assert(step_taken(states[n], steps[n], states[n + 1]));
        lemma_run_stays_valid(states, steps, n);
        lemma_step_counts(states[n], steps[n], states[n + 1]);
    }
}

/// A service starts out valid, with no connection slot of either kind and
/// every identifier still to be handed out.
pub proof fn lemma_seeded<TConn, TPending>(nodes: Seq<(PeerKey, Address)>)
    ensures
        seeded::<TConn, TPending>(nodes).wf(),
        seeded::<TConn, TPending>(nodes).num_overlays == 1,
        seeded::<TConn, TPending>(nodes).pending == Map::<PendingId, PendingView<TPending>>::empty(),
        seeded::<TConn, TPending>(nodes).established == Map::<
            ConnectionId,
            EstablishedView<TConn>,
        >::empty(),
        seeded::<TConn, TPending>(nodes).next_id == 0,
    decreases nodes.len(),
{
    if nodes.len() > 0 {
        lemma_seeded::<TConn, TPending>(nodes.drop_last());
        let earlier = seeded::<TConn, TPending>(nodes.drop_last());
        let peer = nodes.last().0;
        let address = nodes.last().1;
        let known = earlier.insert_peer(peer);
        assert(known.peers.dom().finite()) by {
            if !earlier.peers.contains_key(peer) {
                assert(known.peers.dom() =~= earlier.peers.dom().insert(peer));
            }
        }
        assert(known.peers[peer].wf(1)) by {
            if earlier.peers.contains_key(peer) {
                assert(earlier.peers[peer].wf(earlier.num_overlays));
            }
        }
        lemma_add_address(known.peers[peer].addresses, address);
        let after = seeded::<TConn, TPending>(nodes);
        assert(after.peers.dom() =~= known.peers.dom());
        assert forall|key: PeerKey| #[trigger] after.peers.contains_key(key) implies after.peers[key].wf(
            after.num_overlays,
        ) by {
            if key != peer {
                assert(earlier.peers.contains_key(key));
                assert(earlier.peers[key].wf(earlier.num_overlays));
            }
        }
    }
}

/// A service that started out fresh counts as many established connections
/// as it has seen successful handshakes, less the disconnects: after N
/// successful handshakes and no disconnect, N.
pub proof fn lemma_fresh_service_connection_count<TCommand, TReport>(
    nodes: Seq<(PeerKey, Address)>,
    states: Seq<PeersetView<Sender<TCommand>, Sender<TCommand>>>,
    steps: Seq<Step<TCommand, TReport>>,
)
    requires
        states.len() == steps.len() + 1,
        states[0] == seeded::<Sender<TCommand>, Sender<TCommand>>(nodes),
        forall|i: int|
            0 <= i < steps.len() ==> step_taken(states[i], #[trigger] steps[i], states[i + 1]),
    ensures
        states.last().established.len() == handshakes(states, steps) - disconnections(
            states,
            steps,
        ),
        disconnections(states, steps) == 0 ==> states.last().established.len() == handshakes(
            states,
            steps,
        ),
{
    lemma_seeded::<Sender<TCommand>, Sender<TCommand>>(nodes);
    lemma_connection_count(states, steps);
}

/// A handshake that fails costs its pending slot, once: the slot is gone
/// after the first report of the failure, and a second report of it, should
/// one come, changes nothing. Neither touches anything but that slot.
pub proof fn lemma_failed_handshake_removes_slot_once<TCommand, TReport>(
    before: PeersetView<Sender<TCommand>, Sender<TCommand>>,
    id: PendingId,
    error: HandshakeError,
    after: PeersetView<Sender<TCommand>, Sender<TCommand>>,
    reaction: Reaction<TCommand, TReport>,
    again: PeersetView<Sender<TCommand>, Sender<TCommand>>,
    second_reaction: Reaction<TCommand, TReport>,
)
    requires
        handled(
            before,
            (FromBackground::HandshakeError { connection_id: id, error }),
            after,
            reaction,
        ),
        handled(
            after,
            (FromBackground::HandshakeError { connection_id: id, error }),
            again,
            second_reaction,
        ),
    ensures
        !after.pending.contains_key(id),
        after.pending == before.pending.remove(id),
        after.peers == before.peers,
        after.established == before.established,
        after.next_id == before.next_id,
        again == after,
        reaction is Continue,
        second_reaction is Continue,
{
    assert(after.pending.remove(id) =~= after.pending);
}

/// What the service keeps true of its state: it is a valid peerset state
/// with one overlay network, and no two pending slots dial the same peer at
/// the same address.
pub open spec fn valid<TConn, TPending>(state: PeersetView<TConn, TPending>) -> bool {
    &&& state.wf()
    &&& state.num_overlays == 1
    &&& no_duplicate_dials(state)
}

/// The identifiers of the slots made from `next` on, `count` of them, are
/// finitely many.
proof fn lemma_dialed_finite(next: u64, count: nat)
    requires
        next % 2 == 0,
    ensures
        dialed(next, count).finite(),
    decreases count,
{
    if count == 0 {
        assert(dialed(next, count) =~= Set::<PendingId>::empty());
    } else {
        lemma_dialed_finite(next, (count - 1) as nat);
        let fewer = dialed(next, (count - 1) as nat);
        if next + 2 * count - 2 <= u64::MAX {
            assert(dialed(next, count) =~= fewer.insert(
                PendingId((next + 2 * count - 2) as u64),
            ));
        } else {
            assert(dialed(next, count) =~= fewer);
        }
    }
}

/// Whatever the service does, its state stays valid.
pub proof fn lemma_step_keeps_valid<TCommand, TReport>(
    before: PeersetView<Sender<TCommand>, Sender<TCommand>>,
    step: Step<TCommand, TReport>,
    after: PeersetView<Sender<TCommand>, Sender<TCommand>>,
)
    requires
        valid(before),
        step_taken(before, step, after),
    ensures
        valid(after),
{
    match step {
        Step::Fill { peer: None, dials } => {},
        Step::Fill { peer: Some(peer), dials } => {
            lemma_filling_dials_each_address_once(before, peer, after, dials);
            let known = before.peers[peer].addresses;
            let kept = dialable_addresses(known);
            let count = dial_count(before.next_id, kept.len());
            assert(before.peers[peer].wf(before.num_overlays));
            lemma_kept_distinct(known);
            lemma_dialable_from(known);
            lemma_dialed_finite(before.next_id, count);
            assert(after.peers.dom() =~= before.peers.dom());
            assert forall|key: PeerKey| #[trigger]
                after.peers.contains_key(key) implies after.peers[key].wf(after.num_overlays) by {
                assert(before.peers[key].wf(before.num_overlays));
            }
            assert forall|id: PendingId| #[trigger] after.pending.contains_key(id) implies id.0
                < after.next_id && id.0 % 2 == 0 && (
            after.pending[id].origin.dialed_peer() matches Some(dialed_peer)
                ==> after.peers.contains_key(dialed_peer)) by {
                if !before.pending.contains_key(id) {
                    assert(dialed(before.next_id, count).contains(id));
                    let i = (id.0 - before.next_id) / 2;
                    assert(dials[i].pending_id == id);
                }
            }
            assert forall|pending: PendingId, established: ConnectionId|
                after.pending.contains_key(pending) && after.established.contains_key(
                    established,
                ) implies established.0 != pending.0 + 1 by {
                if !before.pending.contains_key(pending) {
                    assert(dialed(before.next_id, count).contains(pending));
                }
            }
        },
        Step::Report { message, reaction } => {
            match message {
                FromBackground::NewConnection { .. } => {
                    if before.identifier_left() {
                        lemma_identifiers_fresh(before, before.next_id);
                        assert(after.pending.dom() =~= before.pending.dom().insert(
                            PendingId(before.next_id),
                        ));
                    }
                },
                FromBackground::HandshakeError { connection_id, .. } => {
                    assert(after.pending.dom() =~= before.pending.dom().remove(connection_id));
                },
                FromBackground::HandshakeSuccess { connection_id, peer_id } => {
                    if before.pending.contains_key(connection_id) {
                        lemma_promotion_happens_once(
                            before,
                            connection_id,
                            peer_id@,
                            before.pending[connection_id].user_data,
                        );
                    }
                },
                FromBackground::Disconnected { connection_id } => {
                    assert(after.established.dom() =~= before.established.dom().remove(
                        connection_id,
                    ));
                },
                _ => {},
            }
        },
    }
}

/// Every state that a service goes through is valid. In particular, at no
/// moment do two pending slots dial the same peer at the same address.
pub proof fn lemma_run_stays_valid<TCommand, TReport>(
    states: Seq<PeersetView<Sender<TCommand>, Sender<TCommand>>>,
    steps: Seq<Step<TCommand, TReport>>,
    at: int,
)
    requires
        states.len() == steps.len() + 1,
        valid(states[0]),
        forall|i: int|
            0 <= i < steps.len() ==> step_taken(states[i], #[trigger] steps[i], states[i + 1]),
        0 <= at < states.len(),
    ensures
        valid(states[at]),
    decreases at,
{
    if at > 0 {
        lemma_run_stays_valid(states, steps, at - 1);
        assert(step_taken(states[at - 1], steps[at - 1], states[at]));
        lemma_step_keeps_valid(states[at - 1], steps[at - 1], states[at]);
    }
}

/// A task whose handshake fails, for whatever reason, a timeout included,
/// ends and reports the failure; once the front end has handled that report,
/// the pending slot of the task is gone.
pub proof fn lemma_failed_handshake_is_cleaned_up<TCommand, TReport>(
    id: PendingId,
    error: HandshakeError,
    before: PeersetView<Sender<TCommand>, Sender<TCommand>>,
    after: PeersetView<Sender<TCommand>, Sender<TCommand>>,
    reaction: Reaction<TCommand, TReport>,
)
    requires
        task_step((TaskState::Handshaking { pending_id: id }), TaskEvent::HandshakeFailed(error)).1
            matches TaskAction::Report(message) && handled(before, message, after, reaction),
    ensures
        task_step(
            (TaskState::Handshaking { pending_id: id }),
            TaskEvent::HandshakeFailed(error),
        ).0 is Closed,
        !after.pending.contains_key(id),
        after.established == before.established,
{
}

/// A task whose established connection fails ends and reports a disconnect;
/// once the front end has handled that report, the slot of the connection is
/// gone, and the count of established connections is one less if the slot
/// was there.
pub proof fn lemma_disconnect_is_cleaned_up<TCommand, TReport>(
    state: TaskState,
    before: PeersetView<Sender<TCommand>, Sender<TCommand>>,
    after: PeersetView<Sender<TCommand>, Sender<TCommand>>,
    reaction: Reaction<TCommand, TReport>,
)
    requires
        before.wf(),
        state is Established,
        task_step(state, TaskEvent::EngineFailed).1 matches TaskAction::Report(message) && handled(
            before,
            message,
            after,
            reaction,
        ),
    ensures
        task_step(state, TaskEvent::EngineFailed).0 is Closed,
        ({
            let id = state->connection_id;
            &&& !after.established.contains_key(id)
            &&& after.pending == before.pending
            &&& before.established.contains_key(id) ==> after.established.len()
                == before.established.len() - 1
            &&& !before.established.contains_key(id) ==> after == before
        }),
{
    let id = state->connection_id;
    if !before.established.contains_key(id) {
        assert(before.established.remove(id) =~= before.established);
    }
}

/// A successful handshake on a pending slot is always accepted: the
/// application learns of the peer, the pending slot is gone, and exactly one
/// established slot has come, of the verified identity, under an identifier
/// that no slot carried and with what was attached to the pending slot.
/// Every other slot is as it was.
pub proof fn lemma_handshake_success_connects<TCommand, TReport>(
    before: PeersetView<Sender<TCommand>, Sender<TCommand>>,
    id: PendingId,
    peer: PeerId,
    after: PeersetView<Sender<TCommand>, Sender<TCommand>>,
    reaction: Reaction<TCommand, TReport>,
)
    requires
        before.wf(),
        before.pending.contains_key(id),
        handled(
            before,
            (FromBackground::HandshakeSuccess { connection_id: id, peer_id: peer }),
            after,
            reaction,
        ),
    ensures
        ({
            let connection = PeersetView::<Sender<TCommand>, Sender<TCommand>>::connection_of(id);
            &&& reaction matches Reaction::Accept { connection_id, event } && connection_id
                == connection && event == Event::Connected(peer)
            &&& !after.pending.contains_key(id)
            &&& after.pending == before.pending.remove(id)
            &&& !before.established.contains_key(connection)
            &&& after.established == before.established.insert(
                connection,
                (EstablishedView { peer: peer@, user_data: before.pending[id].user_data }),
            )
            &&& after.established.len() == before.established.len() + 1
            &&& after.connections_of(peer@) == before.connections_of(peer@).insert(connection)
            &&& after.wf()
        }),
{
    lemma_promotion_happens_once(before, id, peer@, before.pending[id].user_data);
    let connection = PeersetView::<Sender<TCommand>, Sender<TCommand>>::connection_of(id);
    assert(after.connections_of(peer@) =~= before.connections_of(peer@).insert(connection));
}

/// A pending slot is promoted at most once: when a handshake success has
/// been accepted, a second report of success on the same slot is refused
/// and changes nothing, so that no connection is counted twice.
pub proof fn lemma_second_promotion_is_refused<TCommand, TReport>(
    before: PeersetView<Sender<TCommand>, Sender<TCommand>>,
    id: PendingId,
    peer: PeerId,
    after: PeersetView<Sender<TCommand>, Sender<TCommand>>,
    reaction: Reaction<TCommand, TReport>,
    second_peer: PeerId,
    again: PeersetView<Sender<TCommand>, Sender<TCommand>>,
    second_reaction: Reaction<TCommand, TReport>,
)
    requires
        before.pending.contains_key(id),
        handled(
            before,
            (FromBackground::HandshakeSuccess { connection_id: id, peer_id: peer }),
            after,
            reaction,
        ),
        handled(
            after,
            (FromBackground::HandshakeSuccess { connection_id: id, peer_id: second_peer }),
            again,
            second_reaction,
        ),
    ensures
        reaction is Accept,
        !after.pending.contains_key(id),
        second_reaction is Refuse,
        again == after,
{
}

/// A failed handshake frees the peer that was dialed: when the failed slot
/// was the only slot of that peer, the peer is neither dialed nor connected
/// afterwards, and slot filling may pick it again. No other slot and no
/// record is touched.
pub proof fn lemma_failed_handshake_frees_the_peer<TCommand, TReport>(
    before: PeersetView<Sender<TCommand>, Sender<TCommand>>,
    id: PendingId,
    error: HandshakeError,
    peer: PeerKey,
    after: PeersetView<Sender<TCommand>, Sender<TCommand>>,
    reaction: Reaction<TCommand, TReport>,
)
    requires
        before.wf(),
        before.pending.contains_key(id),
        before.pending[id].origin.dialed_peer() == Some(peer),
        before.peers[peer].overlays.contains(BOOTSTRAP_OVERLAY),
        !before.has_established(peer),
        forall|other: PendingId| #[trigger]
            before.pending.contains_key(other) && other != id
                ==> before.pending[other].origin.dialed_peer() != Some(peer),
        handled(
            before,
            (FromBackground::HandshakeError { connection_id: id, error }),
            after,
            reaction,
        ),
    ensures
        reaction is Continue,
        after.not_connected(BOOTSTRAP_OVERLAY, peer),
        after.peers == before.peers,
        after.established == before.established,
        forall|other: PendingId| #[trigger]
            before.pending.contains_key(other) && other != id ==> after.pending.contains_key(
                other,
            ) && after.pending[other] == before.pending[other],
{
}

} // verus!
