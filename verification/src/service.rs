//! The front end of the network: what the application talks to.
//!
//! The service owns the peerset. Background tasks, one per socket, never
//! touch it: they report what happened, and the service alone changes the
//! books in response. Waiting for those reports, sending on channels and
//! spawning tasks is the caller's work; the service says what to spawn and
//! what to answer.

use futures::channel::mpsc::{Receiver, Sender};
use vstd::prelude::*;

use crate::channel::{another_sender, bounded_channel};
use crate::entropy::random_seed;
use crate::handshake::HandshakeError;
use crate::multiaddr::{
    addresses_view, dial_target, dialable, listen_target, multiaddr_to_listener,
    multiaddr_to_socket, Multiaddr, SocketTarget,
};
use crate::peer_id::PeerId;
use crate::peerset;
use crate::peerset::Peerset;
use crate::peerset_model::{
    Address, ConnectionId, OriginView, PeerKey, PeerView, PeersetView, PendingId, PendingView,
};

verus! {

/// Messages that the results channel, shared by all background tasks, holds
/// before a task that wants to report has to wait.
pub const RESULTS_CHANNEL_SIZE: usize = 256;

/// Commands that the channel towards one connection holds before the front
/// end has to wait.
pub const COMMAND_CHANNEL_SIZE: usize = 8;

/// Number of peer records that the peerset makes room for at the start.
pub const PEERS_CAPACITY: usize = 50;

/// The overlay network that bootstrap nodes are put in and that outbound
/// slots are filled from.
pub const BOOTSTRAP_OVERLAY: usize = 0;

/// The static key of the encryption layer. It is handed to each handshake
/// and never looked into.
#[derive(Debug, PartialEq, Eq)]
pub struct NoiseKey {
    bytes: Vec<u8>,
}

impl View for NoiseKey {
    type V = Seq<u8>;

    closed spec fn view(&self) -> Seq<u8> {
        self.bytes@
    }
}

impl NoiseKey {
    /// Wraps the bytes of a key.
    pub fn from_bytes(bytes: Vec<u8>) -> (key: NoiseKey)
        ensures
            key@ == bytes@,
    {
        NoiseKey { bytes }
    }

    /// The bytes of the key.
    pub fn as_bytes(&self) -> (bytes: &Vec<u8>)
        ensures
            bytes@ == self@,
    {
        &self.bytes
    }
}

/// Configuration for a [`NetworkService`].
pub struct Config {
    /// Addresses to listen on for incoming connections.
    pub listen_addresses: Vec<Multiaddr>,
    /// Identities and addresses of nodes known to belong to the network.
    pub bootstrap_nodes: Vec<(PeerId, Multiaddr)>,
    /// Key used for the encryption layer.
    pub noise_key: NoiseKey,
}

/// Event that the application gets to see.
#[derive(Debug, PartialEq, Eq)]
pub enum Event {
    /// A connection to the peer has been established.
    Connected(PeerId),
}

/// An I/O error of the operating system, `std::io::Error`. Nothing is known
/// of what it holds.
#[verifier::external_type_specification]
#[verifier::external_body]
pub struct ExIoError(std::io::Error);

/// Error when initializing the network service.
#[derive(Debug)]
pub enum InitError {
    /// I/O error when creating the listener for an address.
    ListenerIo(Multiaddr, std::io::Error),
    /// A listening address passed through the configuration isn't valid.
    BadListenMultiaddr(Multiaddr),
}

/// What a background task reports to the front end.
#[allow(inconsistent_fields)]
#[derive(Debug, PartialEq, Eq)]
pub enum FromBackground {
    /// A socket has arrived on a listening endpoint.
    NewConnection { is_initiator: bool },
    /// The handshake of a pending slot has failed.
    HandshakeError { connection_id: PendingId, error: HandshakeError },
    /// The handshake of a pending slot has verified who the remote is.
    HandshakeSuccess { connection_id: PendingId, peer_id: PeerId },
    /// An established connection has closed.
    Disconnected { connection_id: ConnectionId },
    /// Outcome of opening a notifications substream.
    NotificationsOpenResult { connection_id: ConnectionId, result: Result<(), ()> },
    /// A notifications substream has been closed as asked.
    NotificationsCloseResult { connection_id: ConnectionId },
    /// The remote asks for a notifications substream to be opened.
    NotificationsOpenDesired { connection_id: ConnectionId },
    /// The remote asks for a notifications substream to be closed.
    NotificationsCloseDesired { connection_id: ConnectionId },
}

/// An outbound connection to start: everything the task of the connection
/// is made of, but the socket.
#[verifier::reject_recursive_types(TCommand)]
#[verifier::reject_recursive_types(TReport)]
pub struct OutboundDial<TCommand, TReport> {
    /// The pending slot of the attempt.
    pub pending_id: PendingId,
    /// The address that is dialed.
    pub address: Multiaddr,
    /// The socket to connect to.
    pub target: SocketTarget,
    /// Where the task reports to.
    pub to_foreground: Sender<TReport>,
    /// Where the task takes its commands from.
    pub to_connection: Receiver<TCommand>,
}

/// What the front end has to do about a report.
#[verifier::reject_recursive_types(TCommand)]
#[verifier::reject_recursive_types(TReport)]
pub enum Reaction<TCommand, TReport> {
    /// Nothing, and the application sees nothing.
    Continue,
    /// Start a task on the socket that came with the report.
    Spawn {
        pending_id: PendingId,
        is_initiator: bool,
        to_foreground: Sender<TReport>,
        to_connection: Receiver<TCommand>,
    },
    /// Close the socket that came with the report.
    Reject,
    /// Answer the task with the identifier of its connection, and hand the
    /// event to the application.
    Accept { connection_id: ConnectionId, event: Event },
    /// Drop the reply channel of the task, which then ends.
    Refuse,
}

/// The addresses of `list` that can be dialed, in the order of `list`.
pub open spec fn dialable_addresses(list: Seq<Address>) -> Seq<Address>
    decreases list.len(),
{
    if list.len() == 0 {
        list
    } else if dialable(list.last()) {
        dialable_addresses(list.drop_last()).push(list.last())
    } else {
        dialable_addresses(list.drop_last())
    }
}

/// The bootstrap nodes of a configuration, as identities and addresses.
pub open spec fn bootstrap_view(nodes: Seq<(PeerId, Multiaddr)>) -> Seq<(PeerKey, Address)> {
    nodes.map_values(|node: (PeerId, Multiaddr)| (node.0@, node.1@))
}

/// The state of a service that was made with the bootstrap nodes `nodes`:
/// one overlay network, and each node a member of it, known under each of
/// its addresses.
pub open spec fn seeded<TConn, TPending>(nodes: Seq<(PeerKey, Address)>) -> PeersetView<
    TConn,
    TPending,
>
    decreases nodes.len(),
{
    if nodes.len() == 0 {
        PeersetView {
            num_overlays: 1,
            peers: Map::empty(),
            pending: Map::empty(),
            established: Map::empty(),
            next_id: 0,
        }
    } else {
        seeded::<TConn, TPending>(nodes.drop_last()).insert_peer(
            nodes.last().0,
        ).add_known_address(nodes.last().0, nodes.last().1).add_to_overlay(
            nodes.last().0,
            BOOTSTRAP_OVERLAY,
        )
    }
}

/// Every address of `list` before place `at` can be listened on and has
/// been bound: its place in `binds` holds a success.
pub open spec fn listeners_bound_before(
    list: Seq<Multiaddr>,
    binds: Seq<Result<(), std::io::Error>>,
    at: int,
) -> bool {
    &&& 0 <= at <= list.len()
    &&& forall|j: int|
        0 <= j < at ==> listen_target((#[trigger] list[j])@).is_some() && j < binds.len()
            && binds[j] is Ok
}

/// `binds` holds the outcome of binding each address of `list` that had to
/// be bound: each one that can be listened on and that no failure, of an
/// address or of a bind, comes before.
pub open spec fn bind_outcomes_cover(
    list: Seq<Multiaddr>,
    binds: Seq<Result<(), std::io::Error>>,
) -> bool {
    forall|at: int|
        0 <= at < list.len() && #[trigger] listeners_bound_before(list, binds, at)
            && listen_target(list[at]@).is_some() ==> at < binds.len()
}

/// What the initialization of a service with `config` comes to, when
/// binding its listening sockets went as `binds` say.
///
/// The first failure decides, in the order of the listening addresses: an
/// address that cannot be listened on gives
/// [`InitError::BadListenMultiaddr`] with that address, a socket that could
/// not be bound gives [`InitError::ListenerIo`] with its address and the
/// cause. In both cases every address before it can be listened on and has
/// been bound. With no failure, the service is made: it knows the bootstrap
/// nodes and holds the key.
pub open spec fn initialized<TCommand, TReport>(
    config: Config,
    binds: Seq<Result<(), std::io::Error>>,
    made: Result<(NetworkService<TCommand, TReport>, Receiver<TReport>), InitError>,
) -> bool {
    let list = config.listen_addresses@;
    match made {
        Ok(started) => {
            &&& listeners_bound_before(list, binds, list.len() as int)
            &&& started.0.wf()
            &&& started.0@ == seeded::<Sender<TCommand>, Sender<TCommand>>(
                bootstrap_view(config.bootstrap_nodes@),
            )
            &&& started.0.spec_noise_key() == config.noise_key@
        },
        Err(InitError::BadListenMultiaddr(address)) => exists|at: int|
            {
                &&& #[trigger] listeners_bound_before(list, binds, at)
                &&& at < list.len()
                &&& listen_target(list[at]@).is_none()
                &&& address@ == list[at]@
            },
        Err(InitError::ListenerIo(address, cause)) => exists|at: int|
            {
                &&& #[trigger] listeners_bound_before(list, binds, at)
                &&& at < list.len()
                &&& listen_target(list[at]@).is_some()
                &&& at < binds.len()
                &&& binds[at] == Err::<(), std::io::Error>(cause)
                &&& address@ == list[at]@
            },
    }
}

/// Whether `binds` holds an outcome for every listening address that had to
/// be bound, which is what [`NetworkService::new`] asks of its caller.
pub fn bind_outcomes_suffice(
    list: &Vec<Multiaddr>,
    binds: &Vec<Result<(), std::io::Error>>,
) -> (enough: bool)
    ensures
        enough == bind_outcomes_cover(list@, binds@),
{
    let mut i: usize = 0;
    while i < list.len()
        invariant
            i <= list.len(),
            listeners_bound_before(list@, binds@, i as int),
        decreases list.len() - i,
    {
        if multiaddr_to_listener(&list[i]).is_err() {
            assert(!listeners_bound_before(list@, binds@, i + 1));
            assert forall|at: int|
                0 <= at < list.len() && #[trigger] listeners_bound_before(list@, binds@, at)
                    && listen_target(list@[at]@).is_some() implies at < binds.len() by {
                if at > i {
                    assert(listen_target(list@[i as int]@).is_some());
                }
            }
            return true;
        }
        if i >= binds.len() {
            return false;
        }
        if binds[i].is_err() {
            assert forall|at: int|
                0 <= at < list.len() && #[trigger] listeners_bound_before(list@, binds@, at)
                    && listen_target(list@[at]@).is_some() implies at < binds.len() by {
                if at > i {
                    assert(binds@[i as int] is Ok);
                }
            }
            return true;
        }
        i += 1;
    }
    true
}

/// No two pending slots dial the same peer at the same address.
pub open spec fn no_duplicate_dials<TConn, TPending>(state: PeersetView<TConn, TPending>) -> bool {
    forall|a: PendingId, b: PendingId|
        #![trigger state.pending.contains_key(a), state.pending.contains_key(b)]
        state.pending.contains_key(a) && state.pending.contains_key(b) && a != b
            && state.pending[a].origin is Outbound ==> state.pending[a].origin
            != state.pending[b].origin
}

/// What handling `message` in the state `before` comes to: the state
/// `after` and what the front end has to do.
///
/// A socket that arrives gets a pending slot without an identity, and a task
/// is to be started on it; it is turned away only when no identifier is left
/// for it. A failed handshake costs the pending slot. A successful one turns
/// the pending slot into an established slot of the verified identity,
/// whatever peer was dialed, and the application learns of it; when no such
/// pending slot exists, the task is refused instead. A disconnect costs the
/// established slot. What tasks report of notifications substreams changes
/// nothing.
pub open spec fn handled<TCommand, TReport>(
    before: PeersetView<Sender<TCommand>, Sender<TCommand>>,
    message: FromBackground,
    after: PeersetView<Sender<TCommand>, Sender<TCommand>>,
    reaction: Reaction<TCommand, TReport>,
) -> bool {
    match message {
        FromBackground::NewConnection { is_initiator } => if before.identifier_left() {
            &&& reaction matches Reaction::Spawn { pending_id, is_initiator: initiator, .. }
                && pending_id == PendingId(before.next_id) && initiator == is_initiator
            &&& after.pending.contains_key(PendingId(before.next_id))
            &&& after == before.add_pending(
                OriginView::Inbound,
                after.pending[PendingId(before.next_id)].user_data,
            )
        } else {
            reaction is Reject && after == before
        },
        FromBackground::HandshakeError { connection_id, .. } => reaction is Continue && after
            == before.remove_pending(connection_id),
        FromBackground::HandshakeSuccess { connection_id, peer_id } => if !before.pending.contains_key(
            connection_id,
        ) {
            reaction is Refuse && after == before
        } else {
            &&& reaction matches Reaction::Accept { connection_id: minted, event } && minted
                == PeersetView::<Sender<TCommand>, Sender<TCommand>>::connection_of(
                connection_id,
            ) && event == Event::Connected(peer_id)
            &&& after == before.into_established(
                connection_id,
                peer_id@,
                before.pending[connection_id].user_data,
            )
        },
        FromBackground::Disconnected { connection_id } => reaction is Continue && after
            == before.remove_connection(connection_id),
        _ => reaction is Continue && after == before,
    }
}

/// How many of `wanted` pending slots can be made when the next identifier
/// is `next_id`: all of them, unless the identifiers run out first.
pub open spec fn dial_count(next_id: u64, wanted: nat) -> nat {
    if next_id + 2 * wanted <= u64::MAX {
        wanted
    } else {
        ((u64::MAX - next_id) / 2) as nat
    }
}

/// What filling the outbound slots with `peer` comes to, from the state
/// `before` to the state `after` with the connections `dials` to start.
///
/// The addresses of the peer that cannot be dialed are forgotten, the others
/// are kept. Each of the others is dialed, in the order of the addresses: it
/// gets a pending slot under the next identifier, and a connection to start.
/// Should the identifiers run out, the addresses that are left are not
/// dialed. Nothing else changes.
pub open spec fn slots_filled<TCommand, TReport>(
    before: PeersetView<Sender<TCommand>, Sender<TCommand>>,
    peer: PeerKey,
    after: PeersetView<Sender<TCommand>, Sender<TCommand>>,
    dials: Seq<OutboundDial<TCommand, TReport>>,
) -> bool {
    let known = before.peers[peer].addresses;
    let kept = dialable_addresses(known);
    let count = dial_count(before.next_id, kept.len());
    &&& after.num_overlays == before.num_overlays
    &&& after.peers == before.peers.insert(
        peer,
        PeerView { addresses: kept, ..before.peers[peer] },
    )
    &&& after.established == before.established
    &&& after.next_id == before.next_id + 2 * count
    &&& dials.len() == count
    &&& after.pending.dom() == before.pending.dom().union(dialed(before.next_id, count))
    &&& forall|id: PendingId| #[trigger]
        before.pending.contains_key(id) ==> after.pending[id] == before.pending[id]
    &&& forall|i: int|
        0 <= i < count ==> {
            &&& (#[trigger] dials[i]).pending_id == PendingId((before.next_id + 2 * i) as u64)
            &&& dials[i].address@ == kept[i]
            &&& dial_target(kept[i]) == Some(dials[i].target@)
            &&& after.pending[dials[i].pending_id].origin == (OriginView::Outbound {
                peer,
                address: kept[i],
            })
        }
}

/// The identifiers of `count` pending slots that are made one after the
/// other from `next_id` on.
pub open spec fn dialed(next_id: u64, count: nat) -> Set<PendingId> {
    Set::new(|id: PendingId| next_id <= id.0 < next_id + 2 * count && id.0 % 2 == 0)
}

/// One more address of `list` taken into account: it is kept when it can be
/// dialed.
proof fn lemma_dialable_step(list: Seq<Address>, i: int)
    requires
        0 <= i < list.len(),
    ensures
        dialable_addresses(list.take(i + 1)) == if dialable(list[i]) {
            dialable_addresses(list.take(i)).push(list[i])
        } else {
            dialable_addresses(list.take(i))
        },
{
    assert(list.take(i + 1).drop_last() =~= list.take(i));
    assert(list.take(i + 1).last() == list[i]);
}

/// The addresses kept are addresses of the list, no more of them than the
/// list holds.
pub proof fn lemma_dialable_from(list: Seq<Address>)
    ensures
        dialable_addresses(list).len() <= list.len(),
        forall|k: int|
            0 <= k < dialable_addresses(list).len() ==> list.contains(
                #[trigger] dialable_addresses(list)[k],
            ),
    decreases list.len(),
{
    if list.len() > 0 {
        let front = list.drop_last();
        lemma_dialable_from(front);
        let kept = dialable_addresses(list);
        assert forall|k: int| 0 <= k < kept.len() implies list.contains(#[trigger] kept[k]) by {
            if k < dialable_addresses(front).len() {
                let x = dialable_addresses(front)[k];
                assert(front.contains(x));
                let j = choose|j: int| 0 <= j < front.len() && front[j] == x;
                assert(list[j] == x);
            } else {
                assert(list[list.len() - 1] == kept[k]);
            }
        }
    }
}

/// The addresses kept so far, followed by those not yet looked at, hold no
/// address twice.
proof fn lemma_mixed_distinct(list: Seq<Address>, i: int, a: int, b: int)
    requires
        list.no_duplicates(),
        0 <= i <= list.len(),
        0 <= a < (dialable_addresses(list.take(i)) + list.skip(i)).len(),
        0 <= b < (dialable_addresses(list.take(i)) + list.skip(i)).len(),
        a != b,
    ensures
        (dialable_addresses(list.take(i)) + list.skip(i))[a] != (dialable_addresses(list.take(i))
            + list.skip(i))[b],
{
    let kept = dialable_addresses(list.take(i));
    let mixed = kept + list.skip(i);
    lemma_kept_places(list.take(i));
    let place = |k: int| -> int {
        if k < kept.len() {
            kept_place(list.take(i), k)
        } else {
            k - kept.len() + i
        }
    };
    assert(mixed[a] == list[place(a)]);
    assert(mixed[b] == list[place(b)]);
    assert(place(a) != place(b));
}

/// The place in `list` of the address that stands at place `k` among the
/// addresses kept.
spec fn kept_place(list: Seq<Address>, k: int) -> int
    decreases list.len(),
{
    if list.len() == 0 {
        0
    } else if dialable(list.last()) && k == dialable_addresses(list.drop_last()).len() {
        list.len() - 1
    } else {
        kept_place(list.drop_last(), k)
    }
}

/// The addresses kept stand in `list` at increasing places.
proof fn lemma_kept_places(list: Seq<Address>)
    ensures
        forall|k: int|
            0 <= k < dialable_addresses(list).len() ==> 0 <= #[trigger] kept_place(list, k)
                < list.len() && list[kept_place(list, k)] == dialable_addresses(list)[k],
        forall|k: int, l: int|
            0 <= k < l < dialable_addresses(list).len() ==> #[trigger] kept_place(list, k)
                < #[trigger] kept_place(list, l),
    decreases list.len(),
{
    if list.len() > 0 {
        let front = list.drop_last();
        let kept = dialable_addresses(list);
        let kept_front = dialable_addresses(front);
        lemma_kept_places(front);
        lemma_dialable_from(front);
        assert forall|k: int| 0 <= k < kept.len() implies 0 <= #[trigger] kept_place(list, k)
            < list.len() && list[kept_place(list, k)] == kept[k] by {
            if dialable(list.last()) && k == kept_front.len() {
                assert(kept_place(list, k) == list.len() - 1);
            } else {
                assert(kept_place(list, k) == kept_place(front, k));
                assert(k < kept_front.len());
                assert(front[kept_place(front, k)] == kept_front[k]);
            }
        }
        assert forall|k: int, l: int| 0 <= k < l < kept.len() implies #[trigger] kept_place(
            list,
            k,
        ) < #[trigger] kept_place(list, l) by {
            assert(k < kept_front.len());
            assert(kept_place(list, k) == kept_place(front, k));
            assert(0 <= kept_place(front, k) < front.len());
            if dialable(list.last()) && l == kept_front.len() {
                assert(kept_place(list, l) == list.len() - 1);
            } else {
                assert(kept_place(list, l) == kept_place(front, l));
                assert(l < kept_front.len());
            }
        }
    }
}

/// The addresses kept of a list that holds no address twice hold none
/// twice.
pub proof fn lemma_kept_distinct(list: Seq<Address>)
    requires
        list.no_duplicates(),
    ensures
        dialable_addresses(list).no_duplicates(),
{
    lemma_kept_places(list);
    let kept = dialable_addresses(list);
    assert forall|i: int, j: int| 0 <= i < kept.len() && 0 <= j < kept.len() && i != j implies kept[i]
        != kept[j] by {
        assert(list[kept_place(list, i)] == kept[i]);
        assert(list[kept_place(list, j)] == kept[j]);
        if i < j {
            assert(kept_place(list, i) < kept_place(list, j));
        } else {
            assert(kept_place(list, j) < kept_place(list, i));
        }
    }
}

/// Filling the outbound slots never dials one peer twice at one address:
/// the peer that is dialed had no slot at all, each of its addresses is
/// dialed at most once, and so no two pending slots dial the same peer at
/// the same address afterwards if none did before.
pub proof fn lemma_filling_dials_each_address_once<TCommand, TReport>(
    before: PeersetView<Sender<TCommand>, Sender<TCommand>>,
    peer: PeerKey,
    after: PeersetView<Sender<TCommand>, Sender<TCommand>>,
    dials: Seq<OutboundDial<TCommand, TReport>>,
)
    requires
        before.wf(),
        no_duplicate_dials(before),
        before.not_connected(BOOTSTRAP_OVERLAY, peer),
        slots_filled(before, peer, after, dials),
    ensures
        no_duplicate_dials(after),
        forall|i: int, j: int|
            0 <= i < j < dials.len() ==> (#[trigger] dials[i]).address@ != (
            #[trigger] dials[j]).address@,
        forall|i: int|
            0 <= i < dials.len() ==> !before.pending.contains_key((#[trigger] dials[i]).pending_id),
{
    let known = before.peers[peer].addresses;
    let kept = dialable_addresses(known);
    let count = dial_count(before.next_id, kept.len());
    assert(before.peers[peer].wf(before.num_overlays));
    lemma_kept_distinct(known);
    lemma_dialable_from(known);
    assert(count <= kept.len());
    assert forall|i: int, j: int| 0 <= i < j < dials.len() implies (#[trigger] dials[i]).address@
        != (#[trigger] dials[j]).address@ by {
        assert(kept[i] != kept[j]);
    }
    assert forall|a: PendingId, b: PendingId|
        after.pending.contains_key(a) && after.pending.contains_key(b) && a != b
            && after.pending[a].origin is Outbound implies after.pending[a].origin
        != after.pending[b].origin by {
        let fresh_a = !before.pending.contains_key(a);
        let fresh_b = !before.pending.contains_key(b);
        let i = (a.0 - before.next_id) / 2;
        let j = (b.0 - before.next_id) / 2;
        if fresh_a {
            assert(dialed(before.next_id, count).contains(a));
            assert(dials[i].pending_id == a);
        } else {
            assert(before.pending[a].origin.dialed_peer() != Some(peer));
        }
        if fresh_b {
            assert(dialed(before.next_id, count).contains(b));
            assert(dials[j].pending_id == b);
        } else {
            assert(before.pending[b].origin.dialed_peer() != Some(peer));
        }
        if fresh_a && fresh_b {
            assert(kept[i] != kept[j]);
        }
    }
}

/// An address is kept exactly when it is an address of the list that can be
/// dialed.
pub proof fn lemma_kept_exactly(list: Seq<Address>, address: Address)
    ensures
        dialable_addresses(list).contains(address) <==> list.contains(address) && dialable(
            address,
        ),
    decreases list.len(),
{
    let kept = dialable_addresses(list);
    if list.len() > 0 {
        let front = list.drop_last();
        let kept_front = dialable_addresses(front);
        lemma_kept_exactly(front, address);
        if kept.contains(address) {
            let k = choose|k: int| 0 <= k < kept.len() && kept[k] == address;
            if k < kept_front.len() {
                assert(kept_front[k] == address);
                let j = choose|j: int| 0 <= j < front.len() && front[j] == address;
                assert(list[j] == address);
            } else {
                assert(list[list.len() - 1] == address);
            }
        }
        if list.contains(address) && dialable(address) {
            let j = choose|j: int| 0 <= j < list.len() && list[j] == address;
            if j < front.len() {
                assert(front[j] == address);
                let k = choose|k: int| 0 <= k < kept_front.len() && kept_front[k] == address;
                assert(kept[k] == address);
            } else {
                assert(kept[kept.len() - 1] == address);
            }
        }
    }
}

/// Filling the outbound slots with a peer leaves of its addresses exactly
/// those that can be dialed, each once, whether or not identifiers are left
/// to dial them; the overlays of the peer, the records of all other peers
/// and the established slots stay as they are. A peer of which no address
/// can be dialed is not dialed, and gets no slot. While identifiers are
/// left, every address that is kept is dialed.
pub proof fn lemma_filling_prunes_what_cannot_be_dialed<TCommand, TReport>(
    before: PeersetView<Sender<TCommand>, Sender<TCommand>>,
    peer: PeerKey,
    after: PeersetView<Sender<TCommand>, Sender<TCommand>>,
    dials: Seq<OutboundDial<TCommand, TReport>>,
    other: PeerKey,
    address: Address,
)
    requires
        before.wf(),
        before.peers.contains_key(peer),
        slots_filled(before, peer, after, dials),
    ensures
        after.peers.contains_key(peer),
        after.peers[peer].overlays == before.peers[peer].overlays,
        after.peers[peer].addresses.no_duplicates(),
        after.peers[peer].addresses.contains(address) <==> before.peers[peer].addresses.contains(
            address,
        ) && dialable(address),
        other != peer ==> after.peers.contains_key(other) == before.peers.contains_key(other)
            && after.peers[other] == before.peers[other],
        after.established == before.established,
        dials.len() <= after.peers[peer].addresses.len(),
        before.next_id + 2 * after.peers[peer].addresses.len() <= u64::MAX ==> dials.len()
            == after.peers[peer].addresses.len(),
        (forall|known: Address| #[trigger]
            before.peers[peer].addresses.contains(known) ==> !dialable(known)) ==> {
            &&& after.peers[peer].addresses.len() == 0
            &&& dials.len() == 0
            &&& after.pending == before.pending
            &&& after.next_id == before.next_id
        },
{
    let known = before.peers[peer].addresses;
    let kept = dialable_addresses(known);
    assert(before.peers[peer].wf(before.num_overlays));
    lemma_kept_exactly(known, address);
    lemma_kept_distinct(known);
    if forall|known_address: Address| #[trigger]
        known.contains(known_address) ==> !dialable(known_address) {
        if kept.len() > 0 {
            lemma_kept_exactly(known, kept[0]);
            assert(kept.contains(kept[0]));
        }
        assert(dialed(before.next_id, 0) =~= Set::<PendingId>::empty());
        assert(after.pending.dom() =~= before.pending.dom());
        assert(after.pending =~= before.pending);
    }
}

/// A peer with one address, one that can be dialed, is dialed once while an
/// identifier is left: one connection is to be started, to that address,
/// under the next identifier, one pending slot is made for it, and the peer
/// keeps its address.
pub proof fn lemma_filling_dials_the_only_address<TCommand, TReport>(
    before: PeersetView<Sender<TCommand>, Sender<TCommand>>,
    peer: PeerKey,
    address: Address,
    after: PeersetView<Sender<TCommand>, Sender<TCommand>>,
    dials: Seq<OutboundDial<TCommand, TReport>>,
)
    requires
        before.wf(),
        before.peers.contains_key(peer),
        before.peers[peer].addresses == seq![address],
        dialable(address),
        before.identifier_left(),
        slots_filled(before, peer, after, dials),
    ensures
        dials.len() == 1,
        dials[0].pending_id == PendingId(before.next_id),
        dials[0].address@ == address,
        dial_target(address) == Some(dials[0].target@),
        after.pending == before.pending.insert(
            PendingId(before.next_id),
            after.pending[PendingId(before.next_id)],
        ),
        after.pending[PendingId(before.next_id)].origin == (OriginView::Outbound {
            peer,
            address,
        }),
        !before.pending.contains_key(PendingId(before.next_id)),
        after.peers[peer].addresses == seq![address],
        after.established == before.established,
{
    let known = before.peers[peer].addresses;
    assert(known.drop_last() =~= Seq::<Address>::empty());
    assert(dialable_addresses(known.drop_last()) =~= Seq::<Address>::empty());
    assert(dialable_addresses(known) =~= seq![address]);
    assert(dialed(before.next_id, 1) =~= set![PendingId(before.next_id)]);
    assert(dials[0].pending_id == PendingId(before.next_id));
    assert(after.pending =~= before.pending.insert(
        PendingId(before.next_id),
        after.pending[PendingId(before.next_id)],
    ));
}

/// A slot that has just been made for an address of the peer that is being
/// dialed dials what no other pending slot dials.
proof fn lemma_fresh_dial<TCommand, TReport>(
    before: PeersetView<Sender<TCommand>, Sender<TCommand>>,
    current: PeersetView<Sender<TCommand>, Sender<TCommand>>,
    peer: PeerKey,
    kept: Seq<Address>,
    address: Address,
    earlier: Seq<OutboundDial<TCommand, TReport>>,
    a: PendingId,
    b: PendingId,
    minted: PendingId,
    user_data: Sender<TCommand>,
)
    requires
        before.wf(),
        !before.has_pending(peer),
        no_duplicate_dials(current),
        minted == PendingId(current.next_id),
        !current.pending.contains_key(minted),
        earlier.len() <= kept.len(),
        current.pending.dom() == before.pending.dom().union(
            dialed(before.next_id, earlier.len()),
        ),
        forall|id: PendingId| #[trigger]
            before.pending.contains_key(id) ==> current.pending[id] == before.pending[id],
        forall|k: int|
            0 <= k < earlier.len() ==> {
                &&& (#[trigger] earlier[k]).pending_id == PendingId(
                    (before.next_id + 2 * k) as u64,
                )
                &&& current.pending[earlier[k].pending_id].origin == (OriginView::Outbound {
                    peer,
                    address: kept[k],
                })
            },
        forall|k: int| 0 <= k < kept.len() ==> kept[k] != address,
        before.next_id + 2 * earlier.len() <= u64::MAX,
        a != b,
    ensures
        ({
            let after = current.add_pending(
                (OriginView::Outbound { peer, address }),
                user_data,
            );
            after.pending.contains_key(a) && after.pending.contains_key(b)
                && after.pending[a].origin is Outbound ==> after.pending[a].origin
                != after.pending[b].origin
        }),
{
    let fresh = OriginView::Outbound { peer, address };
    let other = if a == minted { b } else { a };
    if (a == minted || b == minted) && current.pending.contains_key(other) {
        if before.pending.contains_key(other) {
            assert(before.pending[other].origin.dialed_peer() != Some(peer));
        } else {
            assert(dialed(before.next_id, earlier.len()).contains(other));
            let k = (other.0 - before.next_id) / 2;
            assert(earlier[k].pending_id == other);
        }
    }
}

/// The front end of the network.
///
/// `TCommand` is what the front end sends to the task of a connection, and
/// `TReport` what the tasks send to the front end.
#[verifier::reject_recursive_types(TCommand)]
#[verifier::reject_recursive_types(TReport)]
pub struct NetworkService<TCommand, TReport> {
    peerset: Peerset<Sender<TCommand>, Sender<TCommand>>,
    noise_key: NoiseKey,
    to_foreground: Sender<TReport>,
}

impl<TCommand, TReport> View for NetworkService<TCommand, TReport> {
    type V = PeersetView<Sender<TCommand>, Sender<TCommand>>;

    closed spec fn view(&self) -> PeersetView<Sender<TCommand>, Sender<TCommand>> {
        self.peerset@
    }
}

impl<TCommand, TReport> NetworkService<TCommand, TReport> {
    /// The invariant of the service: that of its peerset, one overlay
    /// network, and no peer dialed twice at one address.
    pub closed spec fn wf(&self) -> bool {
        &&& self.peerset.wf()
        &&& self.peerset@.num_overlays == 1
        &&& no_duplicate_dials(self.peerset@)
    }

    /// What the invariant of the service says of its state.
    pub proof fn lemma_view_wf(&self)
        requires
            self.wf(),
        ensures
            self@.wf(),
            self@.num_overlays == 1,
            no_duplicate_dials(self@),
    {
        self.peerset.lemma_view_wf();
    }

    /// No two pending slots dial the same peer at the same address: every
    /// operation of the service keeps it so.
    pub proof fn lemma_dials_distinct(&self, a: PendingId, b: PendingId)
        requires
            self.wf(),
            a != b,
            self@.pending.contains_key(a),
            self@.pending.contains_key(b),
            self@.pending[a].origin is Outbound,
        ensures
            self@.pending[a].origin != self@.pending[b].origin,
    {
    }

    /// The peerset of the service, to read from.
    pub fn peerset(&self) -> (peerset: &Peerset<Sender<TCommand>, Sender<TCommand>>)
        ensures
            peerset@ == self@,
            self.wf() ==> peerset.wf(),
    {
        &self.peerset
    }

    /// A further sending end of the results channel, for a task that the
    /// caller starts itself, such as the task of a listening socket.
    pub fn to_foreground(&self) -> (sender: Sender<TReport>) {
        another_sender(&self.to_foreground)
    }

    /// The key of the encryption layer.
    pub fn noise_key(&self) -> (key: &NoiseKey)
        ensures
            key@ == self.spec_noise_key(),
    {
        &self.noise_key
    }

    /// Returns the number of established connections, both incoming and
    /// outgoing.
    pub fn num_established_connections(&self) -> (n: usize)
        requires
            self.wf(),
        ensures
            n == self@.established.len(),
    {
        self.peerset.num_established_connections()
    }
    /// The key of the encryption layer, as its bytes.
    pub closed spec fn spec_noise_key(&self) -> Seq<u8> {
        self.noise_key@
    }

    /// The sending end of the results channel that the service holds, and
    /// hands copies of to the tasks.
    pub closed spec fn spec_to_foreground(&self) -> Sender<TReport> {
        self.to_foreground
    }

    /// Initializes the network service with the given configuration, once
    /// the caller has tried to bind its listening sockets.
    ///
    /// The listening addresses are taken in their order, as the caller took
    /// them: each has to name an IP address and a TCP port, which
    /// [`multiaddr_to_listener`] turns into the socket to bind, and `binds`
    /// holds at the same place how binding that socket went. The first
    /// address that cannot be listened on, or whose socket could not be
    /// bound, ends the initialization with its error; what comes after it is
    /// not looked at, so that the caller need not have gone further. When
    /// every address has been bound, the service is made, with the receiving
    /// end of its results channel. The bootstrap nodes are known from the
    /// start, as members of the bootstrap overlay.
    pub fn new(config: Config, binds: Vec<Result<(), std::io::Error>>) -> (made: Result<
        (NetworkService<TCommand, TReport>, Receiver<TReport>),
        InitError,
    >)
        requires
            bind_outcomes_cover(config.listen_addresses@, binds@),
        ensures
            initialized(config, binds@, made),
    {
        let mut i: usize = 0;
        while i < config.listen_addresses.len()
            invariant
                i <= config.listen_addresses.len(),
                bind_outcomes_cover(config.listen_addresses@, binds@),
                listeners_bound_before(config.listen_addresses@, binds@, i as int),
            decreases config.listen_addresses.len() - i,
        {
            let address = config.listen_addresses[i].clone();
            if multiaddr_to_listener(&config.listen_addresses[i]).is_err() {
                return Err(InitError::BadListenMultiaddr(address));
            }
            assert(i < binds.len());
            if binds[i].is_err() {
                let mut outcomes = binds;
                return match outcomes.remove(i) {
                    Err(cause) => Err(InitError::ListenerIo(address, cause)),
                    Ok(_) => Err(InitError::BadListenMultiaddr(address)),
                };
            }
            i += 1;
        }
        let (to_foreground, from_background) = bounded_channel::<TReport>(RESULTS_CHANNEL_SIZE);
        let mut peerset: Peerset<Sender<TCommand>, Sender<TCommand>> = Peerset::new(
            peerset::Config {
                randomness_seed: random_seed(),
                peers_capacity: PEERS_CAPACITY,
                num_overlay_networks: 1,
            },
        );
        let ghost nodes = bootstrap_view(config.bootstrap_nodes@);
        let mut k: usize = 0;
        assert(nodes.take(0) =~= Seq::empty());
        assert(peerset@ =~= seeded::<Sender<TCommand>, Sender<TCommand>>(nodes.take(0)));
        while k < config.bootstrap_nodes.len()
            invariant
                k <= config.bootstrap_nodes.len(),
                nodes == bootstrap_view(config.bootstrap_nodes@),
                peerset.wf(),
                peerset@.num_overlays == 1,
                peerset@.pending =~= Map::<PendingId, PendingView<Sender<TCommand>>>::empty(),
                peerset@ == seeded::<Sender<TCommand>, Sender<TCommand>>(nodes.take(k as int)),
            decreases config.bootstrap_nodes.len() - k,
        {
            let peer = &config.bootstrap_nodes[k].0;
            let address = config.bootstrap_nodes[k].1.clone();
            proof {
                assert(nodes.take(k + 1).drop_last() =~= nodes.take(k as int));
                assert(nodes.take(k + 1).last() == (peer@, address@));
            }
            peerset.insert_peer(peer);
            let _ = peerset.add_known_address(peer, address);
            let _ = peerset.add_to_overlay(peer, BOOTSTRAP_OVERLAY);
            k += 1;
        }
        assert(nodes.take(k as int) =~= nodes);
        let service = NetworkService { peerset, noise_key: config.noise_key, to_foreground };
        Ok((service, from_background))
    }

    /// Initializes the network service like [`NetworkService::new`], for a
    /// caller that cannot tell whether `binds` holds every outcome that is
    /// needed: nothing is made, and `None` is the answer, when it does not.
    pub fn try_new(config: Config, binds: Vec<Result<(), std::io::Error>>) -> (answer: Option<
        Result<(NetworkService<TCommand, TReport>, Receiver<TReport>), InitError>,
    >)
        ensures
            match answer {
                Some(made) => bind_outcomes_cover(config.listen_addresses@, binds@)
                    && initialized(config, binds@, made),
                None => !bind_outcomes_cover(config.listen_addresses@, binds@),
            },
    {
        if bind_outcomes_suffice(&config.listen_addresses, &binds) {
            Some(Self::new(config, binds))
        } else {
            None
        }
    }

    /// Finds the connection on which to send a blocks request to `target`:
    /// the established connection to that peer that carries the least
    /// identifier, with the sending end of its command channel.
    ///
    /// Fails when no connection to `target` is established, whether the
    /// peer is known or not. Nothing changes either way, and on failure no
    /// task is named, so none can be contacted.
    pub fn blocks_request(&self, target: &PeerId) -> (found: Result<
        (ConnectionId, &Sender<TCommand>),
        (),
    >)
        requires
            self.wf(),
        ensures
            match found {
                Ok((connection, sender)) => {
                    &&& self@.connections_of(target@).contains(connection)
                    &&& forall|other: ConnectionId|
                        self@.connections_of(target@).contains(other) ==> connection.0 <= other.0
                    &&& *sender == self@.established[connection].user_data
                },
                Err(_) => !self@.has_established(target@),
            },
    {
        let connections = self.peerset.connections(target);
        if connections.len() == 0 {
            proof {
                if self@.has_established(target@) {
                    let id = choose|id: ConnectionId| #[trigger]
                        self@.established.contains_key(id) && self@.established[id].peer
                            == target@;
                    assert(self@.connections_of(target@).contains(id));
                    assert(connections@.to_set().contains(id));
                }
            }
            return Err(());
        }
        let mut connection = connections[0];
        let mut k: usize = 1;
        while k < connections.len()
            invariant
                1 <= k <= connections.len(),
                connections@.contains(connection),
                forall|j: int| 0 <= j < k ==> connection.0 <= (#[trigger] connections@[j]).0,
            decreases connections.len() - k,
        {
            if connections[k].0 < connection.0 {
                connection = connections[k];
            }
            k += 1;
        }
        proof {
            assert(connections@.to_set().contains(connection));
            assert forall|other: ConnectionId|
                self@.connections_of(target@).contains(other) implies connection.0
                <= other.0 by {
                assert(connections@.to_set().contains(other));
                let j = choose|j: int| 0 <= j < connections.len() && connections@[j] == other;
                assert(connection.0 <= connections@[j].0);
            }
        }
        match self.peerset.connection_user_data(connection) {
            Some(sender) => Ok((connection, sender)),
            None => Err(()),
        }
    }

    /// Handles one report of a background task, and says what the front end
    /// has to do about it.
    ///
    /// Only a successful handshake on a pending slot surfaces, as
    /// [`Reaction::Accept`] with the event for the application; everything
    /// else is absorbed. No report makes the service fail: one that names a
    /// slot that does not exist changes nothing.
    pub fn next_event(&mut self, message: FromBackground) -> (reaction: Reaction<TCommand, TReport>)
        requires
            old(self).wf(),
        ensures
            final(self).wf(),
            final(self).spec_noise_key() == old(self).spec_noise_key(),
            final(self).spec_to_foreground() == old(self).spec_to_foreground(),
            handled(old(self)@, message, final(self)@, reaction),
    {
        match message {
            FromBackground::NewConnection { is_initiator } => {
                let (sender, to_connection) = bounded_channel::<TCommand>(COMMAND_CHANNEL_SIZE);
                match self.peerset.add_inbound_attempt(sender) {
                    Ok(pending_id) => {
                        let to_foreground = another_sender(&self.to_foreground);
                        Reaction::Spawn { pending_id, is_initiator, to_foreground, to_connection }
                    },
                    Err(_) => Reaction::Reject,
                }
            },
            FromBackground::HandshakeError { connection_id, error: _ } => {
                let _ = self.peerset.remove_pending(connection_id);
                Reaction::Continue
            },
            FromBackground::HandshakeSuccess { connection_id, peer_id } => {
                let keep = |sender: Sender<TCommand>| -> (kept: Sender<TCommand>)
                    ensures
                        kept == sender,
                    { sender };
                match self.peerset.into_established(connection_id, peer_id.clone(), keep) {
                    Ok(minted) => Reaction::Accept {
                        connection_id: minted,
                        event: Event::Connected(peer_id),
                    },
                    Err(_) => Reaction::Refuse,
                }
            },
            FromBackground::Disconnected { connection_id } => {
                let _ = self.peerset.remove_connection(connection_id);
                Reaction::Continue
            },
            FromBackground::NotificationsOpenResult { connection_id: _, result: _ } => {
                Reaction::Continue
            },
            FromBackground::NotificationsCloseResult { connection_id: _ } => Reaction::Continue,
            FromBackground::NotificationsOpenDesired { connection_id: _ } => Reaction::Continue,
            FromBackground::NotificationsCloseDesired { connection_id: _ } => Reaction::Continue,
        }
    }
    /// Spawns new outgoing connections in order to fill empty outgoing
    /// slots.
    ///
    /// One peer of the bootstrap overlay that is neither dialed nor connected
    /// is picked, at random, and [`NetworkService::fill_slots_of`] does the
    /// rest. When no peer fits, nothing happens.
    pub fn fill_out_slots(&mut self) -> (dials: Vec<OutboundDial<TCommand, TReport>>)
        requires
            old(self).wf(),
        ensures
            final(self).wf(),
            final(self).spec_noise_key() == old(self).spec_noise_key(),
            final(self).spec_to_foreground() == old(self).spec_to_foreground(),
            (forall|peer: PeerKey| !old(self)@.not_connected(BOOTSTRAP_OVERLAY, peer))
                ==> final(self)@ == old(self)@ && dials.len() == 0,
            (exists|peer: PeerKey| old(self)@.not_connected(BOOTSTRAP_OVERLAY, peer))
                ==> exists|peer: PeerKey|
                #![trigger old(self)@.not_connected(BOOTSTRAP_OVERLAY, peer)]
                old(self)@.not_connected(BOOTSTRAP_OVERLAY, peer) && slots_filled(
                    old(self)@,
                    peer,
                    final(self)@,
                    dials@,
                ),
    {
        match self.peerset.random_not_connected(BOOTSTRAP_OVERLAY) {
            Some(peer) => self.fill_slots_of(&peer),
            None => Vec::new(),
        }
    }

    /// Dials `peer`, a peer of the bootstrap overlay that is neither dialed
    /// nor connected, at each of its addresses that can be dialed, and
    /// forgets the others: what happens is [`slots_filled`].
    pub fn fill_slots_of(&mut self, peer: &PeerId) -> (dials: Vec<
        OutboundDial<TCommand, TReport>,
    >)
        requires
            old(self).wf(),
            old(self)@.not_connected(BOOTSTRAP_OVERLAY, peer@),
        ensures
            final(self).wf(),
            final(self).spec_noise_key() == old(self).spec_noise_key(),
            final(self).spec_to_foreground() == old(self).spec_to_foreground(),
            slots_filled(old(self)@, peer@, final(self)@, dials@),
    {
        let mut dials: Vec<OutboundDial<TCommand, TReport>> = Vec::new();
        let ghost before = self.peerset@;
        proof {
            self.peerset.lemma_view_wf();
        }
        let known = match self.peerset.known_addresses(peer) {
            Some(known) => known,
            None => {
                return dials;
            },
        };
        let ghost list = before.peers[peer@].addresses;
        assert(list.len() == known.len());
        let mut i: usize = 0;
        proof {
            assert(list.take(0) =~= Seq::<Address>::empty());
            assert(list.skip(0) =~= list);
            assert(dialable_addresses(list.take(0)) + list.skip(0) =~= list);
            assert(self.peerset@.peers =~= before.peers.insert(
                peer@,
                PeerView { addresses: list, ..before.peers[peer@] },
            ));
            assert(self.peerset@.pending.dom() =~= before.pending.dom().union(
                dialed(before.next_id, 0),
            ));
        }
        while i < known.len()
            invariant
                i <= known.len(),
                before.wf(),
                before.num_overlays == 1,
                no_duplicate_dials(before),
                before.not_connected(BOOTSTRAP_OVERLAY, peer@),
                list == before.peers[peer@].addresses,
                addresses_view(known@) == list,
                self.peerset.wf(),
                self.spec_noise_key() == old(self).spec_noise_key(),
                self.spec_to_foreground() == old(self).spec_to_foreground(),
                no_duplicate_dials(self.peerset@),
                self.peerset@.num_overlays == 1,
                self.peerset@.peers == before.peers.insert(
                    peer@,
                    PeerView {
                        addresses: dialable_addresses(list.take(i as int)) + list.skip(i as int),
                        ..before.peers[peer@]
                    },
                ),
                self.peerset@.established == before.established,
                self.peerset@.next_id == before.next_id + 2 * dials.len(),
                dials.len() == dial_count(
                    before.next_id,
                    dialable_addresses(list.take(i as int)).len(),
                ),
                dials.len() <= dialable_addresses(list.take(i as int)).len(),
                self.peerset@.pending.dom() == before.pending.dom().union(
                    dialed(before.next_id, dials.len() as nat),
                ),
                forall|id: PendingId| #[trigger]
                    before.pending.contains_key(id) ==> self.peerset@.pending[id]
                        == before.pending[id],
                forall|k: int|
                    0 <= k < dials.len() ==> {
                        &&& (#[trigger] dials@[k]).pending_id == PendingId(
                            (before.next_id + 2 * k) as u64,
                        )
                        &&& dials@[k].address@ == dialable_addresses(list.take(i as int))[k]
                        &&& dial_target(dialable_addresses(list.take(i as int))[k]) == Some(
                            dials@[k].target@,
                        )
                        &&& self.peerset@.pending[dials@[k].pending_id].origin == (
                        OriginView::Outbound {
                            peer: peer@,
                            address: dialable_addresses(list.take(i as int))[k],
                        })
                    },
            decreases known.len() - i,
        {
            let ghost current = self.peerset@;
            let ghost kept = dialable_addresses(list.take(i as int));
            let ghost address = list[i as int];
            proof {
                lemma_dialable_step(list, i as int);
                lemma_dialable_from(list.take(i as int));
                assert(known@[i as int]@ == address);
                assert(before.peers[peer@].wf(before.num_overlays));
                assert(current.peers.contains_key(peer@));
                assert(current.peers[peer@].addresses == kept + list.skip(i as int));
                assert forall|k: int| 0 <= k < kept.len() implies kept[k] != address by {
                    assert(list.take(i as int).contains(kept[k]));
                    let j = choose|j: int|
                        0 <= j < list.take(i as int).len() && list.take(i as int)[j] == kept[k];
                    assert(list[j] == kept[k]);
                }
            }
            match multiaddr_to_socket(&known[i]) {
                Ok(target) => {
                    if self.peerset.identifiers_left() > 0 {
                        let (sender, to_connection) = bounded_channel::<TCommand>(
                            COMMAND_CHANNEL_SIZE,
                        );
                        let ghost attached = sender;
                        let minted = self.peerset.add_outbound_attempt(
                            peer,
                            known[i].clone(),
                            sender,
                        );
                        let pending_id = match minted {
                            Ok(pending_id) => pending_id,
                            Err(_) => {
                                assert(false);
                                return dials;
                            },
                        };
                        let to_foreground = another_sender(&self.to_foreground);
                        let ghost earlier = dials@;
                        dials.push(
                            OutboundDial {
                                pending_id,
                                address: known[i].clone(),
                                target,
                                to_foreground,
                                to_connection,
                            },
                        );
                        proof {
                            let after = self.peerset@;
                            let grown = kept.push(address);
                            assert(dialable_addresses(list.take(i + 1)) == grown);
                            assert(grown + list.skip(i + 1) =~= kept + list.skip(i as int));
                            assert(after.pending.dom() =~= before.pending.dom().union(
                                dialed(before.next_id, dials.len() as nat),
                            ));
                            assert(!before.pending.contains_key(pending_id));
                            assert forall|k: int| 0 <= k < dials.len() implies {
                                &&& (#[trigger] dials@[k]).pending_id == PendingId(
                                    (before.next_id + 2 * k) as u64,
                                )
                                &&& dials@[k].address@ == grown[k]
                                &&& dial_target(grown[k]) == Some(dials@[k].target@)
                                &&& after.pending[dials@[k].pending_id].origin == (
                                OriginView::Outbound { peer: peer@, address: grown[k] })
                            } by {
                                if k < earlier.len() {
                                    assert(dials@[k] == earlier[k]);
                                }
                            }
                            assert(no_duplicate_dials(after)) by {
                                assert forall|a: PendingId, b: PendingId|
                                    after.pending.contains_key(a) && after.pending.contains_key(b)
                                        && a != b && after.pending[a].origin
                                        is Outbound implies after.pending[a].origin
                                    != after.pending[b].origin by {
                                    lemma_fresh_dial(
                                        before,
                                        current,
                                        peer@,
                                        kept,
                                        address,
                                        earlier,
                                        a,
                                        b,
                                        pending_id,
                                        attached,
                                    );
                                }
                            }
                        }
                    } else {
                        proof {
                            let grown = kept.push(address);
                            assert(dialable_addresses(list.take(i + 1)) == grown);
                            assert(grown + list.skip(i + 1) =~= kept + list.skip(i as int));
                            assert forall|k: int| 0 <= k < dials.len() implies grown[k]
                                == kept[k] by {}
                        }
                    }
                },
                Err(_) => {
                    let _ = self.peerset.remove_known_address(peer, &known[i]);
                    proof {
                        let after = self.peerset@;
                        let mixed = kept + list.skip(i as int);
                        assert(mixed[kept.len() as int] == address);
                        assert(mixed.no_duplicates()) by {
                            assert forall|a: int, b: int|
                                0 <= a < mixed.len() && 0 <= b < mixed.len() && a
                                    != b implies mixed[a] != mixed[b] by {
                                lemma_mixed_distinct(list, i as int, a, b);
                            }
                        }
                        assert(mixed.contains(address));
                        assert(mixed.index_of(address) == kept.len());
                        assert(mixed.remove(kept.len() as int) =~= kept + list.skip(i + 1));
                        assert(dialable_addresses(list.take(i + 1)) == kept);
                        assert(after.peers =~= before.peers.insert(
                            peer@,
                            PeerView {
                                addresses: kept + list.skip(i + 1),
                                ..before.peers[peer@]
                            },
                        ));
                    }
                },
            }
            i += 1;
        }
        proof {
            assert(list.take(known.len() as int) =~= list);
            assert(dialable_addresses(list) + list.skip(known.len() as int)
                =~= dialable_addresses(list));
            assert(slots_filled(before, peer@, self.peerset@, dials@));
        }
        dials
    }
}

} // verus!
