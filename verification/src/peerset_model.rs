//! What a peerset is, as mathematics: the identifiers of its connection
//! slots, the maps that describe its peers and slots, and what each operation
//! does to those maps.

use vstd::prelude::*;

use crate::multiaddr::ProtocolView;

verus! {

/// An identity, as its bytes.
pub type PeerKey = Seq<u8>;

/// An address, as its protocols.
pub type Address = Seq<ProtocolView>;

/// Identifier of a connection slot whose handshake has not finished.
///
/// An identifier is minted once and never again. The identifiers of pending
/// slots carry the even numbers, in the order in which they are minted; the
/// odd number after each is kept for the connection that the slot may
/// become, so that no number ever names both a pending and an established
/// slot.
#[derive(Clone, Copy, Debug, PartialEq, Eq, Structural, Hash, PartialOrd, Ord)]
pub struct PendingId(pub u64);

/// Identifier of a connection slot whose handshake has succeeded.
#[derive(Clone, Copy, Debug, PartialEq, Eq, Structural, Hash, PartialOrd, Ord)]
pub struct ConnectionId(pub u64);

/// Why an operation on the peerset was refused.
#[derive(Clone, Copy, Debug, PartialEq, Eq, Structural, Hash)]
pub enum PeersetError {
    /// No peer record exists for the identity.
    UnknownPeer,
    /// The peer record does not hold the address.
    UnknownAddress,
    /// The peerset has no overlay network of that index.
    UnknownOverlay,
    /// No pending slot carries the identifier.
    UnknownPending,
    /// Every identifier has been handed out.
    IdentifiersExhausted,
}

/// `addresses` with `address` known: added at the end unless already there.
pub open spec fn add_address(addresses: Seq<Address>, address: Address) -> Seq<Address> {
    if addresses.contains(address) {
        addresses
    } else {
        addresses.push(address)
    }
}

/// `addresses` with `address` forgotten: taken out if it was there.
pub open spec fn remove_address(addresses: Seq<Address>, address: Address) -> Seq<Address> {
    if addresses.contains(address) {
        addresses.remove(addresses.index_of(address))
    } else {
        addresses
    }
}

/// What is known of one peer.
pub struct PeerView {
    /// The addresses the peer is known under, oldest first, each once.
    pub addresses: Seq<Address>,
    /// The overlay networks the peer belongs to.
    pub overlays: Set<usize>,
}

impl PeerView {
    /// A peer of which nothing is known yet.
    pub open spec fn fresh() -> PeerView {
        PeerView { addresses: Seq::empty(), overlays: Set::empty() }
    }

    /// No address occurs twice, and every overlay exists.
    pub open spec fn wf(self, num_overlays: usize) -> bool {
        &&& self.addresses.no_duplicates()
        &&& forall|overlay: usize| self.overlays.contains(overlay) ==> overlay < num_overlays
    }
}

/// How a pending slot came about.
pub enum OriginView {
    /// A remote connected to a listening socket; who it is is not known yet.
    Inbound,
    /// The node dials `peer` at `address`.
    Outbound { peer: PeerKey, address: Address },
}

impl OriginView {
    /// The peer that the slot dials, if it dials one.
    pub open spec fn dialed_peer(self) -> Option<PeerKey> {
        match self {
            OriginView::Inbound => None,
            OriginView::Outbound { peer, .. } => Some(peer),
        }
    }
}

/// A slot whose handshake has not finished.
pub struct PendingView<TPending> {
    pub origin: OriginView,
    pub user_data: TPending,
}

/// A slot whose handshake has succeeded.
pub struct EstablishedView<TConn> {
    /// The identity that the remote proved during the handshake.
    pub peer: PeerKey,
    pub user_data: TConn,
}

/// The state of a peerset.
pub struct PeersetView<TConn, TPending> {
    /// Number of overlay networks; they are numbered from zero.
    pub num_overlays: usize,
    /// The peer records, by identity.
    pub peers: Map<PeerKey, PeerView>,
    /// The slots whose handshake has not finished.
    pub pending: Map<PendingId, PendingView<TPending>>,
    /// The slots whose handshake has succeeded.
    pub established: Map<ConnectionId, EstablishedView<TConn>>,
    /// The number that the next identifier will carry.
    pub next_id: u64,
}

impl<TConn, TPending> PeersetView<TConn, TPending> {
    /// What every peerset satisfies: finitely many records, no identifier at
    /// or above the next one, even numbers for pending slots and odd ones
    /// for established slots, the number after that of each pending slot
    /// still free, and a record for every peer that a slot names.
    pub open spec fn wf(self) -> bool {
        &&& self.peers.dom().finite()
        &&& self.pending.dom().finite()
        &&& self.established.dom().finite()
        &&& forall|peer: PeerKey| #[trigger]
            self.peers.contains_key(peer) ==> self.peers[peer].wf(self.num_overlays)
        &&& self.next_id % 2 == 0
        &&& forall|id: PendingId| #[trigger]
            self.pending.contains_key(id) ==> id.0 < self.next_id && id.0 % 2 == 0 && (
            self.pending[id].origin.dialed_peer() matches Some(peer) ==> self.peers.contains_key(
                peer,
            ))
        &&& forall|id: ConnectionId| #[trigger]
            self.established.contains_key(id) ==> id.0 < self.next_id && id.0 % 2 == 1
                && self.peers.contains_key(self.established[id].peer)
        &&& forall|pending: PendingId, established: ConnectionId|
            #![trigger self.pending.contains_key(pending), self.established.contains_key(established)]
            self.pending.contains_key(pending) && self.established.contains_key(established)
                ==> established.0 != pending.0 + 1
    }

    /// A pending slot dials `peer`.
    pub open spec fn has_pending(self, peer: PeerKey) -> bool {
        exists|id: PendingId| #[trigger]
            self.pending.contains_key(id) && self.pending[id].origin.dialed_peer() == Some(peer)
    }

    /// An established slot belongs to `peer`.
    pub open spec fn has_established(self, peer: PeerKey) -> bool {
        exists|id: ConnectionId| #[trigger]
            self.established.contains_key(id) && self.established[id].peer == peer
    }

    /// `peer` is known, belongs to `overlay`, and no slot dials it or belongs
    /// to it.
    pub open spec fn not_connected(self, overlay: usize, peer: PeerKey) -> bool {
        &&& self.peers.contains_key(peer)
        &&& self.peers[peer].overlays.contains(overlay)
        &&& !self.has_pending(peer)
        &&& !self.has_established(peer)
    }

    /// The established slots that belong to `peer`.
    pub open spec fn connections_of(self, peer: PeerKey) -> Set<ConnectionId> {
        Set::new(
            |id: ConnectionId| self.established.contains_key(id) && self.established[id].peer == peer,
        )
    }

    /// The state with a record for `peer`: a fresh one unless it has one.
    pub open spec fn insert_peer(self, peer: PeerKey) -> Self {
        if self.peers.contains_key(peer) {
            self
        } else {
            PeersetView { peers: self.peers.insert(peer, PeerView::fresh()), ..self }
        }
    }

    /// The state with `address` known of `peer`.
    pub open spec fn add_known_address(self, peer: PeerKey, address: Address) -> Self
        recommends
            self.peers.contains_key(peer),
    {
        PeersetView {
            peers: self.peers.insert(
                peer,
                PeerView {
                    addresses: add_address(self.peers[peer].addresses, address),
                    ..self.peers[peer]
                },
            ),
            ..self
        }
    }

    /// The state with `address` forgotten of `peer`.
    pub open spec fn remove_known_address(self, peer: PeerKey, address: Address) -> Self
        recommends
            self.peers.contains_key(peer),
    {
        PeersetView {
            peers: self.peers.insert(
                peer,
                PeerView {
                    addresses: remove_address(self.peers[peer].addresses, address),
                    ..self.peers[peer]
                },
            ),
            ..self
        }
    }

    /// The state with `peer` a member of `overlay`.
    pub open spec fn add_to_overlay(self, peer: PeerKey, overlay: usize) -> Self
        recommends
            self.peers.contains_key(peer),
    {
        PeersetView {
            peers: self.peers.insert(
                peer,
                PeerView {
                    overlays: self.peers[peer].overlays.insert(overlay),
                    ..self.peers[peer]
                },
            ),
            ..self
        }
    }

    /// Whether a pending slot can still be made: an identifier is left for
    /// it, and one for the connection that it may become.
    pub open spec fn identifier_left(self) -> bool {
        self.next_id + 2 <= u64::MAX
    }

    /// The identifier of the connection that the pending slot `id` becomes.
    pub open spec fn connection_of(id: PendingId) -> ConnectionId {
        ConnectionId((id.0 + 1) as u64)
    }

    /// The state with one more pending slot, under the next identifier.
    pub open spec fn add_pending(self, origin: OriginView, user_data: TPending) -> Self
        recommends
            self.identifier_left(),
    {
        PeersetView {
            pending: self.pending.insert(
                PendingId(self.next_id),
                PendingView { origin, user_data },
            ),
            next_id: (self.next_id + 2) as u64,
            ..self
        }
    }

    /// The state after the pending slot `id` has become an established slot
    /// of `peer`, under the identifier kept for it and with `user_data`.
    pub open spec fn into_established(self, id: PendingId, peer: PeerKey, user_data: TConn) -> Self
        recommends
            self.pending.contains_key(id),
    {
        PeersetView {
            peers: self.insert_peer(peer).peers,
            pending: self.pending.remove(id),
            established: self.established.insert(
                Self::connection_of(id),
                EstablishedView { peer, user_data },
            ),
            ..self
        }
    }

    /// The state without the pending slot `id`.
    pub open spec fn remove_pending(self, id: PendingId) -> Self {
        PeersetView { pending: self.pending.remove(id), ..self }
    }

    /// The state without the established slot `id`.
    pub open spec fn remove_connection(self, id: ConnectionId) -> Self {
        PeersetView { established: self.established.remove(id), ..self }
    }
}

} // verus!
