//! The peerset: the peers a node knows of, the addresses it knows them
//! under, the overlay networks they belong to, and the connection slots,
//! pending and established, with what the caller attached to each.
//!
//! Everything here is synchronous and in memory, and assumes that the caller
//! has exclusive access. A failure is a value: no operation panics on an
//! identifier it does not know.

use rand::rngs::StdRng;
use vstd::prelude::*;

use crate::entropy::{random_in_range, seeded_generator};
use crate::multiaddr::{addresses_view, Multiaddr};
use crate::peer_id::PeerId;
use crate::peerset_model::{
    Address, ConnectionId, EstablishedView, OriginView, PeerKey, PeerView, PeersetError,
    PeersetView, PendingId, PendingView,
};
use crate::table::{
    keys_distinct, lemma_to_map_contains, lemma_to_map_len, lemma_to_map_push,
    lemma_to_map_remove, lemma_to_map_update, lemma_to_map_value, to_map,
};

verus! {

/// What a peerset is made with.
pub struct Config {
    /// Seed of the generator that picks among peers.
    pub randomness_seed: [u8; 32],
    /// Number of peer records to make room for at the start.
    pub peers_capacity: usize,
    /// Number of overlay networks; they are numbered from zero.
    pub num_overlay_networks: usize,
}

struct Peer {
    id: PeerId,
    addresses: Vec<Multiaddr>,
    overlays: Vec<bool>,
}

impl Peer {
    spec fn view(&self) -> PeerView {
        PeerView {
            addresses: addresses_view(self.addresses@),
            overlays: Set::new(
                |overlay: usize| overlay < self.overlays.len() && self.overlays@[overlay as int],
            ),
        }
    }

    spec fn wf(&self, num_overlays: usize) -> bool {
        &&& self.overlays.len() == num_overlays
        &&& self.view().addresses.no_duplicates()
    }
}

impl Peer {
    /// A record for `id` of which nothing is known yet.
    fn fresh(id: PeerId, num_overlays: usize) -> (peer: Peer)
        ensures
            peer.id@ == id@,
            peer.wf(num_overlays),
            peer.view() == PeerView::fresh(),
    {
        let mut overlays: Vec<bool> = Vec::with_capacity(num_overlays);
        while overlays.len() < num_overlays
            invariant
                overlays.len() <= num_overlays,
                forall|k: int| 0 <= k < overlays.len() ==> !overlays@[k],
            decreases num_overlays - overlays.len(),
        {
            overlays.push(false);
        }
        let peer = Peer { id, addresses: Vec::new(), overlays };
        assert(peer.view().addresses =~= Seq::<Address>::empty());
        assert(peer.view().overlays =~= Set::<usize>::empty());
        peer
    }

    /// Where `address` stands among the known addresses.
    fn position(&self, address: &Multiaddr) -> (found: Option<usize>)
        ensures
            match found {
                Some(i) => i < self.addresses.len() && self.view().addresses[i as int]
                    == address@,
                None => !self.view().addresses.contains(address@),
            },
    {
        let mut i: usize = 0;
        while i < self.addresses.len()
            invariant
                i <= self.addresses.len(),
                forall|k: int| 0 <= k < i ==> self.view().addresses[k] != address@,
            decreases self.addresses.len() - i,
        {
            if self.addresses[i].equals(address) {
                return Some(i);
            }
            i += 1;
        }
        None
    }
}

enum Origin {
    Inbound,
    Outbound { peer: PeerId, address: Multiaddr },
}

impl Origin {
    spec fn view(&self) -> OriginView {
        match *self {
            Origin::Inbound => OriginView::Inbound,
            Origin::Outbound { peer, address } => OriginView::Outbound {
                peer: peer@,
                address: address@,
            },
        }
    }
}

struct PendingSlot<TPending> {
    id: PendingId,
    origin: Origin,
    user_data: TPending,
}

impl<TPending> PendingSlot<TPending> {
    spec fn view(&self) -> PendingView<TPending> {
        PendingView { origin: self.origin.view(), user_data: self.user_data }
    }
}

struct EstablishedSlot<TConn> {
    id: ConnectionId,
    peer: PeerId,
    user_data: TConn,
}

impl<TConn> EstablishedSlot<TConn> {
    spec fn view(&self) -> EstablishedView<TConn> {
        EstablishedView { peer: self.peer@, user_data: self.user_data }
    }
}

spec fn peer_entries(peers: Seq<Peer>) -> Seq<(PeerKey, PeerView)> {
    peers.map_values(|p: Peer| (p.id@, p.view()))
}

spec fn pending_entries<TPending>(slots: Seq<PendingSlot<TPending>>) -> Seq<
    (PendingId, PendingView<TPending>),
> {
    slots.map_values(|s: PendingSlot<TPending>| (s.id, s.view()))
}

spec fn established_entries<TConn>(slots: Seq<EstablishedSlot<TConn>>) -> Seq<
    (ConnectionId, EstablishedView<TConn>),
> {
    slots.map_values(|s: EstablishedSlot<TConn>| (s.id, s.view()))
}

spec fn knows(peers: Seq<Peer>, key: PeerKey) -> bool {
    exists|k: int| 0 <= k < peers.len() && (#[trigger] peers[k]).id@ == key
}

spec fn peers_wf(peers: Seq<Peer>, num_overlays: usize) -> bool {
    &&& forall|i: int, j: int|
        0 <= i < j < peers.len() ==> (#[trigger] peers[i]).id@ != (#[trigger] peers[j]).id@
    &&& forall|i: int| 0 <= i < peers.len() ==> (#[trigger] peers[i]).wf(num_overlays)
}

spec fn pending_wf<TPending>(
    slots: Seq<PendingSlot<TPending>>,
    peers: Seq<Peer>,
    next_id: u64,
) -> bool {
    &&& forall|i: int, j: int|
        0 <= i < j < slots.len() ==> (#[trigger] slots[i]).id.0 < (#[trigger] slots[j]).id.0
    &&& forall|i: int|
        0 <= i < slots.len() ==> (#[trigger] slots[i]).id.0 < next_id && slots[i].id.0 % 2 == 0
    &&& forall|i: int|
        0 <= i < slots.len() ==> ((#[trigger] slots[i]).origin.view().dialed_peer() matches Some(
            key,
        ) ==> knows(peers, key))
}

spec fn established_wf<TConn>(
    slots: Seq<EstablishedSlot<TConn>>,
    peers: Seq<Peer>,
    next_id: u64,
) -> bool {
    &&& forall|i: int, j: int|
        0 <= i < j < slots.len() ==> (#[trigger] slots[i]).id != (#[trigger] slots[j]).id
    &&& forall|i: int|
        0 <= i < slots.len() ==> (#[trigger] slots[i]).id.0 < next_id && slots[i].id.0 % 2 == 1
    &&& forall|i: int| 0 <= i < slots.len() ==> knows(peers, (#[trigger] slots[i]).peer@)
}

spec fn slots_disjoint<TConn, TPending>(
    pending: Seq<PendingSlot<TPending>>,
    established: Seq<EstablishedSlot<TConn>>,
) -> bool {
    forall|i: int, j: int|
        0 <= i < pending.len() && 0 <= j < established.len() ==> (
        #[trigger] established[j]).id.0 != (#[trigger] pending[i]).id.0 + 1
}

/// Every identity of `before` still stands at its place in `after`.
spec fn ids_kept(before: Seq<Peer>, after: Seq<Peer>) -> bool {
    &&& before.len() <= after.len()
    &&& forall|k: int| 0 <= k < before.len() ==> (#[trigger] after[k]).id@ == before[k].id@
}

proof fn lemma_knows_kept(before: Seq<Peer>, after: Seq<Peer>, key: PeerKey)
    requires
        ids_kept(before, after),
        knows(before, key),
    ensures
        knows(after, key),
{
    let k = choose|k: int| 0 <= k < before.len() && (#[trigger] before[k]).id@ == key;
    assert(after[k].id@ == key);
}

proof fn lemma_pending_wf_kept<TPending>(
    slots: Seq<PendingSlot<TPending>>,
    before: Seq<Peer>,
    after: Seq<Peer>,
    next_before: u64,
    next_after: u64,
)
    requires
        pending_wf(slots, before, next_before),
        ids_kept(before, after),
        next_before <= next_after,
    ensures
        pending_wf(slots, after, next_after),
{
    assert forall|i: int| 0 <= i < slots.len() implies ((
    #[trigger] slots[i]).origin.view().dialed_peer() matches Some(key) ==> knows(after, key)) by {
        if let Some(key) = slots[i].origin.view().dialed_peer() {
            lemma_knows_kept(before, after, key);
        }
    }
}

proof fn lemma_established_wf_kept<TConn>(
    slots: Seq<EstablishedSlot<TConn>>,
    before: Seq<Peer>,
    after: Seq<Peer>,
    next_before: u64,
    next_after: u64,
)
    requires
        established_wf(slots, before, next_before),
        ids_kept(before, after),
        next_before <= next_after,
    ensures
        established_wf(slots, after, next_after),
{
    assert forall|i: int| 0 <= i < slots.len() implies knows(after, (#[trigger] slots[i]).peer@) by {
        lemma_knows_kept(before, after, slots[i].peer@);
    }
}

/// A further peer at the end adds its record to the map.
proof fn lemma_peers_pushed(peers: Seq<Peer>, peer: Peer)
    ensures
        to_map(peer_entries(peers.push(peer))) == to_map(peer_entries(peers)).insert(
            peer.id@,
            peer.view(),
        ),
        ids_kept(peers, peers.push(peer)),
{
    assert(peer_entries(peers.push(peer)) =~= peer_entries(peers).push((peer.id@, peer.view())));
    lemma_to_map_push(peer_entries(peers), peer.id@, peer.view());
}

/// A changed record under an unchanged identity replaces the record in the
/// map.
proof fn lemma_peers_updated(before: Seq<Peer>, after: Seq<Peer>, i: int, num_overlays: usize)
    requires
        peers_wf(before, num_overlays),
        0 <= i < before.len(),
        after.len() == before.len(),
        after[i].id@ == before[i].id@,
        after[i].wf(num_overlays),
        forall|k: int| 0 <= k < before.len() && k != i ==> after[k] == before[k],
    ensures
        peers_wf(after, num_overlays),
        ids_kept(before, after),
        to_map(peer_entries(after)) == to_map(peer_entries(before)).insert(
            before[i].id@,
            after[i].view(),
        ),
{
    let entries = peer_entries(before);
    assert(keys_distinct(entries)) by {
        assert forall|a: int, b: int| 0 <= a < b < entries.len() implies entries[a].0
            != entries[b].0 by {
            assert(before[a].id@ != before[b].id@);
        }
    }
    assert(peer_entries(after) =~= entries.update(i, (entries[i].0, after[i].view())));
    lemma_to_map_update(entries, i, after[i].view());
    assert forall|a: int, b: int| 0 <= a < b < after.len() implies (#[trigger] after[a]).id@ != (
    #[trigger] after[b]).id@ by {
        assert(before[a].id@ != before[b].id@);
    }
    assert forall|k: int| 0 <= k < after.len() implies (#[trigger] after[k]).wf(num_overlays) by {
        if k != i {
            assert(before[k].wf(num_overlays));
        }
    }
}

/// A further pending slot at the end adds it to the map.
proof fn lemma_pending_pushed<TPending>(
    slots: Seq<PendingSlot<TPending>>,
    slot: PendingSlot<TPending>,
    peers: Seq<Peer>,
    next_id: u64,
)
    requires
        pending_wf(slots, peers, next_id),
        slot.id.0 == next_id,
        next_id % 2 == 0,
        next_id + 2 <= u64::MAX,
        slot.origin.view().dialed_peer() matches Some(key) ==> knows(peers, key),
    ensures
        pending_wf(slots.push(slot), peers, (next_id + 2) as u64),
        to_map(pending_entries(slots.push(slot))) == to_map(pending_entries(slots)).insert(
            slot.id,
            slot.view(),
        ),
{
    assert(pending_entries(slots.push(slot)) =~= pending_entries(slots).push(
        (slot.id, slot.view()),
    ));
    lemma_to_map_push(pending_entries(slots), slot.id, slot.view());
    let after = slots.push(slot);
    assert forall|i: int, j: int| 0 <= i < j < after.len() implies (#[trigger] after[i]).id.0 < (
    #[trigger] after[j]).id.0 by {
        assert(slots[i].id.0 < next_id);
        if j < slots.len() {
            assert(slots[i].id.0 < slots[j].id.0);
        }
    }
    assert forall|i: int| 0 <= i < after.len() implies (#[trigger] after[i]).id.0 < (next_id
        + 2) as u64 && after[i].id.0 % 2 == 0 by {
        if i < slots.len() {
            assert(slots[i].id.0 < next_id);
        }
    }
    assert forall|i: int| 0 <= i < after.len() implies ((
    #[trigger] after[i]).origin.view().dialed_peer() matches Some(key) ==> knows(peers, key)) by {
        if i < slots.len() {
            assert(after[i] == slots[i]);
        }
    }
}

/// Taking a pending slot out takes it out of the map.
proof fn lemma_pending_removed<TPending>(
    slots: Seq<PendingSlot<TPending>>,
    i: int,
    peers: Seq<Peer>,
    next_id: u64,
)
    requires
        pending_wf(slots, peers, next_id),
        0 <= i < slots.len(),
    ensures
        pending_wf(slots.remove(i), peers, next_id),
        to_map(pending_entries(slots.remove(i))) == to_map(pending_entries(slots)).remove(
            slots[i].id,
        ),
{
    let entries = pending_entries(slots);
    assert(keys_distinct(entries)) by {
        assert forall|a: int, b: int| 0 <= a < b < entries.len() implies entries[a].0
            != entries[b].0 by {
            assert(slots[a].id.0 < slots[b].id.0);
        }
    }
    assert(pending_entries(slots.remove(i)) =~= entries.remove(i));
    lemma_to_map_remove(entries, i);
    let rest = slots.remove(i);
    assert forall|a: int, b: int| 0 <= a < b < rest.len() implies (#[trigger] rest[a]).id.0 < (
    #[trigger] rest[b]).id.0 by {
        let a0 = if a < i { a } else { a + 1 };
        let b0 = if b < i { b } else { b + 1 };
        assert(rest[a] == slots[a0] && rest[b] == slots[b0]);
        assert(slots[a0].id.0 < slots[b0].id.0);
    }
    assert forall|a: int| 0 <= a < rest.len() implies (#[trigger] rest[a]).id.0 < next_id
        && rest[a].id.0 % 2 == 0 && ((rest[a]).origin.view().dialed_peer() matches Some(key)
        ==> knows(peers, key)) by {
        let a0 = if a < i { a } else { a + 1 };
        assert(rest[a] == slots[a0]);
        assert(slots[a0].id.0 < next_id);
    }
}

/// A further established slot at the end adds it to the map.
proof fn lemma_established_pushed<TConn>(
    slots: Seq<EstablishedSlot<TConn>>,
    slot: EstablishedSlot<TConn>,
    peers: Seq<Peer>,
    next_id: u64,
)
    requires
        established_wf(slots, peers, next_id),
        slot.id.0 < next_id,
        slot.id.0 % 2 == 1,
        forall|i: int| 0 <= i < slots.len() ==> (#[trigger] slots[i]).id != slot.id,
        knows(peers, slot.peer@),
    ensures
        established_wf(slots.push(slot), peers, next_id),
        to_map(established_entries(slots.push(slot))) == to_map(
            established_entries(slots),
        ).insert(slot.id, slot.view()),
{
    assert(established_entries(slots.push(slot)) =~= established_entries(slots).push(
        (slot.id, slot.view()),
    ));
    lemma_to_map_push(established_entries(slots), slot.id, slot.view());
    let after = slots.push(slot);
    assert forall|i: int, j: int| 0 <= i < j < after.len() implies (#[trigger] after[i]).id != (
    #[trigger] after[j]).id by {
        assert(after[i] == slots[i]);
        if j < slots.len() {
            assert(slots[i].id != slots[j].id);
        }
    }
    assert forall|i: int| 0 <= i < after.len() implies (#[trigger] after[i]).id.0 < next_id
        && after[i].id.0 % 2 == 1 by {
        if i < slots.len() {
            assert(slots[i].id.0 < next_id);
        }
    }
    assert forall|i: int| 0 <= i < after.len() implies knows(peers, (#[trigger] after[i]).peer@) by {
        if i < slots.len() {
            assert(after[i] == slots[i]);
        }
    }
}

/// Taking an established slot out takes it out of the map.
proof fn lemma_established_removed<TConn>(
    slots: Seq<EstablishedSlot<TConn>>,
    i: int,
    peers: Seq<Peer>,
    next_id: u64,
)
    requires
        established_wf(slots, peers, next_id),
        0 <= i < slots.len(),
    ensures
        established_wf(slots.remove(i), peers, next_id),
        to_map(established_entries(slots.remove(i))) == to_map(established_entries(slots)).remove(
            slots[i].id,
        ),
{
    let entries = established_entries(slots);
    assert(keys_distinct(entries)) by {
        assert forall|a: int, b: int| 0 <= a < b < entries.len() implies entries[a].0
            != entries[b].0 by {
            assert(slots[a].id != slots[b].id);
        }
    }
    assert(established_entries(slots.remove(i)) =~= entries.remove(i));
    lemma_to_map_remove(entries, i);
    let rest = slots.remove(i);
    assert forall|a: int, b: int| 0 <= a < b < rest.len() implies (#[trigger] rest[a]).id != (
    #[trigger] rest[b]).id by {
        let a0 = if a < i { a } else { a + 1 };
        let b0 = if b < i { b } else { b + 1 };
        assert(rest[a] == slots[a0] && rest[b] == slots[b0]);
        assert(slots[a0].id != slots[b0].id);
    }
    assert forall|a: int| 0 <= a < rest.len() implies (#[trigger] rest[a]).id.0 < next_id
        && rest[a].id.0 % 2 == 1 && knows(peers, rest[a].peer@) by {
        let a0 = if a < i { a } else { a + 1 };
        assert(rest[a] == slots[a0]);
        assert(slots[a0].id.0 < next_id);
    }
}

/// The peers, addresses and connection slots of a node.
///
/// `TPending` is what the caller attaches to a pending slot, `TConn` what it
/// attaches to an established one.
pub struct Peerset<TConn, TPending> {
    num_overlay_networks: usize,
    peers: Vec<Peer>,
    pending: Vec<PendingSlot<TPending>>,
    established: Vec<EstablishedSlot<TConn>>,
    next_id: u64,
    generator: StdRng,
}

impl<TConn, TPending> View for Peerset<TConn, TPending> {
    type V = PeersetView<TConn, TPending>;

    closed spec fn view(&self) -> PeersetView<TConn, TPending> {
        PeersetView {
            num_overlays: self.num_overlay_networks,
            peers: to_map(peer_entries(self.peers@)),
            pending: to_map(pending_entries(self.pending@)),
            established: to_map(established_entries(self.established@)),
            next_id: self.next_id,
        }
    }
}

impl<TConn, TPending> Peerset<TConn, TPending> {
    /// The invariant of the structure: no identity and no identifier occurs
    /// twice, pending slots stand in the order in which they were made, and
    /// what [`PeersetView::wf`] asks for.
    pub closed spec fn wf(&self) -> bool {
        &&& self.next_id % 2 == 0
        &&& peers_wf(self.peers@, self.num_overlay_networks)
        &&& pending_wf(self.pending@, self.peers@, self.next_id)
        &&& established_wf(self.established@, self.peers@, self.next_id)
        &&& slots_disjoint(self.pending@, self.established@)
    }

    proof fn lemma_keys_distinct(&self)
        requires
            self.wf(),
        ensures
            keys_distinct(peer_entries(self.peers@)),
            keys_distinct(pending_entries(self.pending@)),
            keys_distinct(established_entries(self.established@)),
    {
        let peers = peer_entries(self.peers@);
        assert forall|i: int, j: int| 0 <= i < j < peers.len() implies peers[i].0
            != peers[j].0 by {
            assert(self.peers@[i].id@ != self.peers@[j].id@);
        }
        let pending = pending_entries(self.pending@);
        assert forall|i: int, j: int| 0 <= i < j < pending.len() implies pending[i].0
            != pending[j].0 by {
            assert(self.pending@[i].id.0 < self.pending@[j].id.0);
        }
        let established = established_entries(self.established@);
        assert forall|i: int, j: int| 0 <= i < j < established.len() implies established[i].0
            != established[j].0 by {
            assert(self.established@[i].id != self.established@[j].id);
        }
    }

    /// The record of a known peer is the one the map holds under its
    /// identity.
    proof fn lemma_peer_at(&self, i: int)
        requires
            self.wf(),
            0 <= i < self.peers.len(),
        ensures
            self@.peers.contains_key(self.peers@[i].id@),
            self@.peers[self.peers@[i].id@] == self.peers@[i].view(),
    {
        self.lemma_keys_distinct();
        lemma_to_map_value(peer_entries(self.peers@), i);
    }

    proof fn lemma_pending_at(&self, i: int)
        requires
            self.wf(),
            0 <= i < self.pending.len(),
        ensures
            self@.pending.contains_key(self.pending@[i].id),
            self@.pending[self.pending@[i].id] == self.pending@[i].view(),
    {
        self.lemma_keys_distinct();
        lemma_to_map_value(pending_entries(self.pending@), i);
    }

    proof fn lemma_established_at(&self, i: int)
        requires
            self.wf(),
            0 <= i < self.established.len(),
        ensures
            self@.established.contains_key(self.established@[i].id),
            self@.established[self.established@[i].id] == self.established@[i].view(),
    {
        self.lemma_keys_distinct();
        lemma_to_map_value(established_entries(self.established@), i);
    }

    /// A peer has a record exactly when the list holds its identity.
    proof fn lemma_knows(&self, key: PeerKey)
        ensures
            self@.peers.contains_key(key) <==> knows(self.peers@, key),
    {
        let entries = peer_entries(self.peers@);
        lemma_to_map_contains(entries, key);
        if self@.peers.contains_key(key) {
            let i = choose|i: int| 0 <= i < entries.len() && (#[trigger] entries[i]).0 == key;
            assert(self.peers@[i].id@ == key);
        }
        if knows(self.peers@, key) {
            let k = choose|k: int| 0 <= k < self.peers.len() && (#[trigger] self.peers@[k]).id@ == key;
            assert(entries[k].0 == key);
        }
    }

    /// A pending slot is in the map exactly when the list holds it.
    proof fn lemma_pending_index(&self, id: PendingId) -> (i: int)
        requires
            self@.pending.contains_key(id),
        ensures
            0 <= i < self.pending.len(),
            self.pending@[i].id == id,
    {
        let entries = pending_entries(self.pending@);
        lemma_to_map_contains(entries, id);
        let i = choose|i: int| 0 <= i < entries.len() && (#[trigger] entries[i]).0 == id;
        i
    }

    proof fn lemma_established_index(&self, id: ConnectionId) -> (i: int)
        requires
            self@.established.contains_key(id),
        ensures
            0 <= i < self.established.len(),
            self.established@[i].id == id,
    {
        let entries = established_entries(self.established@);
        lemma_to_map_contains(entries, id);
        let i = choose|i: int| 0 <= i < entries.len() && (#[trigger] entries[i]).0 == id;
        i
    }

    /// The invariant of the structure gives the invariant of its state.
    pub proof fn lemma_view_wf(&self)
        requires
            self.wf(),
        ensures
            self@.wf(),
    {
        self.lemma_keys_distinct();
        lemma_to_map_len(peer_entries(self.peers@));
        lemma_to_map_len(pending_entries(self.pending@));
        lemma_to_map_len(established_entries(self.established@));
        let view = self@;
        assert forall|peer: PeerKey| #[trigger]
            view.peers.contains_key(peer) implies view.peers[peer].wf(view.num_overlays) by {
            self.lemma_knows(peer);
            let k = choose|k: int|
                0 <= k < self.peers.len() && (#[trigger] self.peers@[k]).id@ == peer;
            self.lemma_peer_at(k);
            assert(self.peers@[k].wf(self.num_overlay_networks));
        }
        assert forall|id: PendingId| #[trigger] view.pending.contains_key(id) implies id.0
            < view.next_id && id.0 % 2 == 0 && (
        view.pending[id].origin.dialed_peer() matches Some(peer) ==> view.peers.contains_key(
            peer,
        )) by {
            let i = self.lemma_pending_index(id);
            self.lemma_pending_at(i);
            assert(self.pending@[i].id.0 < self.next_id);
            if let Some(peer) = view.pending[id].origin.dialed_peer() {
                assert(knows(self.peers@, peer));
                self.lemma_knows(peer);
            }
        }
        assert forall|id: ConnectionId| #[trigger] view.established.contains_key(id) implies id.0
            < view.next_id && id.0 % 2 == 1 && view.peers.contains_key(
            view.established[id].peer,
        ) by {
            let i = self.lemma_established_index(id);
            self.lemma_established_at(i);
            assert(self.established@[i].id.0 < self.next_id);
            assert(knows(self.peers@, self.established@[i].peer@));
            self.lemma_knows(view.established[id].peer);
        }
        assert forall|pending: PendingId, established: ConnectionId|
            view.pending.contains_key(pending) && view.established.contains_key(
                established,
            ) implies established.0 != pending.0 + 1 by {
            let i = self.lemma_pending_index(pending);
            let j = self.lemma_established_index(established);
            assert(self.established@[j].id.0 != self.pending@[i].id.0 + 1);
        }
    }

    /// An empty peerset: no peer, no slot, identifiers from zero.
    pub fn new(config: Config) -> (peerset: Self)
        ensures
            peerset.wf(),
            peerset@.num_overlays == config.num_overlay_networks,
            peerset@.peers == Map::<PeerKey, PeerView>::empty(),
            peerset@.pending == Map::<PendingId, PendingView<TPending>>::empty(),
            peerset@.established == Map::<ConnectionId, EstablishedView<TConn>>::empty(),
            peerset@.next_id == 0,
    {
        Peerset {
            num_overlay_networks: config.num_overlay_networks,
            peers: Vec::with_capacity(config.peers_capacity),
            pending: Vec::new(),
            established: Vec::new(),
            next_id: 0,
            generator: seeded_generator(config.randomness_seed),
        }
    }

    /// Number of overlay networks.
    pub fn num_overlay_networks(&self) -> (n: usize)
        ensures
            n == self@.num_overlays,
    {
        self.num_overlay_networks
    }

    /// How many pending slots can still be made before the identifiers run
    /// out.
    pub fn identifiers_left(&self) -> (left: u64)
        ensures
            left == (u64::MAX - self@.next_id) / 2,
    {
        (u64::MAX - self.next_id) / 2
    }

    /// Number of established connections.
    pub fn num_established_connections(&self) -> (n: usize)
        requires
            self.wf(),
        ensures
            n == self@.established.len(),
    {
        proof {
            self.lemma_keys_distinct();
            lemma_to_map_len(established_entries(self.established@));
        }
        self.established.len()
    }

    fn find_peer(&self, peer: &PeerId) -> (found: Option<usize>)
        ensures
            match found {
                Some(i) => i < self.peers.len() && self.peers@[i as int].id@ == peer@,
                None => !knows(self.peers@, peer@),
            },
    {
        let mut i: usize = 0;
        while i < self.peers.len()
            invariant
                i <= self.peers.len(),
                forall|k: int| 0 <= k < i ==> (#[trigger] self.peers@[k]).id@ != peer@,
            decreases self.peers.len() - i,
        {
            if self.peers[i].id.is(peer) {
                return Some(i);
            }
            i += 1;
        }
        None
    }

    fn find_pending(&self, id: PendingId) -> (found: Option<usize>)
        ensures
            match found {
                Some(i) => i < self.pending.len() && self.pending@[i as int].id == id,
                None => !self@.pending.contains_key(id),
            },
    {
        let mut i: usize = 0;
        while i < self.pending.len()
            invariant
                i <= self.pending.len(),
                forall|k: int| 0 <= k < i ==> (#[trigger] self.pending@[k]).id != id,
            decreases self.pending.len() - i,
        {
            if self.pending[i].id == id {
                return Some(i);
            }
            i += 1;
        }
        proof {
            if self@.pending.contains_key(id) {
                let k = self.lemma_pending_index(id);
            }
        }
        None
    }

    fn find_established(&self, id: ConnectionId) -> (found: Option<usize>)
        ensures
            match found {
                Some(i) => i < self.established.len() && self.established@[i as int].id == id,
                None => !self@.established.contains_key(id),
            },
    {
        let mut i: usize = 0;
        while i < self.established.len()
            invariant
                i <= self.established.len(),
                forall|k: int| 0 <= k < i ==> (#[trigger] self.established@[k]).id != id,
            decreases self.established.len() - i,
        {
            if self.established[i].id == id {
                return Some(i);
            }
            i += 1;
        }
        proof {
            if self@.established.contains_key(id) {
                let k = self.lemma_established_index(id);
            }
        }
        None
    }

    /// Whether a record exists for `peer`.
    pub fn contains_peer(&self, peer: &PeerId) -> (known: bool)
        ensures
            known == self@.peers.contains_key(peer@),
    {
        proof {
            self.lemma_knows(peer@);
        }
        self.find_peer(peer).is_some()
    }
    /// Makes sure that a record exists for `peer`, and says whether it had to
    /// be made.
    pub fn insert_peer(&mut self, peer: &PeerId) -> (created: bool)
        requires
            old(self).wf(),
        ensures
            final(self).wf(),
            created == !old(self)@.peers.contains_key(peer@),
            final(self)@ == old(self)@.insert_peer(peer@),
    {
        proof {
            self.lemma_knows(peer@);
        }
        match self.find_peer(peer) {
            Some(_) => false,
            None => {
                let record = Peer::fresh(peer.clone(), self.num_overlay_networks);
                proof {
                    lemma_peers_pushed(self.peers@, record);
                    lemma_pending_wf_kept(
                        self.pending@,
                        self.peers@,
                        self.peers@.push(record),
                        self.next_id,
                        self.next_id,
                    );
                    lemma_established_wf_kept(
                        self.established@,
                        self.peers@,
                        self.peers@.push(record),
                        self.next_id,
                        self.next_id,
                    );
                    assert forall|i: int| 0 <= i < self.peers.len() implies (
                    #[trigger] self.peers@[i]).id@ != record.id@ by {}
                }
                self.peers.push(record);
                true
            },
        }
    }

    /// Records that `peer` can be reached at `address`. Adding an address
    /// that is already known changes nothing.
    pub fn add_known_address(&mut self, peer: &PeerId, address: Multiaddr) -> (done: Result<
        (),
        PeersetError,
    >)
        requires
            old(self).wf(),
        ensures
            final(self).wf(),
            match done {
                Ok(_) => old(self)@.peers.contains_key(peer@) && final(self)@ == old(
                    self,
                )@.add_known_address(peer@, address@),
                Err(error) => error == PeersetError::UnknownPeer && !old(self)@.peers.contains_key(
                    peer@,
                ) && final(self)@ == old(self)@,
            },
    {
        proof {
            self.lemma_knows(peer@);
        }
        let i = match self.find_peer(peer) {
            Some(i) => i,
            None => {
                return Err(PeersetError::UnknownPeer);
            },
        };
        proof {
            self.lemma_peer_at(i as int);
        }
        if self.peers[i].position(&address).is_some() {
            assert(self@.peers.insert(peer@, self@.peers[peer@]) =~= self@.peers);
            return Ok(());
        }
        let ghost before = self.peers@;
        self.peers[i].addresses.push(address);
        proof {
            let after = self.peers@;
            assert(after[i as int].view().addresses =~= before[i as int].view().addresses.push(
                address@,
            ));
            assert(after[i as int].view().overlays =~= before[i as int].view().overlays);
            assert(before[i as int].wf(self.num_overlay_networks));
            lemma_peers_updated(before, after, i as int, self.num_overlay_networks);
            lemma_pending_wf_kept(self.pending@, before, after, self.next_id, self.next_id);
            lemma_established_wf_kept(
                self.established@,
                before,
                after,
                self.next_id,
                self.next_id,
            );
        }
        Ok(())
    }

    /// Forgets that `peer` can be reached at `address`.
    pub fn remove_known_address(&mut self, peer: &PeerId, address: &Multiaddr) -> (done: Result<
        (),
        PeersetError,
    >)
        requires
            old(self).wf(),
        ensures
            final(self).wf(),
            match done {
                Ok(_) => old(self)@.peers.contains_key(peer@) && old(
                    self,
                )@.peers[peer@].addresses.contains(address@) && final(self)@ == old(
                    self,
                )@.remove_known_address(peer@, address@),
                Err(PeersetError::UnknownPeer) => !old(self)@.peers.contains_key(peer@)
                    && final(self)@ == old(self)@,
                Err(PeersetError::UnknownAddress) => old(self)@.peers.contains_key(peer@) && !old(
                    self,
                )@.peers[peer@].addresses.contains(address@) && final(self)@ == old(self)@,
                Err(_) => false,
            },
    {
        proof {
            self.lemma_knows(peer@);
        }
        let i = match self.find_peer(peer) {
            Some(i) => i,
            None => {
                return Err(PeersetError::UnknownPeer);
            },
        };
        proof {
            self.lemma_peer_at(i as int);
        }
        let at = match self.peers[i].position(address) {
            Some(at) => at,
            None => {
                return Err(PeersetError::UnknownAddress);
            },
        };
        let ghost before = self.peers@;
        self.peers[i].addresses.remove(at);
        proof {
            let after = self.peers@;
            let known = before[i as int].view().addresses;
            assert(before[i as int].wf(self.num_overlay_networks));
            assert(known.contains(address@)) by {
                assert(known[at as int] == address@);
            }
            assert(known.index_of(address@) == at);
            assert(after[i as int].view().addresses =~= known.remove(at as int));
            assert(after[i as int].view().overlays =~= before[i as int].view().overlays);
            assert(known.remove(at as int).no_duplicates()) by {
                let rest = known.remove(at as int);
                assert forall|a: int, b: int|
                    0 <= a < rest.len() && 0 <= b < rest.len() && a != b implies rest[a]
                    != rest[b] by {
                    let a0 = if a < at { a } else { a + 1 };
                    let b0 = if b < at { b } else { b + 1 };
                    assert(rest[a] == known[a0] && rest[b] == known[b0]);
                }
            }
            lemma_peers_updated(before, after, i as int, self.num_overlay_networks);
            lemma_pending_wf_kept(self.pending@, before, after, self.next_id, self.next_id);
            lemma_established_wf_kept(
                self.established@,
                before,
                after,
                self.next_id,
                self.next_id,
            );
        }
        Ok(())
    }

    /// The addresses that `peer` is known under, oldest first.
    pub fn known_addresses(&self, peer: &PeerId) -> (known: Option<Vec<Multiaddr>>)
        requires
            self.wf(),
        ensures
            match known {
                Some(list) => self@.peers.contains_key(peer@) && addresses_view(list@)
                    == self@.peers[peer@].addresses,
                None => !self@.peers.contains_key(peer@),
            },
    {
        proof {
            self.lemma_knows(peer@);
        }
        let i = match self.find_peer(peer) {
            Some(i) => i,
            None => {
                return None;
            },
        };
        proof {
            self.lemma_peer_at(i as int);
        }
        let source = &self.peers[i].addresses;
        let mut list: Vec<Multiaddr> = Vec::with_capacity(source.len());
        let mut k: usize = 0;
        while k < source.len()
            invariant
                k <= source.len(),
                list.len() == k,
                forall|j: int| 0 <= j < k ==> list@[j]@ == source@[j]@,
            decreases source.len() - k,
        {
            list.push(source[k].clone());
            k += 1;
        }
        assert(addresses_view(list@) =~= addresses_view(source@));
        Some(list)
    }

    /// Makes `peer` a member of the overlay network `overlay`.
    pub fn add_to_overlay(&mut self, peer: &PeerId, overlay: usize) -> (done: Result<
        (),
        PeersetError,
    >)
        requires
            old(self).wf(),
        ensures
            final(self).wf(),
            match done {
                Ok(_) => old(self)@.peers.contains_key(peer@) && overlay < old(self)@.num_overlays
                    && final(self)@ == old(self)@.add_to_overlay(peer@, overlay),
                Err(PeersetError::UnknownPeer) => !old(self)@.peers.contains_key(peer@)
                    && final(self)@ == old(self)@,
                Err(PeersetError::UnknownOverlay) => old(self)@.peers.contains_key(peer@)
                    && overlay >= old(self)@.num_overlays && final(self)@ == old(self)@,
                Err(_) => false,
            },
    {
        proof {
            self.lemma_knows(peer@);
        }
        let i = match self.find_peer(peer) {
            Some(i) => i,
            None => {
                return Err(PeersetError::UnknownPeer);
            },
        };
        proof {
            self.lemma_peer_at(i as int);
            assert(self.peers@[i as int].wf(self.num_overlay_networks));
        }
        if overlay >= self.num_overlay_networks {
            return Err(PeersetError::UnknownOverlay);
        }
        let ghost before = self.peers@;
        self.peers[i].overlays[overlay] = true;
        proof {
            let after = self.peers@;
            assert(after[i as int].view().addresses =~= before[i as int].view().addresses);
            assert(after[i as int].view().overlays =~= before[i as int].view().overlays.insert(
                overlay,
            ));
            lemma_peers_updated(before, after, i as int, self.num_overlay_networks);
            lemma_pending_wf_kept(self.pending@, before, after, self.next_id, self.next_id);
            lemma_established_wf_kept(
                self.established@,
                before,
                after,
                self.next_id,
                self.next_id,
            );
        }
        Ok(())
    }

    /// Whether `peer` is known and a member of the overlay network `overlay`.
    pub fn is_in_overlay(&self, peer: &PeerId, overlay: usize) -> (member: bool)
        requires
            self.wf(),
        ensures
            member == (self@.peers.contains_key(peer@) && self@.peers[peer@].overlays.contains(
                overlay,
            )),
    {
        proof {
            self.lemma_knows(peer@);
        }
        match self.find_peer(peer) {
            Some(i) => {
                proof {
                    self.lemma_peer_at(i as int);
                }
                overlay < self.peers[i].overlays.len() && self.peers[i].overlays[overlay]
            },
            None => false,
        }
    }
    /// Adds a pending slot under the next identifier.
    fn push_pending(&mut self, origin: Origin, user_data: TPending) -> (id: PendingId)
        requires
            old(self).wf(),
            old(self)@.identifier_left(),
            origin.view().dialed_peer() matches Some(key) ==> knows(old(self).peers@, key),
        ensures
            final(self).wf(),
            id == PendingId(old(self)@.next_id),
            final(self)@ == old(self)@.add_pending(origin.view(), user_data),
    {
        let id = PendingId(self.next_id);
        let slot = PendingSlot { id, origin, user_data };
        proof {
            lemma_pending_pushed(self.pending@, slot, self.peers@, self.next_id);
            lemma_established_wf_kept(
                self.established@,
                self.peers@,
                self.peers@,
                self.next_id,
                (self.next_id + 2) as u64,
            );
            assert forall|i: int, j: int|
                0 <= i < self.pending@.push(slot).len() && 0 <= j
                    < self.established.len() implies (#[trigger] self.established@[j]).id.0 != (
            #[trigger] self.pending@.push(slot)[i]).id.0 + 1 by {
                assert(self.established@[j].id.0 < self.next_id);
                if i < self.pending.len() {
                    assert(self.established@[j].id.0 != self.pending@[i].id.0 + 1);
                }
            }
        }
        self.pending.push(slot);
        self.next_id = self.next_id + 2;
        id
    }

    /// Registers that the node starts dialing `peer` at `address`, and
    /// attaches `user_data` to the attempt.
    pub fn add_outbound_attempt(
        &mut self,
        peer: &PeerId,
        address: Multiaddr,
        user_data: TPending,
    ) -> (minted: Result<PendingId, PeersetError>)
        requires
            old(self).wf(),
        ensures
            final(self).wf(),
            match minted {
                Ok(id) => old(self)@.peers.contains_key(peer@) && old(self)@.identifier_left()
                    && id == PendingId(old(self)@.next_id) && final(self)@ == old(
                    self,
                )@.add_pending(
                    (OriginView::Outbound { peer: peer@, address: address@ }),
                    user_data,
                ),
                Err(PeersetError::UnknownPeer) => !old(self)@.peers.contains_key(peer@)
                    && final(self)@ == old(self)@,
                Err(PeersetError::IdentifiersExhausted) => old(self)@.peers.contains_key(peer@)
                    && !old(self)@.identifier_left() && final(self)@ == old(self)@,
                Err(_) => false,
            },
    {
        proof {
            self.lemma_knows(peer@);
        }
        if self.find_peer(peer).is_none() {
            return Err(PeersetError::UnknownPeer);
        }
        if self.next_id > u64::MAX - 2 {
            return Err(PeersetError::IdentifiersExhausted);
        }
        let origin = Origin::Outbound { peer: peer.clone(), address };
        Ok(self.push_pending(origin, user_data))
    }

    /// Registers a connection that a remote opened, of which the identity is
    /// not known yet, and attaches `user_data` to it.
    pub fn add_inbound_attempt(&mut self, user_data: TPending) -> (minted: Result<
        PendingId,
        PeersetError,
    >)
        requires
            old(self).wf(),
        ensures
            final(self).wf(),
            match minted {
                Ok(id) => old(self)@.identifier_left() && id == PendingId(old(self)@.next_id)
                    && final(self)@ == old(self)@.add_pending(OriginView::Inbound, user_data),
                Err(error) => error == PeersetError::IdentifiersExhausted && !old(
                    self,
                )@.identifier_left() && final(self)@ == old(self)@,
            },
    {
        if self.next_id > u64::MAX - 2 {
            return Err(PeersetError::IdentifiersExhausted);
        }
        Ok(self.push_pending(Origin::Inbound, user_data))
    }

    /// Turns the pending slot `id` into an established slot of `peer`, the
    /// identity that the handshake has verified.
    ///
    /// The pending identifier is used up, and the connection gets the
    /// identifier that was kept for it: one that no slot has carried before.
    /// What was attached to the pending slot goes through `transform`, and
    /// the result is attached to the established slot. A record is made for
    /// `peer` if it has none. Only a slot that is not pending cannot be
    /// promoted.
    pub fn into_established<F: FnOnce(TPending) -> TConn>(
        &mut self,
        id: PendingId,
        peer: PeerId,
        transform: F,
    ) -> (minted: Result<ConnectionId, PeersetError>)
        requires
            old(self).wf(),
            old(self)@.pending.contains_key(id) ==> call_requires(
                transform,
                (old(self)@.pending[id].user_data,),
            ),
        ensures
            final(self).wf(),
            match minted {
                Ok(connection) => {
                    &&& old(self)@.pending.contains_key(id)
                    &&& connection == PeersetView::<TConn, TPending>::connection_of(id)
                    &&& !old(self)@.established.contains_key(connection)
                    &&& final(self)@.established.contains_key(connection)
                    &&& call_ensures(
                        transform,
                        (old(self)@.pending[id].user_data,),
                        final(self)@.established[connection].user_data,
                    )
                    &&& final(self)@ == old(self)@.into_established(
                        id,
                        peer@,
                        final(self)@.established[connection].user_data,
                    )
                },
                Err(error) => error == PeersetError::UnknownPending && !old(
                    self,
                )@.pending.contains_key(id) && final(self)@ == old(self)@,
            },
    {
        let at = match self.find_pending(id) {
            Some(at) => at,
            None => {
                return Err(PeersetError::UnknownPending);
            },
        };
        let ghost before = *self;
        proof {
            self.lemma_pending_at(at as int);
            self.lemma_view_wf();
            lemma_pending_removed(self.pending@, at as int, self.peers@, self.next_id);
            self.lemma_knows(peer@);
            assert(before.pending@[at as int].id.0 < before.next_id);
            assert(before.pending@[at as int].id.0 % 2 == 0);
        }
        let connection = ConnectionId(id.0 + 1);
        let slot = self.pending.remove(at);
        let user_data = transform(slot.user_data);
        if self.find_peer(&peer).is_none() {
            let record = Peer::fresh(peer.clone(), self.num_overlay_networks);
            proof {
                lemma_peers_pushed(self.peers@, record);
                assert forall|i: int| 0 <= i < self.peers.len() implies (
                #[trigger] self.peers@[i]).id@ != record.id@ by {}
                assert(self.peers@.push(record)[self.peers.len() as int].id@ == peer@);
            }
            self.peers.push(record);
        }
        let established = EstablishedSlot { id: connection, peer, user_data };
        proof {
            assert(ids_kept(before.peers@, self.peers@));
            assert(knows(self.peers@, peer@));
            lemma_pending_wf_kept(
                self.pending@,
                before.peers@,
                self.peers@,
                self.next_id,
                self.next_id,
            );
            lemma_established_wf_kept(
                self.established@,
                before.peers@,
                self.peers@,
                self.next_id,
                self.next_id,
            );
            assert forall|j: int| 0 <= j < self.established.len() implies (
            #[trigger] self.established@[j]).id != connection by {
                assert(before.established@[j].id.0 != before.pending@[at as int].id.0 + 1);
            }
            lemma_established_pushed(self.established@, established, self.peers@, self.next_id);
            assert forall|i: int, j: int|
                0 <= i < self.pending.len() && 0 <= j < self.established@.push(
                    established,
                ).len() implies (#[trigger] self.established@.push(established)[j]).id.0 != (
            #[trigger] self.pending@[i]).id.0 + 1 by {
                let i0 = if i < at { i } else { i + 1 };
                assert(self.pending@[i] == before.pending@[i0]);
                if j < self.established.len() {
                    assert(before.established@[j].id.0 != before.pending@[i0].id.0 + 1);
                } else {
                    if i0 < at {
                        assert(before.pending@[i0].id.0 < before.pending@[at as int].id.0);
                    } else {
                        assert(before.pending@[at as int].id.0 < before.pending@[i0].id.0);
                    }
                }
            }
            if before@.established.contains_key(connection) {
                let j = before.lemma_established_index(connection);
            }
        }
        self.established.push(established);
        proof {
            assert(self@.established[connection] == established.view());
            assert(self@.peers == before@.insert_peer(peer@).peers);
        }
        Ok(connection)
    }

    /// Takes the pending slot `id` away and hands back what was attached to
    /// it. Nothing happens when no pending slot carries `id`.
    pub fn remove_pending(&mut self, id: PendingId) -> (removed: Option<TPending>)
        requires
            old(self).wf(),
        ensures
            final(self).wf(),
            final(self)@ == old(self)@.remove_pending(id),
            match removed {
                Some(user_data) => old(self)@.pending.contains_key(id) && user_data == old(
                    self,
                )@.pending[id].user_data,
                None => !old(self)@.pending.contains_key(id),
            },
    {
        match self.find_pending(id) {
            Some(at) => {
                proof {
                    self.lemma_pending_at(at as int);
                    lemma_pending_removed(self.pending@, at as int, self.peers@, self.next_id);
                    let rest = self.pending@.remove(at as int);
                    assert forall|i: int, j: int|
                        0 <= i < rest.len() && 0 <= j < self.established.len() implies (
                    #[trigger] self.established@[j]).id.0 != (#[trigger] rest[i]).id.0 + 1 by {
                        let i0 = if i < at { i } else { i + 1 };
                        assert(rest[i] == self.pending@[i0]);
                    }
                }
                let slot = self.pending.remove(at);
                Some(slot.user_data)
            },
            None => {
                assert(self@.pending.remove(id) =~= self@.pending);
                None
            },
        }
    }

    /// Takes the established slot `id` away and hands back what was attached
    /// to it. Nothing happens when no established slot carries `id`.
    pub fn remove_connection(&mut self, id: ConnectionId) -> (removed: Option<TConn>)
        requires
            old(self).wf(),
        ensures
            final(self).wf(),
            final(self)@ == old(self)@.remove_connection(id),
            match removed {
                Some(user_data) => old(self)@.established.contains_key(id) && user_data == old(
                    self,
                )@.established[id].user_data,
                None => !old(self)@.established.contains_key(id),
            },
    {
        match self.find_established(id) {
            Some(at) => {
                proof {
                    self.lemma_established_at(at as int);
                    lemma_established_removed(
                        self.established@,
                        at as int,
                        self.peers@,
                        self.next_id,
                    );
                    let rest = self.established@.remove(at as int);
                    assert forall|i: int, j: int|
                        0 <= i < self.pending.len() && 0 <= j < rest.len() implies (
                    #[trigger] rest[j]).id.0 != (#[trigger] self.pending@[i]).id.0 + 1 by {
                        let j0 = if j < at { j } else { j + 1 };
                        assert(rest[j] == self.established@[j0]);
                    }
                }
                let slot = self.established.remove(at);
                Some(slot.user_data)
            },
            None => {
                assert(self@.established.remove(id) =~= self@.established);
                None
            },
        }
    }

    /// What is attached to the pending slot `id`.
    pub fn pending_user_data(&self, id: PendingId) -> (found: Option<&TPending>)
        requires
            self.wf(),
        ensures
            match found {
                Some(user_data) => self@.pending.contains_key(id) && *user_data
                    == self@.pending[id].user_data,
                None => !self@.pending.contains_key(id),
            },
    {
        match self.find_pending(id) {
            Some(at) => {
                proof {
                    self.lemma_pending_at(at as int);
                }
                Some(&self.pending[at].user_data)
            },
            None => None,
        }
    }

    /// What is attached to the established slot `id`.
    pub fn connection_user_data(&self, id: ConnectionId) -> (found: Option<&TConn>)
        requires
            self.wf(),
        ensures
            match found {
                Some(user_data) => self@.established.contains_key(id) && *user_data
                    == self@.established[id].user_data,
                None => !self@.established.contains_key(id),
            },
    {
        match self.find_established(id) {
            Some(at) => {
                proof {
                    self.lemma_established_at(at as int);
                }
                Some(&self.established[at].user_data)
            },
            None => None,
        }
    }
    /// The established connections of `peer`, each once.
    pub fn connections(&self, peer: &PeerId) -> (list: Vec<ConnectionId>)
        requires
            self.wf(),
        ensures
            list@.to_set() == self@.connections_of(peer@),
            list@.no_duplicates(),
    {
        let mut list: Vec<ConnectionId> = Vec::new();
        let mut i: usize = 0;
        while i < self.established.len()
            invariant
                self.wf(),
                i <= self.established.len(),
                forall|j: int|
                    #![trigger list@[j]]
                    0 <= j < list.len() ==> exists|k: int|
                        0 <= k < i && (#[trigger] self.established@[k]).id == list@[j]
                            && self.established@[k].peer@ == peer@,
                forall|k: int|
                    0 <= k < i && (#[trigger] self.established@[k]).peer@ == peer@
                        ==> list@.contains(self.established@[k].id),
                list@.no_duplicates(),
            decreases self.established.len() - i,
        {
            if self.established[i].peer.is(peer) {
                let ghost before = list@;
                let id = self.established[i].id;
                proof {
                    assert forall|a: int| 0 <= a < before.len() implies before[a] != id by {
                        let k = choose|k: int|
                            0 <= k < i && (#[trigger] self.established@[k]).id == before[a]
                                && self.established@[k].peer@ == peer@;
                        assert(self.established@[k].id != self.established@[i as int].id);
                    }
                }
                list.push(id);
                proof {
                    assert(list@[before.len() as int] == id);
                    assert forall|k: int|
                        0 <= k < i + 1 && (#[trigger] self.established@[k]).peer@
                            == peer@ implies list@.contains(self.established@[k].id) by {
                        if k < i {
                            assert(before.contains(self.established@[k].id));
                            let a = choose|a: int|
                                0 <= a < before.len() && before[a] == self.established@[k].id;
                            assert(list@[a] == self.established@[k].id);
                        }
                    }
                    assert forall|j: int|
                        #![trigger list@[j]]
                        0 <= j < list.len() implies exists|k: int|
                        0 <= k < i + 1 && (#[trigger] self.established@[k]).id == list@[j]
                            && self.established@[k].peer@ == peer@ by {
                        if j < before.len() {
                            let k = choose|k: int|
                                0 <= k < i && (#[trigger] self.established@[k]).id == before[j]
                                    && self.established@[k].peer@ == peer@;
                            assert(self.established@[k].id == list@[j]);
                        } else {
                            assert(self.established@[i as int].id == list@[j]);
                        }
                    }
                }
            }
            i += 1;
        }
        proof {
            assert forall|id: ConnectionId|
                list@.to_set().contains(id) == self@.connections_of(peer@).contains(id) by {
                if list@.to_set().contains(id) {
                    let j = choose|j: int| 0 <= j < list.len() && list@[j] == id;
                    let k = choose|k: int|
                        0 <= k < i && (#[trigger] self.established@[k]).id == list@[j]
                            && self.established@[k].peer@ == peer@;
                    self.lemma_established_at(k);
                }
                if self@.connections_of(peer@).contains(id) {
                    let k = self.lemma_established_index(id);
                    self.lemma_established_at(k);
                    assert(self.established@[k].peer@ == peer@);
                    assert(list@.contains(id));
                }
            }
            assert(list@.to_set() =~= self@.connections_of(peer@));
        }
        list
    }

    /// Whether a pending slot dials `peer` or an established slot belongs to
    /// it.
    pub fn is_connected(&self, peer: &PeerId) -> (connected: bool)
        requires
            self.wf(),
        ensures
            connected == (self@.has_pending(peer@) || self@.has_established(peer@)),
    {
        let mut i: usize = 0;
        while i < self.pending.len()
            invariant
                self.wf(),
                i <= self.pending.len(),
                forall|k: int|
                    0 <= k < i ==> (#[trigger] self.pending@[k]).origin.view().dialed_peer()
                        != Some(peer@),
            decreases self.pending.len() - i,
        {
            let dials = match &self.pending[i].origin {
                Origin::Inbound => false,
                Origin::Outbound { peer: dialed, .. } => dialed.is(peer),
            };
            if dials {
                proof {
                    self.lemma_pending_at(i as int);
                }
                return true;
            }
            i += 1;
        }
        proof {
            if self@.has_pending(peer@) {
                let id = choose|id: PendingId| #[trigger]
                    self@.pending.contains_key(id) && self@.pending[id].origin.dialed_peer()
                        == Some(peer@);
                let k = self.lemma_pending_index(id);
                self.lemma_pending_at(k);
            }
        }
        let mut j: usize = 0;
        while j < self.established.len()
            invariant
                self.wf(),
                !self@.has_pending(peer@),
                j <= self.established.len(),
                forall|k: int| 0 <= k < j ==> (#[trigger] self.established@[k]).peer@ != peer@,
            decreases self.established.len() - j,
        {
            if self.established[j].peer.is(peer) {
                proof {
                    self.lemma_established_at(j as int);
                }
                return true;
            }
            j += 1;
        }
        proof {
            if self@.has_established(peer@) {
                let id = choose|id: ConnectionId| #[trigger]
                    self@.established.contains_key(id) && self@.established[id].peer == peer@;
                let k = self.lemma_established_index(id);
                self.lemma_established_at(k);
            }
        }
        false
    }

    /// Picks, at random, a peer of the overlay network `overlay` that no
    /// pending slot dials and to which no connection is established.
    ///
    /// Which of the peers fit is decided here; which of those is handed out
    /// is up to the generator. No peer fits an overlay that does not exist.
    pub fn random_not_connected(&mut self, overlay: usize) -> (picked: Option<PeerId>)
        requires
            old(self).wf(),
        ensures
            final(self).wf(),
            final(self)@ == old(self)@,
            match picked {
                Some(peer) => old(self)@.not_connected(overlay, peer@),
                None => forall|key: PeerKey| !old(self)@.not_connected(overlay, key),
            },
    {
        let mut candidates: Vec<usize> = Vec::new();
        let mut i: usize = 0;
        while i < self.peers.len()
            invariant
                self.wf(),
                i <= self.peers.len(),
                forall|c: int|
                    0 <= c < candidates.len() ==> (#[trigger] candidates@[c]) < i
                        && self@.not_connected(overlay, self.peers@[candidates@[c] as int].id@),
                forall|k: int|
                    0 <= k < i && self@.not_connected(overlay, (#[trigger] self.peers@[k]).id@)
                        ==> candidates@.len() > 0,
            decreases self.peers.len() - i,
        {
            proof {
                self.lemma_peer_at(i as int);
                assert(self.peers@[i as int].wf(self.num_overlay_networks));
            }
            let member = overlay < self.peers[i].overlays.len() && self.peers[i].overlays[overlay];
            if member && !self.is_connected(&self.peers[i].id) {
                candidates.push(i);
            }
            i += 1;
        }
        if candidates.len() == 0 {
            proof {
                assert forall|key: PeerKey| !self@.not_connected(overlay, key) by {
                    if self@.not_connected(overlay, key) {
                        self.lemma_knows(key);
                        let k = choose|k: int|
                            0 <= k < self.peers.len() && (#[trigger] self.peers@[k]).id@ == key;
                        assert(candidates@.len() > 0);
                    }
                }
            }
            return None;
        }
        let drawn = random_in_range(&mut self.generator, 0, candidates.len());
        let at = candidates[drawn];
        Some(self.peers[at].id.clone())
    }
}

} // verus!
