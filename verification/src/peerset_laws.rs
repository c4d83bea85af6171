//! What the operations of the peerset add up to.

use vstd::prelude::*;

use crate::peerset_model::{
    add_address, remove_address, Address, ConnectionId, PeerKey, PeersetView, PendingId,
};

verus! {

/// One change to the addresses a peer is known under.
pub enum AddressOp {
    /// The address becomes known.
    Add(Address),
    /// The address is forgotten.
    Remove(Address),
}

/// The list of addresses after `op`.
pub open spec fn apply_op(addresses: Seq<Address>, op: AddressOp) -> Seq<Address> {
    match op {
        AddressOp::Add(address) => add_address(addresses, address),
        AddressOp::Remove(address) => remove_address(addresses, address),
    }
}

/// The list of addresses after each of `ops`, first to last.
pub open spec fn apply_ops(addresses: Seq<Address>, ops: Seq<AddressOp>) -> Seq<Address>
    decreases ops.len(),
{
    if ops.len() == 0 {
        addresses
    } else {
        apply_op(apply_ops(addresses, ops.drop_last()), ops.last())
    }
}

/// The set of addresses that `ops` make of the set `known`: each addition
/// puts its address in, each removal takes its address out.
pub open spec fn net_effect(known: Set<Address>, ops: Seq<AddressOp>) -> Set<Address>
    decreases ops.len(),
{
    if ops.len() == 0 {
        known
    } else {
        match ops.last() {
            AddressOp::Add(address) => net_effect(known, ops.drop_last()).insert(address),
            AddressOp::Remove(address) => net_effect(known, ops.drop_last()).remove(address),
        }
    }
}

/// Adding an address puts it into the set of known addresses, and leaves no
/// address twice in the list.
pub proof fn lemma_add_address(addresses: Seq<Address>, address: Address)
    requires
        addresses.no_duplicates(),
    ensures
        add_address(addresses, address).no_duplicates(),
        add_address(addresses, address).to_set() == addresses.to_set().insert(address),
{
    let after = add_address(addresses, address);
    assert forall|x: Address| after.to_set().contains(x) == addresses.to_set().insert(
        address,
    ).contains(x) by {
        if after.contains(x) && !addresses.contains(address) {
            let i = choose|i: int| 0 <= i < after.len() && after[i] == x;
            if i < addresses.len() {
                assert(addresses[i] == x);
            }
        }
        if addresses.contains(x) {
            let i = choose|i: int| 0 <= i < addresses.len() && addresses[i] == x;
            assert(after[i] == x);
        }
        if x == address && !addresses.contains(address) {
            assert(after[addresses.len() as int] == x);
        }
    }
    assert(after.to_set() =~= addresses.to_set().insert(address));
}

/// Removing an address takes it out of the set of known addresses, and
/// leaves no address twice in the list.
pub proof fn lemma_remove_address(addresses: Seq<Address>, address: Address)
    requires
        addresses.no_duplicates(),
    ensures
        remove_address(addresses, address).no_duplicates(),
        remove_address(addresses, address).to_set() == addresses.to_set().remove(address),
{
    let after = remove_address(addresses, address);
    if addresses.contains(address) {
        let at = addresses.index_of(address);
        assert forall|a: int, b: int|
            0 <= a < after.len() && 0 <= b < after.len() && a != b implies after[a]
            != after[b] by {
            let a0 = if a < at { a } else { a + 1 };
            let b0 = if b < at { b } else { b + 1 };
            assert(after[a] == addresses[a0] && after[b] == addresses[b0]);
        }
        assert forall|x: Address| after.to_set().contains(x) == addresses.to_set().remove(
            address,
        ).contains(x) by {
            if after.contains(x) {
                let i = choose|i: int| 0 <= i < after.len() && after[i] == x;
                let i0 = if i < at { i } else { i + 1 };
                assert(addresses[i0] == x);
            }
            if addresses.contains(x) && x != address {
                let i = choose|i: int| 0 <= i < addresses.len() && addresses[i] == x;
                let j = if i < at { i } else { i - 1 };
                assert(after[j] == x);
            }
        }
    }
    assert(after.to_set() =~= addresses.to_set().remove(address));
}

/// Adding an address twice is adding it once.
pub proof fn lemma_add_address_idempotent(addresses: Seq<Address>, address: Address)
    ensures
        add_address(add_address(addresses, address), address) == add_address(addresses, address),
{
    if !addresses.contains(address) {
        assert(addresses.push(address)[addresses.len() as int] == address);
    }
}

/// Removing an address that is not known changes nothing.
pub proof fn lemma_remove_absent_address(addresses: Seq<Address>, address: Address)
    requires
        !addresses.contains(address),
    ensures
        remove_address(addresses, address) == addresses,
{
}

/// After any sequence of additions and removals, the set of known
/// addresses is exactly the net effect of the sequence on the set that was
/// known before, and the list still holds no address twice.
pub proof fn lemma_address_ops_net_effect(addresses: Seq<Address>, ops: Seq<AddressOp>)
    requires
        addresses.no_duplicates(),
    ensures
        apply_ops(addresses, ops).no_duplicates(),
        apply_ops(addresses, ops).to_set() == net_effect(addresses.to_set(), ops),
    decreases ops.len(),
{
    if ops.len() > 0 {
        lemma_address_ops_net_effect(addresses, ops.drop_last());
        let so_far = apply_ops(addresses, ops.drop_last());
        match ops.last() {
            AddressOp::Add(address) => lemma_add_address(so_far, address),
            AddressOp::Remove(address) => lemma_remove_address(so_far, address),
        }
    }
}

/// The operations on the addresses of a peer are those of the lists above:
/// adding and removing an address in a peerset changes the list of that
/// peer, and of no other, as [`add_address`] and [`remove_address`] say.
pub proof fn lemma_address_ops_touch_one_peer<TConn, TPending>(
    state: PeersetView<TConn, TPending>,
    peer: PeerKey,
    address: Address,
    other: PeerKey,
)
    requires
        state.peers.contains_key(peer),
        state.peers.contains_key(other),
        other != peer,
    ensures
        state.add_known_address(peer, address).peers[peer].addresses == add_address(
            state.peers[peer].addresses,
            address,
        ),
        state.remove_known_address(peer, address).peers[peer].addresses == remove_address(
            state.peers[peer].addresses,
            address,
        ),
        state.add_known_address(peer, address).peers[other] == state.peers[other],
        state.remove_known_address(peer, address).peers[other] == state.peers[other],
{
}

/// No slot carries the identifier that will be minted next, nor any later
/// one: an identifier that has been handed out never comes back.
pub proof fn lemma_identifiers_fresh<TConn, TPending>(
    state: PeersetView<TConn, TPending>,
    number: u64,
)
    requires
        state.wf(),
        number >= state.next_id,
    ensures
        !state.pending.contains_key(PendingId(number)),
        !state.established.contains_key(ConnectionId(number)),
{
}

/// Promotion uses the pending slot up: afterwards the identifier names no
/// pending slot, so that a second promotion of it finds nothing, and exactly
/// one established slot has been added, under an identifier that no slot
/// carried. No promotion can fail for want of an identifier.
pub proof fn lemma_promotion_happens_once<TConn, TPending>(
    state: PeersetView<TConn, TPending>,
    id: PendingId,
    peer: PeerKey,
    user_data: TConn,
)
    requires
        state.wf(),
        state.pending.contains_key(id),
    ensures
        ({
            let after = state.into_established(id, peer, user_data);
            let connection = PeersetView::<TConn, TPending>::connection_of(id);
            &&& after.wf()
            &&& !after.pending.contains_key(id)
            &&& after.pending.len() == state.pending.len() - 1
            &&& !state.established.contains_key(connection)
            &&& after.established.dom() == state.established.dom().insert(connection)
            &&& after.established[connection].peer == peer
            &&& after.established.len() == state.established.len() + 1
            &&& forall|later: PendingId| #[trigger]
                after.pending.contains_key(later) ==> later != id
        }),
{
    let after = state.into_established(id, peer, user_data);
    let connection = PeersetView::<TConn, TPending>::connection_of(id);
    assert(after.established.dom() =~= state.established.dom().insert(connection));
    assert(after.pending.dom() =~= state.pending.dom().remove(id));
    assert(after.peers.dom().finite()) by {
        if !state.peers.contains_key(peer) {
            assert(after.peers.dom() =~= state.peers.dom().insert(peer));
        }
    }
    assert forall|key: PeerKey| #[trigger] after.peers.contains_key(key) implies after.peers[key].wf(
        after.num_overlays,
    ) by {
        if state.peers.contains_key(key) {
            assert(state.peers[key].wf(state.num_overlays));
        }
    }
}

/// The identifier of a pending slot and that of an established slot are
/// never the same number: the first is even, the second odd.
pub proof fn lemma_identifiers_never_equal<TConn, TPending>(
    state: PeersetView<TConn, TPending>,
    pending: PendingId,
    established: ConnectionId,
)
    requires
        state.wf(),
        state.pending.contains_key(pending),
        state.established.contains_key(established),
    ensures
        pending.0 != established.0,
        PeersetView::<TConn, TPending>::connection_of(pending) != established,
{
}

} // verus!
