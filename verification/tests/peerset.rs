use peer_network::multiaddr::{Multiaddr, Protocol};
use peer_network::peer_id::PeerId;
use peer_network::peerset::{Config, Peerset};
use peer_network::peerset_model::{ConnectionId, PeersetError, PendingId};

fn peerset(overlays: usize) -> Peerset<u32, u32> {
    Peerset::new(Config {
        randomness_seed: [7; 32],
        peers_capacity: 4,
        num_overlay_networks: overlays,
    })
}

fn peer(byte: u8) -> PeerId {
    PeerId::from_bytes(vec![byte, 2, 3])
}

fn ip4(last: u8, port: u16) -> Multiaddr {
    Multiaddr::empty()
        .with(Protocol::Ip4([10, 0, 0, last]))
        .with(Protocol::Tcp(port))
}

#[test]
fn new_peerset_is_empty() {
    let mut set = peerset(2);
    assert_eq!(set.num_overlay_networks(), 2);
    assert_eq!(set.num_established_connections(), 0);
    assert!(!set.contains_peer(&peer(1)));
    assert_eq!(set.identifiers_left(), u64::MAX / 2);
    assert_eq!(set.random_not_connected(0), None);
    assert_eq!(set.connections(&peer(1)), vec![]);
}

#[test]
fn insert_peer_creates_once() {
    let mut set = peerset(1);
    assert!(set.insert_peer(&peer(1)));
    assert!(!set.insert_peer(&peer(1)));
    assert!(set.contains_peer(&peer(1)));
    assert!(!set.contains_peer(&peer(2)));
    assert_eq!(set.known_addresses(&peer(1)), Some(vec![]));
    assert!(!set.is_in_overlay(&peer(1), 0));
}

#[test]
fn addresses_are_kept_once_and_in_order() {
    let mut set = peerset(1);
    set.insert_peer(&peer(1));
    assert_eq!(set.add_known_address(&peer(1), ip4(1, 1)), Ok(()));
    assert_eq!(set.add_known_address(&peer(1), ip4(2, 1)), Ok(()));
    assert_eq!(set.add_known_address(&peer(1), ip4(1, 1)), Ok(()));
    assert_eq!(set.known_addresses(&peer(1)), Some(vec![ip4(1, 1), ip4(2, 1)]));
}

#[test]
fn removing_an_address() {
    let mut set = peerset(1);
    set.insert_peer(&peer(1));
    set.add_known_address(&peer(1), ip4(1, 1)).unwrap();
    set.add_known_address(&peer(1), ip4(2, 1)).unwrap();
    set.add_known_address(&peer(1), ip4(3, 1)).unwrap();
    assert_eq!(set.remove_known_address(&peer(1), &ip4(2, 1)), Ok(()));
    assert_eq!(set.known_addresses(&peer(1)), Some(vec![ip4(1, 1), ip4(3, 1)]));
    assert_eq!(
        set.remove_known_address(&peer(1), &ip4(2, 1)),
        Err(PeersetError::UnknownAddress)
    );
    assert_eq!(set.known_addresses(&peer(1)), Some(vec![ip4(1, 1), ip4(3, 1)]));
}

#[test]
fn addresses_of_an_unknown_peer() {
    let mut set = peerset(1);
    assert_eq!(
        set.add_known_address(&peer(1), ip4(1, 1)),
        Err(PeersetError::UnknownPeer)
    );
    assert_eq!(
        set.remove_known_address(&peer(1), &ip4(1, 1)),
        Err(PeersetError::UnknownPeer)
    );
    assert_eq!(set.known_addresses(&peer(1)), None);
    assert!(!set.contains_peer(&peer(1)));
}

#[test]
fn addresses_of_one_peer_leave_the_others_alone() {
    let mut set = peerset(1);
    set.insert_peer(&peer(1));
    set.insert_peer(&peer(2));
    set.add_known_address(&peer(1), ip4(1, 1)).unwrap();
    set.add_known_address(&peer(2), ip4(1, 1)).unwrap();
    set.remove_known_address(&peer(1), &ip4(1, 1)).unwrap();
    assert_eq!(set.known_addresses(&peer(1)), Some(vec![]));
    assert_eq!(set.known_addresses(&peer(2)), Some(vec![ip4(1, 1)]));
}

#[test]
fn overlay_membership() {
    let mut set = peerset(2);
    set.insert_peer(&peer(1));
    assert_eq!(set.add_to_overlay(&peer(1), 1), Ok(()));
    assert!(set.is_in_overlay(&peer(1), 1));
    assert!(!set.is_in_overlay(&peer(1), 0));
    assert!(!set.is_in_overlay(&peer(1), 2));
    assert_eq!(set.add_to_overlay(&peer(1), 1), Ok(()));
    assert!(set.is_in_overlay(&peer(1), 1));
    assert_eq!(set.add_to_overlay(&peer(1), 2), Err(PeersetError::UnknownOverlay));
    assert_eq!(set.add_to_overlay(&peer(2), 0), Err(PeersetError::UnknownPeer));
    assert!(!set.is_in_overlay(&peer(2), 0));
}

#[test]
fn a_peerset_without_overlays() {
    let mut set = peerset(0);
    set.insert_peer(&peer(1));
    assert_eq!(set.add_to_overlay(&peer(1), 0), Err(PeersetError::UnknownOverlay));
    assert_eq!(set.random_not_connected(0), None);
}

#[test]
fn random_not_connected_picks_only_what_fits() {
    let mut set = peerset(2);
    for byte in 1..=4 {
        set.insert_peer(&peer(byte));
    }
    set.add_to_overlay(&peer(1), 0).unwrap();
    set.add_to_overlay(&peer(2), 0).unwrap();
    set.add_to_overlay(&peer(3), 0).unwrap();
    set.add_to_overlay(&peer(4), 1).unwrap();
    set.add_outbound_attempt(&peer(2), ip4(2, 1), 0).unwrap();
    let mut seen_one = false;
    let mut seen_three = false;
    for _ in 0..200 {
        let picked = set.random_not_connected(0).unwrap();
        assert!(picked == peer(1) || picked == peer(3));
        seen_one |= picked == peer(1);
        seen_three |= picked == peer(3);
    }
    assert!(seen_one && seen_three);
    assert_eq!(set.random_not_connected(1), Some(peer(4)));
    assert_eq!(set.random_not_connected(2), None);
}

#[test]
fn random_not_connected_skips_pending_and_established() {
    let mut set = peerset(1);
    set.insert_peer(&peer(1));
    set.add_to_overlay(&peer(1), 0).unwrap();
    assert_eq!(set.random_not_connected(0), Some(peer(1)));
    let pending = set.add_outbound_attempt(&peer(1), ip4(1, 1), 0).unwrap();
    assert!(set.is_connected(&peer(1)));
    assert_eq!(set.random_not_connected(0), None);
    let connection = set.into_established(pending, peer(1), |data| data).unwrap();
    assert!(set.is_connected(&peer(1)));
    assert_eq!(set.random_not_connected(0), None);
    assert_eq!(set.remove_connection(connection), Some(0));
    assert!(!set.is_connected(&peer(1)));
    assert_eq!(set.random_not_connected(0), Some(peer(1)));
}

#[test]
fn outbound_attempt_needs_a_known_peer() {
    let mut set = peerset(1);
    assert_eq!(
        set.add_outbound_attempt(&peer(1), ip4(1, 1), 5),
        Err(PeersetError::UnknownPeer)
    );
    assert_eq!(set.identifiers_left(), u64::MAX / 2);
}

#[test]
fn identifiers_are_never_shared() {
    let mut set = peerset(1);
    set.insert_peer(&peer(1));
    let first = set.add_outbound_attempt(&peer(1), ip4(1, 1), 10).unwrap();
    let second = set.add_inbound_attempt(20).unwrap();
    assert_eq!(first, PendingId(0));
    assert_eq!(second, PendingId(2));
    let connection = set.into_established(first, peer(1), |data| data).unwrap();
    assert_eq!(connection, ConnectionId(1));
    let third = set.add_inbound_attempt(30).unwrap();
    assert_eq!(third, PendingId(4));
    assert_eq!(set.identifiers_left(), u64::MAX / 2 - 3);
    assert_eq!(set.pending_user_data(PendingId(0)), None);
    assert_eq!(set.pending_user_data(PendingId(1)), None);
    assert_eq!(set.pending_user_data(PendingId(3)), None);
    assert_eq!(set.connection_user_data(ConnectionId(0)), None);
    assert_eq!(set.connection_user_data(ConnectionId(2)), None);
    assert_eq!(set.connection_user_data(ConnectionId(3)), None);
    let other = set.into_established(third, peer(2), |data| data).unwrap();
    assert_eq!(other, ConnectionId(5));
    assert_eq!(set.identifiers_left(), u64::MAX / 2 - 3);
}

#[test]
fn promotion_needs_no_new_identifier() {
    let mut set = peerset(1);
    let mut pending = Vec::new();
    for n in 0..4u32 {
        pending.push(set.add_inbound_attempt(n).unwrap());
    }
    let left = set.identifiers_left();
    for (n, id) in pending.into_iter().rev().enumerate() {
        let connection = set.into_established(id, peer(n as u8), |data| data).unwrap();
        assert_eq!(connection, ConnectionId(id.0 + 1));
        assert_eq!(set.identifiers_left(), left);
    }
    assert_eq!(set.num_established_connections(), 4);
}

#[test]
fn promotion_mints_a_fresh_identifier() {
    let mut set = peerset(1);
    set.insert_peer(&peer(1));
    let pending = set.add_outbound_attempt(&peer(1), ip4(1, 30333), 11).unwrap();
    assert_eq!(pending, PendingId(0));
    assert_eq!(set.pending_user_data(pending), Some(&11));
    let connection = set.into_established(pending, peer(1), |data| data + 1).unwrap();
    assert_eq!(connection, ConnectionId(1));
    assert_eq!(set.connection_user_data(connection), Some(&12));
    assert_eq!(set.pending_user_data(pending), None);
    assert_eq!(set.num_established_connections(), 1);
}

#[test]
fn promotion_happens_once() {
    let mut set = peerset(1);
    set.insert_peer(&peer(1));
    let pending = set.add_outbound_attempt(&peer(1), ip4(1, 30333), 11).unwrap();
    set.into_established(pending, peer(1), |data| data).unwrap();
    assert_eq!(
        set.into_established(pending, peer(1), |data| data),
        Err(PeersetError::UnknownPending)
    );
    assert_eq!(set.num_established_connections(), 1);
    assert_eq!(set.connections(&peer(1)), vec![ConnectionId(1)]);
    assert_eq!(set.identifiers_left(), u64::MAX / 2 - 1);
}

#[test]
fn promotion_of_an_unknown_slot() {
    let mut set = peerset(1);
    assert_eq!(
        set.into_established(PendingId(4), peer(1), |data| data),
        Err(PeersetError::UnknownPending)
    );
    assert!(!set.contains_peer(&peer(1)));
    assert_eq!(set.num_established_connections(), 0);
}

#[test]
fn inbound_promotion_creates_the_peer() {
    let mut set = peerset(1);
    let pending = set.add_inbound_attempt(3).unwrap();
    assert!(!set.contains_peer(&peer(9)));
    let connection = set.into_established(pending, peer(9), |data| data * 2).unwrap();
    assert!(set.contains_peer(&peer(9)));
    assert_eq!(set.known_addresses(&peer(9)), Some(vec![]));
    assert_eq!(set.connections(&peer(9)), vec![connection]);
    assert_eq!(set.connection_user_data(connection), Some(&6));
}

#[test]
fn a_connection_belongs_to_the_verified_identity() {
    let mut set = peerset(1);
    set.insert_peer(&peer(1));
    let pending = set.add_outbound_attempt(&peer(1), ip4(1, 1), 0).unwrap();
    let connection = set.into_established(pending, peer(2), |data| data).unwrap();
    assert_eq!(set.connections(&peer(2)), vec![connection]);
    assert_eq!(set.connections(&peer(1)), vec![]);
    assert!(!set.is_connected(&peer(1)));
    assert!(set.is_connected(&peer(2)));
}

#[test]
fn removing_slots() {
    let mut set = peerset(1);
    set.insert_peer(&peer(1));
    let a = set.add_outbound_attempt(&peer(1), ip4(1, 1), 10).unwrap();
    let b = set.add_outbound_attempt(&peer(1), ip4(2, 1), 20).unwrap();
    assert_eq!(set.remove_pending(a), Some(10));
    assert_eq!(set.remove_pending(a), None);
    assert_eq!(set.pending_user_data(b), Some(&20));
    let connection = set.into_established(b, peer(1), |data| data).unwrap();
    assert_eq!(set.remove_connection(ConnectionId(connection.0 + 1)), None);
    assert_eq!(set.num_established_connections(), 1);
    assert_eq!(set.remove_connection(connection), Some(20));
    assert_eq!(set.remove_connection(connection), None);
    assert_eq!(set.num_established_connections(), 0);
}

#[test]
fn connections_of_each_peer() {
    let mut set = peerset(1);
    set.insert_peer(&peer(1));
    set.insert_peer(&peer(2));
    let a = set.add_outbound_attempt(&peer(1), ip4(1, 1), 1).unwrap();
    let b = set.add_outbound_attempt(&peer(2), ip4(2, 1), 2).unwrap();
    let c = set.add_outbound_attempt(&peer(1), ip4(3, 1), 3).unwrap();
    let third = set.into_established(c, peer(1), |data| data).unwrap();
    let second = set.into_established(b, peer(2), |data| data).unwrap();
    let first = set.into_established(a, peer(1), |data| data).unwrap();
    assert_eq!(set.connections(&peer(1)), vec![third, first]);
    assert_eq!(set.connections(&peer(2)), vec![second]);
    assert_eq!(set.connections(&peer(3)), vec![]);
    assert_eq!(set.num_established_connections(), 3);
    set.remove_connection(third);
    assert_eq!(set.connections(&peer(1)), vec![first]);
}

#[test]
fn count_follows_handshakes_and_disconnects() {
    let mut set = peerset(1);
    let mut connections = Vec::new();
    for n in 0..5u32 {
        let pending = set.add_inbound_attempt(n).unwrap();
        connections.push(set.into_established(pending, peer(n as u8), |data| data).unwrap());
        assert_eq!(set.num_established_connections(), n as usize + 1);
    }
    set.remove_connection(connections[2]);
    assert_eq!(set.num_established_connections(), 4);
}

#[test]
fn net_effect_of_adding_and_removing() {
    let mut set = peerset(1);
    set.insert_peer(&peer(1));
    let mut expected: Vec<Multiaddr> = Vec::new();
    let script: [(bool, u8); 12] = [
        (true, 1),
        (true, 2),
        (true, 1),
        (false, 3),
        (false, 1),
        (true, 3),
        (false, 1),
        (true, 1),
        (false, 2),
        (false, 2),
        (true, 4),
        (true, 3),
    ];
    for (add, last) in script {
        if add {
            assert_eq!(set.add_known_address(&peer(1), ip4(last, 1)), Ok(()));
            if !expected.contains(&ip4(last, 1)) {
                expected.push(ip4(last, 1));
            }
        } else {
            let was_known = expected.contains(&ip4(last, 1));
            let removed = set.remove_known_address(&peer(1), &ip4(last, 1));
            assert_eq!(removed.is_ok(), was_known);
            expected.retain(|address| *address != ip4(last, 1));
        }
        assert_eq!(set.known_addresses(&peer(1)), Some(expected.clone()));
    }
    assert_eq!(expected, vec![ip4(3, 1), ip4(1, 1), ip4(4, 1)]);
}
