use peer_network::multiaddr::{
    multiaddr_to_listener, multiaddr_to_socket, Multiaddr, Protocol, SocketTarget,
};

fn host_port(host: Protocol, port: u16) -> Multiaddr {
    Multiaddr::empty().with(host).with(Protocol::Tcp(port))
}

#[test]
fn dial_ip4_tcp() {
    let address = host_port(Protocol::Ip4([127, 0, 0, 1]), 30333);
    assert_eq!(
        multiaddr_to_socket(&address),
        Ok(SocketTarget::Ip4 { address: [127, 0, 0, 1], port: 30333 })
    );
}

#[test]
fn dial_ip6_tcp() {
    let mut ip = [0u8; 16];
    ip[15] = 1;
    let address = host_port(Protocol::Ip6(ip), 443);
    assert_eq!(
        multiaddr_to_socket(&address),
        Ok(SocketTarget::Ip6 { address: ip, port: 443 })
    );
}

#[test]
fn dial_names_of_all_three_kinds() {
    let target = Ok(SocketTarget::Dns { name: String::from("example.org"), port: 9000 });
    let name = || String::from("example.org");
    assert_eq!(multiaddr_to_socket(&host_port(Protocol::Dns(name()), 9000)), target);
    assert_eq!(multiaddr_to_socket(&host_port(Protocol::Dns4(name()), 9000)), target);
    assert_eq!(multiaddr_to_socket(&host_port(Protocol::Dns6(name()), 9000)), target);
}

#[test]
fn dial_rejects_what_is_not_host_then_tcp() {
    let ip = Protocol::Ip4([1, 2, 3, 4]);
    assert_eq!(multiaddr_to_socket(&Multiaddr::empty()), Err(()));
    assert_eq!(multiaddr_to_socket(&Multiaddr::empty().with(ip.clone())), Err(()));
    assert_eq!(
        multiaddr_to_socket(&Multiaddr::empty().with(ip.clone()).with(Protocol::Udp(53))),
        Err(())
    );
    assert_eq!(
        multiaddr_to_socket(&Multiaddr::empty().with(Protocol::Tcp(1)).with(ip.clone())),
        Err(())
    );
    assert_eq!(
        multiaddr_to_socket(&Multiaddr::empty().with(Protocol::Tcp(1)).with(Protocol::Tcp(2))),
        Err(())
    );
    assert_eq!(
        multiaddr_to_socket(&Multiaddr::empty().with(Protocol::Ws).with(Protocol::Tcp(2))),
        Err(())
    );
    assert_eq!(
        multiaddr_to_socket(&Multiaddr::empty().with(Protocol::P2p(vec![1])).with(Protocol::Tcp(2))),
        Err(())
    );
}

#[test]
fn dial_rejects_a_third_protocol() {
    let address = host_port(Protocol::Ip4([1, 2, 3, 4]), 30333).with(Protocol::Ws);
    assert_eq!(multiaddr_to_socket(&address), Err(()));
    let address = host_port(Protocol::Ip4([1, 2, 3, 4]), 30333).with(Protocol::P2p(vec![9]));
    assert_eq!(multiaddr_to_socket(&address), Err(()));
}

#[test]
fn listen_takes_ip_addresses_only() {
    assert_eq!(
        multiaddr_to_listener(&host_port(Protocol::Ip4([0, 0, 0, 0]), 30333)),
        Ok(SocketTarget::Ip4 { address: [0, 0, 0, 0], port: 30333 })
    );
    assert_eq!(
        multiaddr_to_listener(&host_port(Protocol::Ip6([0; 16]), 1)),
        Ok(SocketTarget::Ip6 { address: [0; 16], port: 1 })
    );
    assert_eq!(
        multiaddr_to_listener(&host_port(Protocol::Dns(String::from("localhost")), 30333)),
        Err(())
    );
    assert_eq!(
        multiaddr_to_listener(&host_port(Protocol::Dns4(String::from("localhost")), 30333)),
        Err(())
    );
    assert_eq!(multiaddr_to_listener(&Multiaddr::empty()), Err(()));
    assert_eq!(
        multiaddr_to_listener(&host_port(Protocol::Ip4([0, 0, 0, 0]), 30333).with(Protocol::Wss)),
        Err(())
    );
}

#[test]
fn what_can_be_listened_on_can_be_dialed() {
    let address = host_port(Protocol::Ip4([192, 168, 1, 7]), 8080);
    assert_eq!(multiaddr_to_listener(&address), multiaddr_to_socket(&address));
}

#[test]
fn addresses_compare_by_value() {
    let a = host_port(Protocol::Ip4([1, 2, 3, 4]), 30333);
    let b = host_port(Protocol::Ip4([1, 2, 3, 4]), 30333);
    let other_port = host_port(Protocol::Ip4([1, 2, 3, 4]), 30334);
    let other_host = host_port(Protocol::Ip4([1, 2, 3, 5]), 30333);
    let longer = host_port(Protocol::Ip4([1, 2, 3, 4]), 30333).with(Protocol::Ws);
    assert!(a.equals(&b));
    assert!(!a.equals(&other_port));
    assert!(!a.equals(&other_host));
    assert!(!a.equals(&longer));
    assert!(!longer.equals(&a));
    assert!(Multiaddr::empty().equals(&Multiaddr::empty()));
}

#[test]
fn protocols_compare_by_kind_and_content() {
    let name = |s: &str| String::from(s);
    assert!(Protocol::Dns(name("a")).equals(&Protocol::Dns(name("a"))));
    assert!(!Protocol::Dns(name("a")).equals(&Protocol::Dns(name("b"))));
    assert!(!Protocol::Dns(name("a")).equals(&Protocol::Dns4(name("a"))));
    assert!(!Protocol::Dns4(name("a")).equals(&Protocol::Dns6(name("a"))));
    assert!(Protocol::Dns6(name("a")).equals(&Protocol::Dns6(name("a"))));
    assert!(Protocol::Ip6([3; 16]).equals(&Protocol::Ip6([3; 16])));
    assert!(!Protocol::Ip6([3; 16]).equals(&Protocol::Ip6([4; 16])));
    assert!(!Protocol::Tcp(80).equals(&Protocol::Udp(80)));
    assert!(Protocol::Udp(80).equals(&Protocol::Udp(80)));
    assert!(Protocol::P2p(vec![1, 2]).equals(&Protocol::P2p(vec![1, 2])));
    assert!(!Protocol::P2p(vec![1, 2]).equals(&Protocol::P2p(vec![1])));
    assert!(Protocol::Ws.equals(&Protocol::Ws));
    assert!(!Protocol::Ws.equals(&Protocol::Wss));
}

#[test]
fn a_copy_is_the_same_address() {
    let address = host_port(Protocol::Dns(String::from("node.example")), 30333)
        .with(Protocol::P2p(vec![5, 6]));
    let copy = address.clone();
    assert!(copy.equals(&address));
    assert_eq!(copy, address);
    assert_eq!(copy.len(), 3);
}

#[test]
fn protocols_are_read_by_position() {
    let address = host_port(Protocol::Ip4([1, 2, 3, 4]), 30333);
    assert_eq!(address.len(), 2);
    assert_eq!(address.protocol(0), Some(&Protocol::Ip4([1, 2, 3, 4])));
    assert_eq!(address.protocol(1), Some(&Protocol::Tcp(30333)));
    assert_eq!(address.protocol(2), None);
    assert_eq!(Multiaddr::empty().len(), 0);
    assert_eq!(Multiaddr::empty().protocol(0), None);
}
