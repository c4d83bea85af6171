//! Network addresses: a stack of protocols, and what of it a stream socket
//! can be opened on.

use vstd::prelude::*;

use crate::peer_id::{bytes_copy, bytes_equal};

verus! {

/// One layer of an address.
#[derive(Debug, PartialEq, Eq, Hash)]
pub enum Protocol {
    /// A host name, to be resolved to either address family.
    Dns(String),
    /// A host name, to be resolved to an IPv4 address.
    Dns4(String),
    /// A host name, to be resolved to an IPv6 address.
    Dns6(String),
    /// An IPv4 address, most significant byte first.
    Ip4([u8; 4]),
    /// An IPv6 address, most significant byte first.
    Ip6([u8; 16]),
    /// The identity of the node behind the address.
    P2p(Vec<u8>),
    /// A TCP port.
    Tcp(u16),
    /// A UDP port.
    Udp(u16),
    /// WebSocket framing.
    Ws,
    /// WebSocket framing over TLS.
    Wss,
}

/// What a [`Protocol`] stands for.
pub enum ProtocolView {
    Dns(Seq<char>),
    Dns4(Seq<char>),
    Dns6(Seq<char>),
    Ip4(Seq<u8>),
    Ip6(Seq<u8>),
    P2p(Seq<u8>),
    Tcp(u16),
    Udp(u16),
    Ws,
    Wss,
}

impl View for Protocol {
    type V = ProtocolView;

    open spec fn view(&self) -> ProtocolView {
        match *self {
            Protocol::Dns(name) => ProtocolView::Dns(name@),
            Protocol::Dns4(name) => ProtocolView::Dns4(name@),
            Protocol::Dns6(name) => ProtocolView::Dns6(name@),
            Protocol::Ip4(address) => ProtocolView::Ip4(address@),
            Protocol::Ip6(address) => ProtocolView::Ip6(address@),
            Protocol::P2p(identity) => ProtocolView::P2p(identity@),
            Protocol::Tcp(port) => ProtocolView::Tcp(port),
            Protocol::Udp(port) => ProtocolView::Udp(port),
            Protocol::Ws => ProtocolView::Ws,
            Protocol::Wss => ProtocolView::Wss,
        }
    }
}

/// Whether two arrays hold the same bytes.
fn array_equal<const N: usize>(a: &[u8; N], b: &[u8; N]) -> (same: bool)
    ensures
        same == (a@ == b@),
{
    let mut i: usize = 0;
    while i < N
        invariant
            i <= N,
            forall|k: int| 0 <= k < i ==> a@[k] == b@[k],
        decreases N - i,
    {
        if a[i] != b[i] {
            return false;
        }
        i += 1;
    }
    assert(a@ =~= b@);
    true
}

impl Protocol {
    /// Whether `other` is the same layer with the same content.
    pub fn equals(&self, other: &Protocol) -> (same: bool)
        ensures
            same == (self@ == other@),
    {
        match (self, other) {
            (Protocol::Dns(a), Protocol::Dns(b)) => *a == *b,
            (Protocol::Dns4(a), Protocol::Dns4(b)) => *a == *b,
            (Protocol::Dns6(a), Protocol::Dns6(b)) => *a == *b,
            (Protocol::Ip4(a), Protocol::Ip4(b)) => array_equal(a, b),
            (Protocol::Ip6(a), Protocol::Ip6(b)) => array_equal(a, b),
            (Protocol::P2p(a), Protocol::P2p(b)) => bytes_equal(a, b),
            (Protocol::Tcp(a), Protocol::Tcp(b)) => *a == *b,
            (Protocol::Udp(a), Protocol::Udp(b)) => *a == *b,
            (Protocol::Ws, Protocol::Ws) => true,
            (Protocol::Wss, Protocol::Wss) => true,
            _ => false,
        }
    }
}

impl Clone for Protocol {
    fn clone(&self) -> (copy: Protocol)
        ensures
            copy@ == self@,
    {
        match self {
            Protocol::Dns(name) => Protocol::Dns(name.clone()),
            Protocol::Dns4(name) => Protocol::Dns4(name.clone()),
            Protocol::Dns6(name) => Protocol::Dns6(name.clone()),
            Protocol::Ip4(address) => Protocol::Ip4(*address),
            Protocol::Ip6(address) => Protocol::Ip6(*address),
            Protocol::P2p(identity) => Protocol::P2p(bytes_copy(identity)),
            Protocol::Tcp(port) => Protocol::Tcp(*port),
            Protocol::Udp(port) => Protocol::Udp(*port),
            Protocol::Ws => Protocol::Ws,
            Protocol::Wss => Protocol::Wss,
        }
    }
}

/// A network address: protocols from the outermost layer inwards.
///
/// Addresses are values. Two addresses are the same address exactly when they
/// hold the same protocols in the same order.
#[derive(Debug, PartialEq, Eq, Hash)]
pub struct Multiaddr {
    protocols: Vec<Protocol>,
}

impl View for Multiaddr {
    type V = Seq<ProtocolView>;

    closed spec fn view(&self) -> Seq<ProtocolView> {
        self.protocols@.map_values(|p: Protocol| p@)
    }
}

impl Multiaddr {
    /// The address with no protocol at all.
    pub fn empty() -> (address: Multiaddr)
        ensures
            address@ == Seq::<ProtocolView>::empty(),
    {
        let address = Multiaddr { protocols: Vec::new() };
        assert(address@ =~= Seq::<ProtocolView>::empty());
        address
    }

    /// This address with `protocol` as a further, innermost layer.
    pub fn with(self, protocol: Protocol) -> (address: Multiaddr)
        ensures
            address@ == self@.push(protocol@),
    {
        let mut protocols = self.protocols;
        protocols.push(protocol);
        let address = Multiaddr { protocols };
        assert(address@ =~= self@.push(protocol@));
        address
    }

    /// Number of protocols in the address.
    pub fn len(&self) -> (n: usize)
        ensures
            n == self@.len(),
    {
        self.protocols.len()
    }

    /// The protocol at position `index`, counted from the outermost layer.
    pub fn protocol(&self, index: usize) -> (found: Option<&Protocol>)
        ensures
            index < self@.len() ==> found.is_some() && found.unwrap()@ == self@[index as int],
            index >= self@.len() ==> found.is_none(),
    {
        if index < self.protocols.len() {
            Some(&self.protocols[index])
        } else {
            None
        }
    }

    /// Whether `other` is the same address.
    pub fn equals(&self, other: &Multiaddr) -> (same: bool)
        ensures
            same == (self@ == other@),
    {
        if self.protocols.len() != other.protocols.len() {
            assert(self@.len() != other@.len());
            return false;
        }
        let mut i: usize = 0;
        while i < self.protocols.len()
            invariant
                self.protocols.len() == other.protocols.len(),
                i <= self.protocols.len(),
                forall|k: int| 0 <= k < i ==> self@[k] == other@[k],
            decreases self.protocols.len() - i,
        {
            if !self.protocols[i].equals(&other.protocols[i]) {
                assert(self@[i as int] != other@[i as int]);
                return false;
            }
            i += 1;
        }
        assert(self@ =~= other@);
        true
    }
}

impl Clone for Multiaddr {
    fn clone(&self) -> (copy: Multiaddr)
        ensures
            copy@ == self@,
    {
        let mut protocols: Vec<Protocol> = Vec::with_capacity(self.protocols.len());
        let mut i: usize = 0;
        while i < self.protocols.len()
            invariant
                i <= self.protocols.len(),
                protocols.len() == i,
                forall|k: int| 0 <= k < i ==> protocols@[k]@ == self.protocols@[k]@,
            decreases self.protocols.len() - i,
        {
            protocols.push(self.protocols[i].clone());
            i += 1;
        }
        let copy = Multiaddr { protocols };
        assert(copy@ =~= self@);
        copy
    }
}

/// What a list of addresses stands for.
pub open spec fn addresses_view(list: Seq<Multiaddr>) -> Seq<Seq<ProtocolView>> {
    list.map_values(|a: Multiaddr| a@)
}

/// Where a stream socket connects to or listens on.
#[allow(inconsistent_fields)]
#[derive(Debug, PartialEq, Eq, Hash)]
pub enum SocketTarget {
    /// A port of an IPv4 address.
    Ip4 { address: [u8; 4], port: u16 },
    /// A port of an IPv6 address.
    Ip6 { address: [u8; 16], port: u16 },
    /// A port of a host whose name has yet to be resolved.
    Dns { name: String, port: u16 },
}

/// What a [`SocketTarget`] stands for.
#[allow(inconsistent_fields)]
pub enum SocketTargetView {
    Ip4 { address: Seq<u8>, port: u16 },
    Ip6 { address: Seq<u8>, port: u16 },
    Dns { name: Seq<char>, port: u16 },
}

impl View for SocketTarget {
    type V = SocketTargetView;

    open spec fn view(&self) -> SocketTargetView {
        match *self {
            SocketTarget::Ip4 { address, port } => SocketTargetView::Ip4 { address: address@, port },
            SocketTarget::Ip6 { address, port } => SocketTargetView::Ip6 { address: address@, port },
            SocketTarget::Dns { name, port } => SocketTargetView::Dns { name: name@, port },
        }
    }
}

/// The socket that an address can be dialed on, if any.
///
/// Only a host (an IP address of either family, or a name of any of the three
/// kinds) directly followed by a TCP port, and nothing else, can be dialed.
/// The three kinds of name are not told apart.
pub open spec fn dial_target(address: Seq<ProtocolView>) -> Option<SocketTargetView> {
    if address.len() != 2 {
        None
    } else {
        match (address[0], address[1]) {
            (ProtocolView::Ip4(ip), ProtocolView::Tcp(port)) => Some(
                SocketTargetView::Ip4 { address: ip, port },
            ),
            (ProtocolView::Ip6(ip), ProtocolView::Tcp(port)) => Some(
                SocketTargetView::Ip6 { address: ip, port },
            ),
            (ProtocolView::Dns(name), ProtocolView::Tcp(port)) => Some(
                SocketTargetView::Dns { name, port },
            ),
            (ProtocolView::Dns4(name), ProtocolView::Tcp(port)) => Some(
                SocketTargetView::Dns { name, port },
            ),
            (ProtocolView::Dns6(name), ProtocolView::Tcp(port)) => Some(
                SocketTargetView::Dns { name, port },
            ),
            _ => None,
        }
    }
}

/// The socket that an address can be listened on, if any: an IP address of
/// either family directly followed by a TCP port, and nothing else.
pub open spec fn listen_target(address: Seq<ProtocolView>) -> Option<SocketTargetView> {
    if address.len() != 2 {
        None
    } else {
        match (address[0], address[1]) {
            (ProtocolView::Ip4(ip), ProtocolView::Tcp(port)) => Some(
                SocketTargetView::Ip4 { address: ip, port },
            ),
            (ProtocolView::Ip6(ip), ProtocolView::Tcp(port)) => Some(
                SocketTargetView::Ip6 { address: ip, port },
            ),
            _ => None,
        }
    }
}

/// Whether an address can be dialed.
pub open spec fn dialable(address: Seq<ProtocolView>) -> bool {
    dial_target(address).is_some()
}

/// Works out the socket to connect to in order to reach `address`.
///
/// Fails when the protocols of the address are not supported; nothing is
/// resolved or connected here.
pub fn multiaddr_to_socket(address: &Multiaddr) -> (target: Result<SocketTarget, ()>)
    ensures
        match target {
            Ok(socket) => dial_target(address@) == Some(socket@),
            Err(_) => dial_target(address@).is_none(),
        },
{
    if address.len() != 2 {
        return Err(());
    }
    let host = &address.protocols[0];
    let transport = &address.protocols[1];
    assert(address@[0] == host@ && address@[1] == transport@);
    match (host, transport) {
        (Protocol::Ip4(ip), Protocol::Tcp(port)) => Ok(
            SocketTarget::Ip4 { address: *ip, port: *port },
        ),
        (Protocol::Ip6(ip), Protocol::Tcp(port)) => Ok(
            SocketTarget::Ip6 { address: *ip, port: *port },
        ),
        (Protocol::Dns(name), Protocol::Tcp(port)) => Ok(
            SocketTarget::Dns { name: name.clone(), port: *port },
        ),
        (Protocol::Dns4(name), Protocol::Tcp(port)) => Ok(
            SocketTarget::Dns { name: name.clone(), port: *port },
        ),
        (Protocol::Dns6(name), Protocol::Tcp(port)) => Ok(
            SocketTarget::Dns { name: name.clone(), port: *port },
        ),
        _ => Err(()),
    }
}

/// Works out the socket to bind in order to listen on `address`.
///
/// Host names cannot be listened on: only an IP address followed by a TCP
/// port is accepted.
pub fn multiaddr_to_listener(address: &Multiaddr) -> (target: Result<SocketTarget, ()>)
    ensures
        match target {
            Ok(socket) => listen_target(address@) == Some(socket@),
            Err(_) => listen_target(address@).is_none(),
        },
{
    if address.len() != 2 {
        return Err(());
    }
    let host = &address.protocols[0];
    let transport = &address.protocols[1];
    assert(address@[0] == host@ && address@[1] == transport@);
    match (host, transport) {
        (Protocol::Ip4(ip), Protocol::Tcp(port)) => Ok(
            SocketTarget::Ip4 { address: *ip, port: *port },
        ),
        (Protocol::Ip6(ip), Protocol::Tcp(port)) => Ok(
            SocketTarget::Ip6 { address: *ip, port: *port },
        ),
        _ => Err(()),
    }
}

/// Every address that can be listened on can be dialed, on the same socket.
pub proof fn lemma_listen_target_is_dial_target(address: Seq<ProtocolView>)
    requires
        listen_target(address).is_some(),
    ensures
        dial_target(address) == listen_target(address),
{
}

} // verus!
