//! Connection lifecycle core of a peer-to-peer full node.
//!
//! The crate keeps the books of a node's peers and connections and decides,
//! step by step, what the tasks around a socket have to do next. Everything
//! that waits (sockets, timers, channels, locks) stays with the caller: the
//! functions here take what happened and return what to do about it.

pub mod channel;
pub mod entropy;
pub mod handshake;
pub mod multiaddr;
pub mod peer_id;
pub mod peerset;
pub mod peerset_laws;
pub mod peerset_model;
pub mod service;
pub mod service_laws;
pub mod substream;
pub mod table;
pub mod task;

pub use multiaddr::{
    multiaddr_to_listener, multiaddr_to_socket, Multiaddr, Protocol, SocketTarget,
};
pub use peer_id::PeerId;
pub use peerset::Peerset;
pub use peerset_model::{ConnectionId, PeersetError, PendingId};
pub use service::{Config, Event, InitError, NetworkService};
pub use substream::Substream;
