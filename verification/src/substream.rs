//! After the handshake, a connection is divided into substreams, and each
//! packet of data belongs to one of them. This module holds the state of a
//! single substream.
//!
//! A substream starts with the selection of its protocol. Once the protocol
//! is agreed on, the substream carries requests or notifications, in one
//! direction or the other.

use vstd::prelude::*;

verus! {

/// State of a single substream.
///
/// `TNow` is the type of a moment in time.
pub struct Substream<TNow> {
    /// Specialization for that substream.
    ty: SubstreamTy<TNow>,
}

enum SubstreamTy<TNow> {
    /// Protocol negotiation is still in progress on this substream.
    Negotiating { protocol: &'static str, when_timeout: TNow },
    NotificationsOut,
    NotificationsIn,
    RequestOut,
    RequestIn,
}

impl<TNow> Substream<TNow> {
    /// The moment at which the negotiation is given up, while the substream
    /// negotiates its protocol.
    pub closed spec fn spec_negotiation_timeout(&self) -> Option<TNow> {
        match self.ty {
            SubstreamTy::Negotiating { when_timeout, .. } => Some(when_timeout),
            _ => None,
        }
    }

    /// The protocol that is being negotiated, while the substream
    /// negotiates its protocol.
    pub closed spec fn spec_negotiated_protocol(&self) -> Option<&'static str> {
        match self.ty {
            SubstreamTy::Negotiating { protocol, .. } => Some(protocol),
            _ => None,
        }
    }

    /// A substream on which `protocol` is being negotiated, to be given up
    /// at `when_timeout`.
    pub fn negotiating(protocol: &'static str, when_timeout: TNow) -> (substream: Substream<TNow>)
        ensures
            substream.spec_negotiation_timeout() == Some(when_timeout),
            substream.spec_negotiated_protocol() == Some(protocol),
    {
        Substream { ty: SubstreamTy::Negotiating { protocol, when_timeout } }
    }

    /// The protocol that is being negotiated, if one still is.
    pub fn negotiated_protocol(&self) -> (name: Option<&'static str>)
        ensures
            name == self.spec_negotiated_protocol(),
    {
        match &self.ty {
            SubstreamTy::Negotiating { protocol, .. } => Some(*protocol),
            _ => None,
        }
    }

    /// The moment at which the negotiation is given up, if the protocol of
    /// the substream is still being negotiated.
    pub fn negotiation_timeout(&self) -> (when: Option<&TNow>)
        ensures
            match when {
                Some(moment) => self.spec_negotiation_timeout() == Some(*moment),
                None => self.spec_negotiation_timeout().is_none(),
            },
    {
        match &self.ty {
            SubstreamTy::Negotiating { when_timeout, .. } => Some(when_timeout),
            _ => None,
        }
    }
}

} // verus!
