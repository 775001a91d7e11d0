//! Events exchanged between the daemon router and the overlay substrate.
//!
//! The first four variants are commands the router issues to the overlay;
//! the last two are raised by the overlay and consumed by the router.

use crate::message::clone_bytes;
use vstd::prelude::*;

verus! {

/// Overlay command or event.
#[derive(Debug, PartialEq)]
pub enum Event {
    /// Connect to a peer address (multiaddress text).
    ConnectAddress(Vec<u8>),
    /// Set this node's advertised name.
    SetName(Vec<u8>),
    /// Set the tag of the services supported by this node.
    SetServicesTag(u32),
    /// Send a message: destination peer, destination client, source client,
    /// service, content.
    SendMessage(Vec<u8>, u16, u16, u16, Vec<u8>),
    /// A peer announced itself: peer id, name, services tag.
    AnnouncePeer(Vec<u8>, Vec<u8>, u32),
    /// Inbound message: source peer, source client, destination client,
    /// service, content.
    Message(Vec<u8>, u16, u16, u16, Vec<u8>),
}

/// Mathematical model of an overlay command or event.
pub enum EventV {
    ConnectAddress(Seq<u8>),
    SetName(Seq<u8>),
    SetServicesTag(u32),
    SendMessage(Seq<u8>, u16, u16, u16, Seq<u8>),
    AnnouncePeer(Seq<u8>, Seq<u8>, u32),
    Message(Seq<u8>, u16, u16, u16, Seq<u8>),
}

impl View for Event {
    type V = EventV;

    open spec fn view(&self) -> EventV {
        match self {
            Event::ConnectAddress(a) => EventV::ConnectAddress(a@),
            Event::SetName(n) => EventV::SetName(n@),
            Event::SetServicesTag(t) => EventV::SetServicesTag(*t),
            Event::SendMessage(p, tc, fc, sv, c) => EventV::SendMessage(p@, *tc, *fc, *sv, c@),
            Event::AnnouncePeer(p, n, t) => EventV::AnnouncePeer(p@, n@, *t),
            Event::Message(p, fc, tc, sv, c) => EventV::Message(p@, *fc, *tc, *sv, c@),
        }
    }
}

impl Clone for Event {
    fn clone(&self) -> (r: Self)
        ensures
            r@ == self@,
    {
        match self {
            Event::ConnectAddress(a) => Event::ConnectAddress(clone_bytes(a)),
            Event::SetName(n) => Event::SetName(clone_bytes(n)),
            Event::SetServicesTag(t) => Event::SetServicesTag(*t),
            Event::SendMessage(p, tc, fc, sv, c) => Event::SendMessage(
                clone_bytes(p),
                *tc,
                *fc,
                *sv,
                clone_bytes(c),
            ),
            Event::AnnouncePeer(p, n, t) => Event::AnnouncePeer(clone_bytes(p), clone_bytes(n), *t),
            Event::Message(p, fc, tc, sv, c) => Event::Message(
                clone_bytes(p),
                *fc,
                *tc,
                *sv,
                clone_bytes(c),
            ),
        }
    }
}

} // verus!
