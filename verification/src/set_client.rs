//! The set client: registers without services and issues set requests.

use crate::idset::IdSet;
use crate::message::{GetSet, GetSetV, Message, MessageV};
use vstd::prelude::*;

verus! {

/// The set client's state; requests queue on the outbox.
pub struct SetClient {
    pub client_id: u16,
    pub request_id: u32,
    pub outbox: Vec<Message>,
}

/// Views of the queued messages.
pub open spec fn sobv(v: Seq<Message>) -> Seq<MessageV> {
    v.map_values(|m: Message| m@)
}

impl SetClient {
    /// Fresh set client.
    pub fn new() -> (r: Self)
        ensures
            r.client_id == 0,
            r.request_id == 0,
            r.outbox@.len() == 0,
    {
        SetClient { client_id: 0, request_id: 0, outbox: Vec::new() }
    }

    /// Queue the registration of this client, with no services.
    pub fn register_client(&mut self)
        ensures
            final(self).client_id == old(self).client_id,
            final(self).request_id == old(self).request_id,
            sobv(final(self).outbox@) == sobv(old(self).outbox@).push(
                MessageV::Register { services: Seq::empty() },
            ),
    {
        let m = Message::Register { services: IdSet::new() };
        let ghost prev = self.outbox@;
        self.outbox.push(m);
        proof {
            assert(sobv(self.outbox@) =~= sobv(prev).push(
                MessageV::Register { services: Seq::empty() },
            ));
        }
    }

    /// Record the registration reply.
    pub fn handle_register_ok(&mut self, client_id: u16)
        ensures
            *final(self) == (SetClient { client_id, ..*old(self) }),
    {
        self.client_id = client_id;
    }

    /// Queue one set request carrying `content` under the current request
    /// id, then advance the id, wrapping around.
    pub fn send_request(&mut self, content: GetSet)
        ensures
            final(self).client_id == old(self).client_id,
            final(self).request_id == (if old(self).request_id == u32::MAX {
                0u32
            } else {
                (old(self).request_id + 1) as u32
            }),
            sobv(final(self).outbox@) == sobv(old(self).outbox@).push(
                MessageV::Put {
                    client_id: old(self).client_id,
                    request_id: old(self).request_id,
                    content: content@,
                },
            ),
    {
        let m = Message::Put {
            client_id: self.client_id,
            request_id: self.request_id,
            content,
        };
        let ghost prev = self.outbox@;
        let ghost mv = m@;
        self.outbox.push(m);
        self.request_id = if self.request_id == u32::MAX {
            0
        } else {
            self.request_id + 1
        };
        proof {
            assert(sobv(self.outbox@) =~= sobv(prev).push(mv));
        }
    }
}

} // verus!
