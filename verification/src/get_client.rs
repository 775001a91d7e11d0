//! The get client: registers without services and issues get requests.

use crate::idset::IdSet;
use crate::message::{GetSet, GetSetV, Message, MessageV};
use vstd::prelude::*;

verus! {

/// The get client's state; requests queue on the outbox.
pub struct GetClient {
    pub client_id: u16,
    pub request_id: u32,
    pub outbox: Vec<Message>,
}

/// Views of the queued messages.
pub open spec fn gobv(v: Seq<Message>) -> Seq<MessageV> {
    v.map_values(|m: Message| m@)
}

impl GetClient {
    /// Fresh get client.
    pub fn new() -> (r: Self)
        ensures
            r.client_id == 0,
            r.request_id == 0,
            r.outbox@.len() == 0,
    {
        GetClient { client_id: 0, request_id: 0, outbox: Vec::new() }
    }

    /// Queue the registration of this client, with no services.
    pub fn register_client(&mut self)
        ensures
            final(self).client_id == old(self).client_id,
            final(self).request_id == old(self).request_id,
            gobv(final(self).outbox@) == gobv(old(self).outbox@).push(
                MessageV::Register { services: Seq::empty() },
            ),
    {
        let m = Message::Register { services: IdSet::new() };
        let ghost prev = self.outbox@;
        self.outbox.push(m);
        proof {
            assert(gobv(self.outbox@) =~= gobv(prev).push(
                MessageV::Register { services: Seq::empty() },
            ));
        }
    }

    /// Record the registration reply.
    pub fn handle_register_ok(&mut self, client_id: u16)
        ensures
            *final(self) == (GetClient { client_id, ..*old(self) }),
    {
        self.client_id = client_id;
    }

    /// Queue one get request carrying `content` under the current request
    /// id, then advance the id, wrapping around.
    pub fn send_request(&mut self, content: GetSet)
        ensures
            final(self).client_id == old(self).client_id,
            final(self).request_id == (if old(self).request_id == u32::MAX {
                0u32
            } else {
                (old(self).request_id + 1) as u32
            }),
            gobv(final(self).outbox@) == gobv(old(self).outbox@).push(
                MessageV::Get {
                    client_id: old(self).client_id,
                    request_id: old(self).request_id,
                    content: content@,
                },
            ),
    {
        let m = Message::Get {
            client_id: self.client_id,
            request_id: self.request_id,
            content,
        };
        let ghost prev = self.outbox@;
        let ghost mv = m@;
        self.outbox.push(m);
        self.request_id = if self.request_id == u32::MAX {
            0
        } else {
            self.request_id + 1
        };
        proof {
            assert(gobv(self.outbox@) =~= gobv(prev).push(mv));
        }
    }
}

} // verus!
