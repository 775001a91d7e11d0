//! The chat client: the chat message body and the state machine that turns
//! typed lines into per-service messages and inbound messages into display
//! records.

use crate::cbor;
use crate::idset::IdSet;
use crate::message::{bytes_eq, clone_bytes, opt_bytes, Event, EventV, Message, MessageV, Service};
use vstd::prelude::*;

verus! {

/// A chat line: sender name and text.
#[derive(Debug, PartialEq)]
pub struct ChatMessage {
    pub from: Vec<u8>,
    pub message: Vec<u8>,
}

/// Mathematical model of a chat line.
pub struct ChatMessageV {
    pub from: Seq<u8>,
    pub message: Seq<u8>,
}

impl View for ChatMessage {
    type V = ChatMessageV;

    open spec fn view(&self) -> ChatMessageV {
        ChatMessageV { from: self.from@, message: self.message@ }
    }
}

pub open spec fn wf_chat_message(m: ChatMessageV) -> bool {
    m.from.len() <= u64::MAX && m.message.len() <= u64::MAX
}

/// Encoded chat line: map with the sender at 0 and the text at 1.
pub open spec fn enc_chat_message(m: ChatMessageV) -> Seq<u8> {
    cbor::enc_map(2) + cbor::enc_uint(0) + cbor::enc_str(3, m.from) + cbor::enc_uint(1)
        + cbor::enc_str(3, m.message)
}

pub open spec fn parse_chat_entries(
    s: Seq<u8>,
    pos: int,
    n: nat,
    f0: Option<Seq<u8>>,
    f1: Option<Seq<u8>>,
) -> Option<(ChatMessageV, int)>
    decreases n,
{
    if n == 0 {
        match (f0, f1) {
            (Some(from), Some(message)) => Some((ChatMessageV { from, message }, pos)),
            _ => None,
        }
    } else {
        match cbor::parse_uint(s, pos) {
            None => None,
            Some((k, p1)) => {
                if k == 0 {
                    match cbor::parse_str(s, p1, 3) {
                        Some((b, p2)) => parse_chat_entries(s, p2, (n - 1) as nat, Some(b), f1),
                        None => None,
                    }
                } else if k == 1 {
                    match cbor::parse_str(s, p1, 3) {
                        Some((b, p2)) => parse_chat_entries(s, p2, (n - 1) as nat, f0, Some(b)),
                        None => None,
                    }
                } else {
                    match cbor::skip_n(s, p1, 1) {
                        Some(p2) => parse_chat_entries(s, p2, (n - 1) as nat, f0, f1),
                        None => None,
                    }
                }
            },
        }
    }
}

pub open spec fn parse_chat_message(s: Seq<u8>, pos: int) -> Option<(ChatMessageV, int)> {
    match cbor::parse_map(s, pos) {
        Some((n, p1)) => parse_chat_entries(s, p1, n as nat, None, None),
        None => None,
    }
}

/// Parsing an encoded chat line yields the line back.
pub proof fn lemma_parse_chat_message_enc(s: Seq<u8>, pos: int, m: ChatMessageV)
    requires
        wf_chat_message(m),
        cbor::bytes_at(s, pos, enc_chat_message(m)),
    ensures
        parse_chat_message(s, pos) == Some((m, pos + enc_chat_message(m).len())),
{
    let h = cbor::enc_map(2);
    let k0 = cbor::enc_uint(0);
    let v0 = cbor::enc_str(3, m.from);
    let k1 = cbor::enc_uint(1);
    let v1 = cbor::enc_str(3, m.message);
    cbor::lemma_bytes_at_split(s, pos, h + k0 + v0 + k1, v1);
    cbor::lemma_bytes_at_split(s, pos, h + k0 + v0, k1);
    cbor::lemma_bytes_at_split(s, pos, h + k0, v0);
    cbor::lemma_bytes_at_split(s, pos, h, k0);
    let p0 = pos + h.len();
    let p0v = p0 + k0.len();
    let p1 = p0v + v0.len();
    let p1v = p1 + k1.len();
    let pe = p1v + v1.len();
    cbor::lemma_parse_map_enc(s, pos, 2);
    cbor::lemma_parse_uint_enc(s, p0, 0);
    cbor::lemma_parse_str_enc(s, p0v, 3, m.from);
    cbor::lemma_parse_uint_enc(s, p1, 1);
    cbor::lemma_parse_str_enc(s, p1v, 3, m.message);
    assert(parse_chat_entries(s, p0, 2, None, None) == parse_chat_entries(
        s,
        p1,
        1,
        Some(m.from),
        None,
    ));
    assert(parse_chat_entries(s, p1, 1, Some(m.from), None) == parse_chat_entries(
        s,
        pe,
        0,
        Some(m.from),
        Some(m.message),
    ));
}

/// Decoding inverts encoding for every chat line.
pub proof fn lemma_chat_message_round_trip(m: ChatMessageV)
    requires
        wf_chat_message(m),
    ensures
        parse_chat_message(enc_chat_message(m), 0) == Some(
            (m, enc_chat_message(m).len() as int),
        ),
{
    lemma_parse_chat_message_enc(enc_chat_message(m), 0, m);
}

/// Encode a chat line.
pub fn encode_chat_message(m: &ChatMessage) -> (out: Vec<u8>)
    ensures
        out@ == enc_chat_message(m@),
{
    let mut out: Vec<u8> = Vec::new();
    cbor::write_map(2, &mut out);
    cbor::write_uint(0, &mut out);
    cbor::write_str(3, &m.from, &mut out);
    cbor::write_uint(1, &mut out);
    cbor::write_str(3, &m.message, &mut out);
    out
}

/// Decode a chat line; every byte must be consumed.
pub fn decode_chat_message(buf: &Vec<u8>) -> (r: Option<ChatMessage>)
    ensures
        match r {
            Some(m) => parse_chat_message(buf@, 0) == Some((m@, buf@.len() as int)),
            None => parse_chat_message(buf@, 0) is None || parse_chat_message(buf@, 0)->Some_0.1
                != buf@.len(),
        },
{
    match cbor::read_map(buf, 0) {
        None => None,
        Some((n, p1)) => {
            let mut f0: Option<Vec<u8>> = None;
            let mut f1: Option<Vec<u8>> = None;
            let mut cur: usize = p1;
            let mut rem: u64 = n;
            loop
                invariant
                    0 < cur <= buf.len(),
                    parse_chat_message(buf@, 0) == parse_chat_entries(
                        buf@,
                        cur as int,
                        rem as nat,
                        opt_bytes(f0),
                        opt_bytes(f1),
                    ),
                decreases rem,
            {
                if rem == 0 {
                    match (f0, f1) {
                        (Some(from), Some(message)) => {
                            if cur == buf.len() {
                                return Some(ChatMessage { from, message });
                            } else {
                                return None;
                            }
                        },
                        _ => {
                            return None;
                        },
                    }
                }
                match cbor::read_uint(buf, cur) {
                    None => {
                        return None;
                    },
                    Some((k, p2)) => {
                        if k == 0 {
                            match cbor::read_str(buf, p2, 3) {
                                None => {
                                    return None;
                                },
                                Some((b, p3)) => {
                                    f0 = Some(b);
                                    cur = p3;
                                    rem = rem - 1;
                                },
                            }
                        } else if k == 1 {
                            match cbor::read_str(buf, p2, 3) {
                                None => {
                                    return None;
                                },
                                Some((b, p3)) => {
                                    f1 = Some(b);
                                    cur = p3;
                                    rem = rem - 1;
                                },
                            }
                        } else {
                            match cbor::skip_items(buf, p2, 1) {
                                None => {
                                    return None;
                                },
                                Some(p3) => {
                                    cur = p3;
                                    rem = rem - 1;
                                },
                            }
                        }
                    },
                }
            }
        },
    }
}

/// The chat messages sent towards one peer: one per client, in set order.
pub open spec fn chat_msgs_for_peer(
    peer: Seq<u8>,
    clients: Seq<u16>,
    from_client: u16,
    content: Seq<u8>,
) -> Seq<MessageV> {
    clients.map_values(
        |c: u16| MessageV::Message {
            to_peer: peer,
            from_peer: Seq::empty(),
            to_client: c,
            from_client,
            service: Service::Chat.spec_id(),
            content,
        },
    )
}

/// The chat messages of a broadcast: the per-peer runs concatenated in
/// table order.
pub open spec fn chat_all_sends(
    peers: Seq<(Vec<u8>, IdSet)>,
    from_client: u16,
    content: Seq<u8>,
) -> Seq<MessageV>
    decreases peers.len(),
{
    if peers.len() == 0 {
        Seq::empty()
    } else {
        chat_all_sends(peers.drop_last(), from_client, content) + chat_msgs_for_peer(
            peers.last().0@,
            peers.last().1@,
            from_client,
            content,
        )
    }
}

/// The chat client's state; messages to the daemon queue on the outbox.
pub struct ChatClient {
    pub client_id: u16,
    pub name: Vec<u8>,
    pub destination: Vec<u8>,
    pub peers: Vec<(Vec<u8>, IdSet)>,
    pub outbox: Vec<Message>,
}

/// Views of the queued messages.
pub open spec fn cobv(v: Seq<Message>) -> Seq<MessageV> {
    v.map_values(|m: Message| m@)
}

/// The broadcast destination.
pub open spec fn text_all() -> Seq<u8> {
    seq![97u8, 108, 108]
}

impl ChatClient {
    /// Fresh chat client with the given user name and destination.
    pub fn new(name: Vec<u8>, destination: Vec<u8>) -> (r: Self)
        ensures
            r.client_id == 0,
            r.name@ == name@,
            r.destination@ == destination@,
            r.peers@.len() == 0,
            r.outbox@.len() == 0,
    {
        ChatClient { client_id: 0, name, destination, peers: Vec::new(), outbox: Vec::new() }
    }

    /// Queue the registration of this client for the chat service.
    pub fn register_client(&mut self)
        ensures
            final(self).client_id == old(self).client_id,
            final(self).name == old(self).name,
            final(self).destination == old(self).destination,
            final(self).peers == old(self).peers,
            cobv(final(self).outbox@) == cobv(old(self).outbox@).push(
                MessageV::Register { services: seq![Service::Chat.spec_id()] },
            ),
    {
        let mut services = IdSet::new();
        services.insert(Service::Chat.id());
        proof {
            assert(services@.contains(Service::Chat.spec_id()));
            let w = choose|w: int|
                0 <= w < services@.len() && services@[w] == Service::Chat.spec_id();
            assert(services@.len() == 1);
            assert(services@ =~= seq![Service::Chat.spec_id()]);
        }
        let m = Message::Register { services };
        let ghost prev = self.outbox@;
        self.outbox.push(m);
        proof {
            assert(cobv(self.outbox@) =~= cobv(prev).push(
                MessageV::Register { services: seq![Service::Chat.spec_id()] },
            ));
        }
    }

    /// Handle one message from the daemon: the registration reply fixes the
    /// id; a chat-service update replaces the peer map; a chat message for
    /// this client is decoded and returned for display with its origin.
    pub fn handle_message(&mut self, message: Message) -> (display: Option<
        (Vec<u8>, u16, ChatMessage),
    >)
        ensures
            final(self).name == old(self).name,
            final(self).destination == old(self).destination,
            final(self).outbox == old(self).outbox,
            match message@ {
                MessageV::RegisterOk { client_id } => final(self).client_id == client_id && final(self).peers == old(self).peers && display is None,
                MessageV::Message { from_peer, from_client, service, content, .. } => final(self).peers == old(self).peers && final(self).client_id == old(self).client_id && (
                if service == Service::Chat.spec_id() {
                    match parse_chat_message(content, 0) {
                        Some((cm, end)) => if end == content.len() {
                            display matches Some((fp, fc, m)) && fp@ == from_peer && fc
                                == from_client && m@ == cm
                        } else {
                            display is None
                        },
                        None => display is None,
                    }
                } else {
                    display is None
                }),
                MessageV::Event { to_client, event, .. } => display is None && final(self).client_id == old(self).client_id && (if to_client == old(self).client_id && (
                event matches EventV::ServiceUpdate(svc, _) && svc == Service::Chat.spec_id()) {
                    crate::message::pcs_view(final(self).peers@) == event->ServiceUpdate_1
                } else {
                    final(self).peers == old(self).peers
                }),
                _ => *final(self) == *old(self) && display is None,
            },
    {
        match message {
            Message::RegisterOk { client_id } => {
                self.client_id = client_id;
                None
            },
            Message::Message { from_peer, from_client, service, content, .. } => {
                if service == Service::Chat.id() {
                    match decode_chat_message(&content) {
                        Some(cm) => Some((from_peer, from_client, cm)),
                        None => None,
                    }
                } else {
                    None
                }
            },
            Message::Event { to_client, from_client: _, event } => {
                if to_client == self.client_id {
                    match event {
                        Event::ServiceUpdate(svc, m) => {
                            if svc == Service::Chat.id() {
                                self.peers = m;
                            }
                        },
                        _ => {},
                    }
                }
                None
            },
            _ => None,
        }
    }

    /// Send a typed line: to every chat client of every peer when the
    /// destination is the broadcast word, else to every chat client of the
    /// destination peer; to nobody when that peer is unknown.
    pub fn handle_line(&mut self, line: Vec<u8>)
        ensures
            final(self).client_id == old(self).client_id,
            final(self).name == old(self).name,
            final(self).destination == old(self).destination,
            final(self).peers == old(self).peers,
            ({
                let content = enc_chat_message(
                    ChatMessageV { from: old(self).name@, message: line@ },
                );
                if old(self).destination@ == text_all() {
                    cobv(final(self).outbox@) == cobv(old(self).outbox@) + chat_all_sends(
                        old(self).peers@,
                        old(self).client_id,
                        content,
                    )
                } else {
                    (exists|i: int|
                        0 <= i < old(self).peers@.len() && (#[trigger] old(self).peers@[i]).0@
                            == old(self).destination@ && cobv(final(self).outbox@) == cobv(
                            old(self).outbox@,
                        ) + chat_msgs_for_peer(
                            old(self).destination@,
                            old(self).peers@[i].1@,
                            old(self).client_id,
                            content,
                        )) || ((forall|i: int|
                        0 <= i < old(self).peers@.len() ==> (#[trigger] old(self).peers@[i]).0@
                            != old(self).destination@) && final(self).outbox == old(self).outbox)
                }
            }),
    {
        let cm = ChatMessage { from: clone_bytes(&self.name), message: line };
        let content = encode_chat_message(&cm);
        let all = all_text();
        if bytes_eq(&self.destination, &all) {
            let ghost base = cobv(self.outbox@);
            let ghost ps = self.peers@;
            let mut i: usize = 0;
            while i < self.peers.len()
                invariant
                    i <= ps.len(),
                    self.peers == old(self).peers,
                    ps == old(self).peers@,
                    self.client_id == old(self).client_id,
                    self.name == old(self).name,
                    self.destination == old(self).destination,
                    base == cobv(old(self).outbox@),
                    cobv(self.outbox@) == base + chat_all_sends(
                        ps.subrange(0, i as int),
                        self.client_id,
                        content@,
                    ),
                decreases ps.len() - i,
            {
                self.send_to_peer_clients(i, &content);
                proof {
                    assert(ps.subrange(0, i + 1).drop_last() =~= ps.subrange(0, i as int));
                    assert(ps.subrange(0, i + 1).last() == ps[i as int]);
                }
                i = i + 1;
            }
            proof {
                assert(ps.subrange(0, ps.len() as int) =~= ps);
                assert(cobv(self.outbox@) == cobv(old(self).outbox@) + chat_all_sends(
                    old(self).peers@,
                    old(self).client_id,
                    enc_chat_message(ChatMessageV { from: old(self).name@, message: line@ }),
                ));
            }
        } else {
            let dest = clone_bytes(&self.destination);
            match self.find_peer(&dest) {
                Some(i) => {
                    let ghost iw = i as int;
                    self.send_to_peer_clients(i, &content);
                    proof {
                        assert((#[trigger] old(self).peers@[iw]).0@ == old(self).destination@);
                        assert(cobv(self.outbox@) == cobv(old(self).outbox@)
                            + chat_msgs_for_peer(
                            old(self).destination@,
                            old(self).peers@[iw].1@,
                            old(self).client_id,
                            enc_chat_message(
                                ChatMessageV { from: old(self).name@, message: line@ },
                            ),
                        ));
                    }
                },
                None => {
                },
            }
        }
    }

    /// Queue one chat message per client of the peer at index `i`.
    fn send_to_peer_clients(&mut self, i: usize, content: &Vec<u8>)
        requires
            i < old(self).peers@.len(),
        ensures
            final(self).client_id == old(self).client_id,
            final(self).name == old(self).name,
            final(self).destination == old(self).destination,
            final(self).peers == old(self).peers,
            cobv(final(self).outbox@) == cobv(old(self).outbox@) + chat_msgs_for_peer(
                old(self).peers@[i as int].0@,
                old(self).peers@[i as int].1@,
                old(self).client_id,
                content@,
            ),
    {
        let ghost peer = self.peers@[i as int];
        let ghost base = cobv(self.outbox@);
        let mut k: usize = 0;
        while k < self.peers[i].1.items.len()
            invariant
                i < self.peers@.len(),
                peer == self.peers@[i as int],
                k <= peer.1.items@.len(),
                self.client_id == old(self).client_id,
                self.name == old(self).name,
                self.destination == old(self).destination,
                self.peers == old(self).peers,
                base == cobv(old(self).outbox@),
                cobv(self.outbox@) == base + chat_msgs_for_peer(
                    peer.0@,
                    peer.1@.subrange(0, k as int),
                    self.client_id,
                    content@,
                ),
            decreases peer.1.items@.len() - k,
        {
            let c = self.peers[i].1.items[k];
            let m = Message::Message {
                to_peer: clone_bytes(&self.peers[i].0),
                from_peer: Vec::new(),
                to_client: c,
                from_client: self.client_id,
                service: Service::Chat.id(),
                content: clone_bytes(content),
            };
            let ghost prev = cobv(self.outbox@);
            let ghost mv = m@;
            self.outbox.push(m);
            proof {
                assert(cobv(self.outbox@) =~= prev.push(mv));
                assert(peer.1@.subrange(0, k + 1) =~= peer.1@.subrange(0, k as int).push(
                    peer.1@[k as int],
                ));
                assert(chat_msgs_for_peer(
                    peer.0@,
                    peer.1@.subrange(0, k + 1),
                    self.client_id,
                    content@,
                ) =~= chat_msgs_for_peer(
                    peer.0@,
                    peer.1@.subrange(0, k as int),
                    self.client_id,
                    content@,
                ).push(mv));
                assert(base + chat_msgs_for_peer(
                    peer.0@,
                    peer.1@.subrange(0, k + 1),
                    self.client_id,
                    content@,
                ) =~= (base + chat_msgs_for_peer(
                    peer.0@,
                    peer.1@.subrange(0, k as int),
                    self.client_id,
                    content@,
                )).push(mv));
            }
            k = k + 1;
        }
        proof {
            assert(peer.1@.subrange(0, peer.1@.len() as int) =~= peer.1@);
        }
    }

    /// Index of the peer entry named `peer_id`.
    fn find_peer(&self, peer_id: &Vec<u8>) -> (r: Option<usize>)
        ensures
            match r {
                Some(i) => i < self.peers@.len() && self.peers@[i as int].0@ == peer_id@,
                None => forall|i: int|
                    0 <= i < self.peers@.len() ==> (#[trigger] self.peers@[i]).0@ != peer_id@,
            },
    {
        let mut i: usize = 0;
        while i < self.peers.len()
            invariant
                i <= self.peers@.len(),
                forall|k: int| 0 <= k < i ==> (#[trigger] self.peers@[k]).0@ != peer_id@,
            decreases self.peers@.len() - i,
        {
            if bytes_eq(&self.peers[i].0, peer_id) {
                return Some(i);
            }
            i = i + 1;
        }
        None
    }
}

/// The broadcast destination word.
pub fn all_text() -> (r: Vec<u8>)
    ensures
        r@ == text_all(),
{
    let v: Vec<u8> = vec![97u8, 108, 108];
    proof {
        assert(v@ =~= text_all());
    }
    v
}

} // verus!
