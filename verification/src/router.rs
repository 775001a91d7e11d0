//! The daemon router: client registry, peer table and routing policy.
//!
//! The router is a state machine.  Sends to clients are modelled by one
//! outbox per client, appended in delivery order; the surrounding process
//! drains each outbox to the client's socket in order.  Overlay work is
//! returned as `swarm::Event` commands.

use crate::idset::IdSet;
use crate::message::{
    bytes_eq, clone_bytes, clone_idset, clone_peer_list, Event, EventV, GetSet, GetSetV, Message,
    MessageV, PeerInfo, PeerInfoV, Service,
};
use crate::swarm;
use vstd::prelude::*;

verus! {

/// A connected local client: its services, whether it has registered, and
/// the messages queued towards it, oldest first.
pub struct ClientInfo {
    pub services: IdSet,
    pub registered: bool,
    pub outbox: Vec<Message>,
}

/// Views of the messages queued for the client at index `i`.
pub open spec fn obx(cs: Seq<(u16, ClientInfo)>, i: int) -> Seq<MessageV> {
    cs[i].1.outbox@.map_values(|m: Message| m@)
}

/// Client ids are unique, never reserved, and service sets are well formed.
pub open spec fn cs_wf(cs: Seq<(u16, ClientInfo)>) -> bool {
    &&& forall|i: int, j: int|
        0 <= i < j < cs.len() ==> (#[trigger] cs[i]).0 != (#[trigger] cs[j]).0
    &&& forall|i: int|
        0 <= i < cs.len() ==> (#[trigger] cs[i]).0 != 0 && cs[i].0 != crate::ALL_CLIENTS
            && cs[i].1.services.wf()
}

/// Some client has id `id`.
pub open spec fn has_client(cs: Seq<(u16, ClientInfo)>, id: u16) -> bool {
    exists|i: int| 0 <= i < cs.len() && (#[trigger] cs[i]).0 == id
}

/// Same clients in the same order, with the same services and registration;
/// only outboxes may differ.
pub open spec fn same_shape(a: Seq<(u16, ClientInfo)>, b: Seq<(u16, ClientInfo)>) -> bool {
    &&& a.len() == b.len()
    &&& forall|i: int|
        0 <= i < a.len() ==> (#[trigger] b[i]).0 == a[i].0 && b[i].1.services@ == a[i].1.services@
            && b[i].1.registered == a[i].1.registered
}

/// The client receives service-directory events: it registered for the
/// service-directory service.
pub open spec fn subscribed(ci: ClientInfo) -> bool {
    ci.registered && ci.services@.contains(Service::Service.spec_id())
}

/// Peer ids in the peer table are unique.
pub open spec fn ps_wf(ps: Seq<PeerInfo>) -> bool {
    forall|i: int, j: int|
        0 <= i < j < ps.len() ==> (#[trigger] ps[i]).peer_id@ != (#[trigger] ps[j]).peer_id@
}

pub open spec fn has_peer(ps: Seq<PeerInfo>, peer_id: Seq<u8>) -> bool {
    exists|i: int| 0 <= i < ps.len() && (#[trigger] ps[i]).peer_id@ == peer_id
}

/// The peer entry is stale at `now`.
pub open spec fn peer_expired(p: PeerInfoV, now: u64) -> bool {
    p.last_update < now && now - p.last_update > crate::PEER_TTL
}

/// Predicate on peer entries: still fresh at `now`.
pub open spec fn keep_pred(now: u64) -> spec_fn(PeerInfo) -> bool {
    |p: PeerInfo| !peer_expired(p@, now)
}

/// Predicate on peer entries: stale at `now`.
pub open spec fn drop_pred(now: u64) -> spec_fn(PeerInfo) -> bool {
    |p: PeerInfo| peer_expired(p@, now)
}

/// The peer-update event message for recipient `to`, as a function of the
/// dropped peer entry.
pub open spec fn peer_update_msg_fn(to: u16) -> spec_fn(PeerInfo) -> MessageV {
    |p: PeerInfo| MessageV::Event { to_client: to, from_client: 0, event: EventV::PeerUpdate(p@) }
}

/// The event message that announces a client change to a directory client.
pub open spec fn msg_client_update(to: u16, add: bool, id: u16, services: Seq<u16>) -> MessageV {
    MessageV::Event { to_client: to, from_client: 0, event: EventV::ClientUpdate(add, id, services) }
}

/// The frame delivered to a local client for an inbound overlay message.
pub open spec fn msg_inbound(
    from_peer: Seq<u8>,
    to_client: u16,
    from_client: u16,
    service: u16,
    content: Seq<u8>,
) -> MessageV {
    MessageV::Message {
        to_peer: Seq::empty(),
        from_peer,
        to_client,
        from_client,
        service,
        content,
    }
}

/// The probe order of client-id allocation: the `k`-th candidate after
/// `next`, wrapping within `1..=0xfffe`.
pub open spec fn cand_spec(next: u16, k: int) -> int {
    (next - 1 + k) % 65534 + 1
}

/// The daemon router state.
pub struct Router {
    pub clients: Vec<(u16, ClientInfo)>,
    pub peers: Vec<PeerInfo>,
    pub next_client_id: u16,
    pub name: Vec<u8>,
    pub local_peer_id: Vec<u8>,
}

impl Router {
    pub open spec fn wf(&self) -> bool {
        &&& cs_wf(self.clients@)
        &&& ps_wf(self.peers@)
        &&& 1 <= self.next_client_id < crate::ALL_CLIENTS
    }

    /// Fresh router with no clients and no peers; ids are handed out from 1.
    pub fn new(name: Vec<u8>, local_peer_id: Vec<u8>) -> (r: Router)
        ensures
            r.wf(),
            r.clients@.len() == 0,
            r.peers@.len() == 0,
            r.next_client_id == 1,
            r.name@ == name@,
            r.local_peer_id@ == local_peer_id@,
    {
        Router { clients: Vec::new(), peers: Vec::new(), next_client_id: 1, name, local_peer_id }
    }

    /// Index of the client with id `id`.
    fn find_client(&self, id: u16) -> (r: Option<usize>)
        ensures
            match r {
                Some(i) => i < self.clients@.len() && self.clients@[i as int].0 == id,
                None => !has_client(self.clients@, id),
            },
    {
        let mut i: usize = 0;
        while i < self.clients.len()
            invariant
                i <= self.clients@.len(),
                forall|k: int| 0 <= k < i ==> (#[trigger] self.clients@[k]).0 != id,
            decreases self.clients@.len() - i,
        {
            if self.clients[i].0 == id {
                return Some(i);
            }
            i = i + 1;
        }
        None
    }

    /// Index of the peer with id `peer_id`.
    fn find_peer(&self, peer_id: &Vec<u8>) -> (r: Option<usize>)
        ensures
            match r {
                Some(i) => i < self.peers@.len() && self.peers@[i as int].peer_id@ == peer_id@,
                None => !has_peer(self.peers@, peer_id@),
            },
    {
        let mut i: usize = 0;
        while i < self.peers.len()
            invariant
                i <= self.peers@.len(),
                forall|k: int| 0 <= k < i ==> (#[trigger] self.peers@[k]).peer_id@ != peer_id@,
            decreases self.peers@.len() - i,
        {
            if bytes_eq(&self.peers[i].peer_id, peer_id) {
                return Some(i);
            }
            i = i + 1;
        }
        None
    }

    /// Accept a new connection: allocate the first free client id at or
    /// after `next_client_id` in wrapping probe order, skipping the two
    /// reserved values, and add an unregistered client with an empty outbox.
    /// Fails only when every usable id is taken.
    pub fn accept_client(&mut self) -> (r: Option<u16>)
        requires
            old(self).wf(),
        ensures
            final(self).wf(),
            final(self).peers == old(self).peers,
            final(self).name == old(self).name,
            final(self).local_peer_id == old(self).local_peer_id,
            match r {
                Some(id) => {
                    &&& !has_client(old(self).clients@, id)
                    &&& id != 0 && id != crate::ALL_CLIENTS
                    &&& final(self).clients@.len() == old(self).clients@.len() + 1
                    &&& final(self).clients@.subrange(0, old(self).clients@.len() as int) == old(self).clients@
                    &&& final(self).clients@.last().0 == id
                    &&& final(self).clients@.last().1.services@ == Seq::<u16>::empty()
                    &&& final(self).clients@.last().1.registered == false
                    &&& final(self).clients@.last().1.outbox@.len() == 0
                    &&& exists|j: int|
                        0 <= j < 65534 && id == cand_spec(old(self).next_client_id, j) && (forall|
                            k: int,
                        |
                            0 <= k < j ==> has_client(
                                old(self).clients@,
                                #[trigger] cand_spec(old(self).next_client_id, k) as u16,
                            ))
                },
                None => {
                    &&& forall|id: u16|
                        1 <= id < crate::ALL_CLIENTS ==> has_client(old(self).clients@, id)
                    &&& final(self).clients == old(self).clients
                },
            },
    {
        let next = self.next_client_id;
        let mut k: u32 = 0;
        loop
            invariant
                self == old(self),
                self.wf(),
                next == self.next_client_id,
                k <= 65534,
                forall|j: int|
                    0 <= j < k ==> has_client(
                        self.clients@,
                        #[trigger] cand_spec(next, j) as u16,
                    ),
            decreases 65534 - k,
        {
            if k == 65534 {
                proof {
                    assert forall|id: u16| 1 <= id < crate::ALL_CLIENTS implies has_client(
                        old(self).clients@,
                        id,
                    ) by {
                        let j: int = if id >= next {
                            id - next
                        } else {
                            id - next + 65534
                        };
                        assert(0 <= j < 65534);
                        if id >= next {
                            assert(next - 1 + j == id - 1);
                            assert((id - 1) % 65534 == id - 1) by {
                                vstd::arithmetic::div_mod::lemma_small_mod(
                                    (id - 1) as nat,
                                    65534nat,
                                );
                            }
                        } else {
                            assert(next - 1 + j == id - 1 + 65534);
                            assert((id - 1 + 65534) % 65534 == id - 1) by {
                                vstd::arithmetic::div_mod::lemma_mod_multiples_vanish(
                                    1,
                                    (id - 1) as int,
                                    65534,
                                );
                                vstd::arithmetic::div_mod::lemma_small_mod(
                                    (id - 1) as nat,
                                    65534nat,
                                );
                            }
                        }
                        assert(cand_spec(next, j) == id);
                        assert(has_client(self.clients@, cand_spec(next, j) as u16));
                    }
                }
                return None;
            }
            let cand_u32: u32 = (next as u32 - 1 + k) % 65534 + 1;
            let cand: u16 = cand_u32 as u16;
            proof {
                assert(cand == cand_spec(next, k as int));
                assert(1 <= cand <= 65534);
            }
            match self.find_client(cand) {
                None => {
                    let info = ClientInfo { services: IdSet::new(), registered: false, outbox: Vec::new() };
                    let ghost oldcs = self.clients@;
                    self.clients.push((cand, info));
                    self.next_client_id = if cand == 65534 {
                        1
                    } else {
                        cand + 1
                    };
                    proof {
                        assert(self.clients@.subrange(0, oldcs.len() as int) =~= oldcs);
                        assert forall|i: int, j: int|
                            0 <= i < j < self.clients@.len() implies (#[trigger] self.clients@[i]).0
                            != (#[trigger] self.clients@[j]).0 by {
                            if j == self.clients@.len() - 1 {
                                assert(self.clients@[i] == oldcs[i]);
                                if self.clients@[i].0 == cand {
                                    assert(has_client(oldcs, cand));
                                }
                            }
                        }
                    }
                    return Some(cand);
                },
                Some(_) => {
                    k = k + 1;
                },
            }
        }
    }
}

/// `b` is `a` with the event message for `ev` appended to the outbox of
/// every subscribed client, except the one with id `except`.
pub open spec fn effect_dir_event(
    a: Seq<(u16, ClientInfo)>,
    b: Seq<(u16, ClientInfo)>,
    ev: EventV,
    except: Option<u16>,
) -> bool {
    &&& same_shape(a, b)
    &&& forall|j: int|
        0 <= j < a.len() ==> obx(b, j) == if subscribed((#[trigger] a[j]).1) && (except is None
            || a[j].0 != except->0) {
            obx(a, j).push(
                MessageV::Event { to_client: a[j].0, from_client: 0, event: ev },
            )
        } else {
            obx(a, j)
        }
}

/// `b` is `a` with `m` appended to the outbox of the client at index `i`.
pub open spec fn effect_push_one(
    a: Seq<(u16, ClientInfo)>,
    b: Seq<(u16, ClientInfo)>,
    i: int,
    m: MessageV,
) -> bool {
    &&& same_shape(a, b)
    &&& forall|j: int|
        0 <= j < a.len() ==> obx(b, j) == if j == i {
            obx(a, j).push(m)
        } else {
            obx(a, j)
        }
}

/// The entry at `j` delivers an inbound message addressed to `to_client`
/// with service `service`: the service matches, and either the message is a
/// broadcast or the id matches.
pub open spec fn delivers(entry: (u16, ClientInfo), to_client: u16, service: u16) -> bool {
    entry.1.services@.contains(service) && (to_client == crate::ALL_CLIENTS || entry.0 == to_client)
}

/// For a directed message, at most one client delivers: ids are unique.
pub proof fn lemma_route_at_most_one(
    cs: Seq<(u16, ClientInfo)>,
    to_client: u16,
    service: u16,
)
    requires
        cs_wf(cs),
        to_client != crate::ALL_CLIENTS,
    ensures
        forall|i: int, j: int|
            0 <= i < cs.len() && 0 <= j < cs.len() && delivers(#[trigger] cs[i], to_client, service)
                && delivers(#[trigger] cs[j], to_client, service) ==> i == j,
{
    assert forall|i: int, j: int|
        0 <= i < cs.len() && 0 <= j < cs.len() && delivers(#[trigger] cs[i], to_client, service)
            && delivers(#[trigger] cs[j], to_client, service) implies i == j by {
        if i < j {
            assert(cs[i].0 != cs[j].0);
        } else if j < i {
            assert(cs[j].0 != cs[i].0);
        }
    }
}

impl Router {
    /// Append the event, addressed to each recipient, to the outbox of every
    /// subscribed client but the excluded one.
    fn push_directory_event(&mut self, ev: &Event, except: Option<u16>)
        requires
            old(self).wf(),
        ensures
            final(self).wf(),
            effect_dir_event(old(self).clients@, final(self).clients@, ev@, except),
            final(self).peers == old(self).peers,
            final(self).name == old(self).name,
            final(self).local_peer_id == old(self).local_peer_id,
            final(self).next_client_id == old(self).next_client_id,
    {
        let ghost a = self.clients@;
        let mut i: usize = 0;
        while i < self.clients.len()
            invariant
                i <= a.len(),
                self.clients@.len() == a.len(),
                same_shape(a, self.clients@),
                cs_wf(a),
                self.peers == old(self).peers,
                self.name == old(self).name,
                self.local_peer_id == old(self).local_peer_id,
                self.next_client_id == old(self).next_client_id,
                forall|j: int|
                    0 <= j < i ==> obx(self.clients@, j) == if subscribed((#[trigger] a[j]).1) && (
                    except is None || a[j].0 != except->0) {
                        obx(a, j).push(
                            MessageV::Event { to_client: a[j].0, from_client: 0, event: ev@ },
                        )
                    } else {
                        obx(a, j)
                    },
                forall|j: int| i <= j < a.len() ==> obx(self.clients@, j) == obx(a, j),
            decreases a.len() - i,
        {
            let excluded = match except {
                Some(x) => self.clients[i].0 == x,
                None => false,
            };
            let push_it = self.clients[i].1.registered && self.clients[i].1.services.contains(
                Service::Service.id(),
            ) && !excluded;
            if push_it {
                let cid = self.clients[i].0;
                let m = Message::Event { to_client: cid, from_client: 0, event: ev.clone() };
                let ghost before = self.clients@;
                self.clients[i].1.outbox.push(m);
                proof {
                    assert forall|j: int| 0 <= j < a.len() && j != i implies obx(
                        self.clients@,
                        j,
                    ) == obx(before, j) by {
                        assert(self.clients@[j] == before[j]);
                    }
                    assert(obx(self.clients@, i as int) =~= obx(before, i as int).push(m@));
                }
            }
            i = i + 1;
        }
    }

    /// Remove the client with id `id`, if present.  If it had registered,
    /// every subscribed client learns of the removal through one client
    /// update with an empty service set.
    pub fn remove_client(&mut self, id: u16)
        requires
            old(self).wf(),
        ensures
            final(self).wf(),
            final(self).peers == old(self).peers,
            final(self).name == old(self).name,
            final(self).local_peer_id == old(self).local_peer_id,
            final(self).next_client_id == old(self).next_client_id,
            !has_client(final(self).clients@, id),
            !has_client(old(self).clients@, id) ==> final(self).clients == old(self).clients,
            has_client(old(self).clients@, id) ==> exists|i: int|
                {
                    &&& 0 <= i < old(self).clients@.len()
                    &&& (#[trigger] old(self).clients@[i]).0 == id
                    &&& effect_dir_event(
                        old(self).clients@.remove(i),
                        final(self).clients@,
                        EventV::ClientUpdate(false, id, Seq::empty()),
                        None,
                    ) || (!old(self).clients@[i].1.registered && final(self).clients@ == old(self).clients@.remove(i))
                },
    {
        match self.find_client(id) {
            None => {
            },
            Some(i) => {
                let ghost a = self.clients@;
                let entry = self.clients.remove(i);
                proof {
                    assert forall|p: int, q: int|
                        0 <= p < q < self.clients@.len() implies (#[trigger] self.clients@[p]).0
                        != (#[trigger] self.clients@[q]).0 by {
                        let pp = if p < i {
                            p
                        } else {
                            p + 1
                        };
                        let qq = if q < i {
                            q
                        } else {
                            q + 1
                        };
                        assert(self.clients@[p] == a[pp] && self.clients@[q] == a[qq]);
                    }
                    assert forall|p: int| 0 <= p < self.clients@.len() implies (
                    #[trigger] self.clients@[p]).0 != 0 && self.clients@[p].0 != crate::ALL_CLIENTS
                        && self.clients@[p].1.services.wf() by {
                        let pp = if p < i {
                            p
                        } else {
                            p + 1
                        };
                        assert(self.clients@[p] == a[pp]);
                    }
                    assert forall|p: int| 0 <= p < self.clients@.len() implies (
                    #[trigger] self.clients@[p]).0 != id by {
                        let pp = if p < i {
                            p
                        } else {
                            p + 1
                        };
                        assert(self.clients@[p] == a[pp]);
                        if pp < i {
                            assert(a[pp].0 != a[i as int].0);
                        } else {
                            assert(a[i as int].0 != a[pp].0);
                        }
                    }
                }
                if entry.1.registered {
                    let ev = Event::ClientUpdate(false, id, IdSet::new());
                    self.push_directory_event(&ev, None);
                }
            },
        }
    }

    /// Record a peer announcement: create or refresh the peer's entry with
    /// `last_update = now`, and push one peer update to every subscribed
    /// client.
    pub fn handle_swarm_announce_peer(
        &mut self,
        peer_id: Vec<u8>,
        name: Vec<u8>,
        services_tag: u32,
        now: u64,
    )
        requires
            old(self).wf(),
        ensures
            final(self).wf(),
            final(self).name == old(self).name,
            final(self).local_peer_id == old(self).local_peer_id,
            final(self).next_client_id == old(self).next_client_id,
            effect_dir_event(
                old(self).clients@,
                final(self).clients@,
                EventV::PeerUpdate(
                    PeerInfoV { peer_id: peer_id@, name: name@, services_tag, last_update: now },
                ),
                None,
            ),
            has_peer(final(self).peers@, peer_id@),
            final(self).peers@.len() == old(self).peers@.len() + (
            if has_peer(old(self).peers@, peer_id@) {
                0int
            } else {
                1int
            }),
            forall|i: int|
                0 <= i < final(self).peers@.len() ==> (#[trigger] final(self).peers@[i]).peer_id@
                    == peer_id@ ==> final(self).peers@[i]@ == (PeerInfoV {
                    peer_id: peer_id@,
                    name: name@,
                    services_tag,
                    last_update: now,
                }),
            forall|i: int|
                0 <= i < old(self).peers@.len() && (#[trigger] old(self).peers@[i]).peer_id@
                    != peer_id@ ==> final(self).peers@[i] == old(self).peers@[i],
    {
        let info = PeerInfo {
            peer_id: clone_bytes(&peer_id),
            name: clone_bytes(&name),
            services_tag,
            last_update: now,
        };
        let ghost ps = self.peers@;
        match self.find_peer(&peer_id) {
            Some(i) => {
                self.peers[i] = info;
                proof {
                    assert forall|p: int, q: int|
                        0 <= p < q < self.peers@.len() implies (#[trigger] self.peers@[p]).peer_id@
                        != (#[trigger] self.peers@[q]).peer_id@ by {
                        if p != i && q != i {
                            assert(self.peers@[p] == ps[p] && self.peers@[q] == ps[q]);
                        } else if p == i {
                            assert(self.peers@[q] == ps[q]);
                            assert(ps[i as int].peer_id@ != ps[q].peer_id@);
                        } else {
                            assert(self.peers@[p] == ps[p]);
                            assert(ps[p].peer_id@ != ps[i as int].peer_id@);
                        }
                    }
                }
            },
            None => {
                self.peers.push(info);
                proof {
                    assert forall|p: int, q: int|
                        0 <= p < q < self.peers@.len() implies (#[trigger] self.peers@[p]).peer_id@
                        != (#[trigger] self.peers@[q]).peer_id@ by {
                        if q == self.peers@.len() - 1 {
                            assert(self.peers@[p] == ps[p]);
                            assert(!has_peer(ps, peer_id@));
                        } else {
                            assert(self.peers@[p] == ps[p] && self.peers@[q] == ps[q]);
                        }
                    }
                }
            },
        }
        let ghost i_new: int = if has_peer(ps, peer_id@) {
            choose|i: int| 0 <= i < ps.len() && (#[trigger] ps[i]).peer_id@ == peer_id@
        } else {
            ps.len() as int
        };
        proof {
            assert(self.peers@[i_new].peer_id@ == peer_id@);
            assert(has_peer(self.peers@, peer_id@));
        }
        let ghost mid = self.peers@;
        let ev = Event::PeerUpdate(PeerInfo { peer_id, name, services_tag, last_update: now });
        self.push_directory_event(&ev, None);
        proof {
            assert(self.peers@ == mid);
            assert(has_peer(self.peers@, peer_id@));
        }
    }

    /// Drop every peer whose entry is older than the peer TTL at `now`, and
    /// push one peer update per dropped peer, in table order, to every
    /// subscribed client.  Fresh entries and clients are otherwise untouched.
    pub fn handle_timer(&mut self, now: u64)
        requires
            old(self).wf(),
        ensures
            final(self).wf(),
            final(self).name == old(self).name,
            final(self).local_peer_id == old(self).local_peer_id,
            final(self).next_client_id == old(self).next_client_id,
            final(self).peers@ == old(self).peers@.filter(keep_pred(now)),
            same_shape(old(self).clients@, final(self).clients@),
            forall|j: int|
                0 <= j < old(self).clients@.len() ==> obx(final(self).clients@, j) == if subscribed(
                    (#[trigger] old(self).clients@[j]).1,
                ) {
                    obx(old(self).clients@, j) + old(self).peers@.filter(
                        drop_pred(now),
                    ).map_values(peer_update_msg_fn(old(self).clients@[j].0))
                } else {
                    obx(old(self).clients@, j)
                },
    {
        let ghost ps = self.peers@;
        let mut kept: Vec<PeerInfo> = Vec::new();
        let mut dropped: Vec<PeerInfo> = Vec::new();
        while self.peers.len() > 0
            invariant
                self.peers@.len() <= ps.len(),
                ({
                    let i = ps.len() - self.peers@.len();
                    &&& self.peers@ == ps.subrange(i as int, ps.len() as int)
                    &&& kept@ == ps.subrange(0, i as int).filter(keep_pred(now))
                    &&& dropped@ == ps.subrange(0, i as int).filter(drop_pred(now))
                    &&& forall|x: int|
                        0 <= x < kept@.len() ==> exists|y: int|
                            0 <= y < i && ps[y] == #[trigger] kept@[x]
                }),
                ps_wf(ps),
                ps_wf(kept@),
                self.clients == old(self).clients,
                self.name == old(self).name,
                self.local_peer_id == old(self).local_peer_id,
                self.next_client_id == old(self).next_client_id,
            decreases self.peers@.len(),
        {
            let ghost i = ps.len() - self.peers@.len();
            let ghost kpre = kept@;
            let ghost dpre = dropped@;
            let p = self.peers.remove(0);
            proof {
                reveal(Seq::filter);
                assert(p == ps[i as int]);
                assert(ps.subrange(i as int, ps.len() as int).remove(0) =~= ps.subrange(
                    i + 1,
                    ps.len() as int,
                ));
                assert(ps.subrange(0, i + 1).drop_last() =~= ps.subrange(0, i as int));
                assert(ps.subrange(0, i + 1).last() == ps[i as int]);
                assert(keep_pred(now)(ps[i as int]) == !peer_expired(ps[i as int]@, now));
                assert(drop_pred(now)(ps[i as int]) == peer_expired(ps[i as int]@, now));
                if peer_expired(ps[i as int]@, now) {
                    assert(ps.subrange(0, i + 1).filter(keep_pred(now)) == kpre);
                    assert(ps.subrange(0, i + 1).filter(drop_pred(now)) == dpre.push(
                        ps[i as int],
                    ));
                } else {
                    assert(ps.subrange(0, i + 1).filter(keep_pred(now)) == kpre.push(
                        ps[i as int],
                    ));
                    assert(ps.subrange(0, i + 1).filter(drop_pred(now)) == dpre);
                }
            }
            if p.last_update < now && now - p.last_update > crate::PEER_TTL {
                dropped.push(p);
            } else {
                let ghost keptold = kept@;
                kept.push(p);
                proof {
                    assert forall|x: int, y: int| 0 <= x < y < kept@.len() implies (
                    #[trigger] kept@[x]).peer_id@ != (#[trigger] kept@[y]).peer_id@ by {
                        if y == kept@.len() - 1 {
                            assert(kept@[x] == keptold[x]);
                            let w = choose|w: int| 0 <= w < i && ps[w] == keptold[x];
                            assert(ps[w].peer_id@ != ps[i as int].peer_id@);
                        } else {
                            assert(kept@[x] == keptold[x] && kept@[y] == keptold[y]);
                        }
                    }
                    assert forall|x: int| 0 <= x < kept@.len() implies exists|y: int|
                        0 <= y < i + 1 && ps[y] == #[trigger] kept@[x] by {
                        if x < kept@.len() - 1 {
                            assert(kept@[x] == keptold[x]);
                            let w = choose|w: int| 0 <= w < i && ps[w] == keptold[x];
                            assert(ps[w] == kept@[x]);
                        } else {
                            assert(ps[i as int] == kept@[x]);
                        }
                    }
                }
            }
        }
        proof {
            reveal(Seq::filter);
            assert(ps.subrange(0, ps.len() as int) =~= ps);
        }
        self.peers = kept;
        let ghost a = self.clients@;
        let ghost dseq = dropped@;
        let mut d: usize = 0;
        while d < dropped.len()
            invariant
                d <= dseq.len(),
                dropped@ == dseq,
                self.wf(),
                self.peers@ == ps.filter(keep_pred(now)),
                self.name == old(self).name,
                self.local_peer_id == old(self).local_peer_id,
                self.next_client_id == old(self).next_client_id,
                cs_wf(a),
                same_shape(a, self.clients@),
                forall|j: int|
                    0 <= j < a.len() ==> obx(self.clients@, j) == if subscribed(
                        (#[trigger] a[j]).1,
                    ) {
                        obx(a, j) + dseq.subrange(0, d as int).map_values(
                            peer_update_msg_fn(a[j].0),
                        )
                    } else {
                        obx(a, j)
                    },
            decreases dseq.len() - d,
        {
            let p = dropped[d].clone();
            let ghost before = self.clients@;
            let ev = Event::PeerUpdate(p);
            self.push_directory_event(&ev, None);
            proof {
                assert forall|j: int| 0 <= j < a.len() implies obx(self.clients@, j)
                    == if subscribed(a[j].1) {
                    obx(a, j) + dseq.subrange(0, d + 1).map_values(peer_update_msg_fn(a[j].0))
                } else {
                    obx(a, j)
                } by {
                    let f = peer_update_msg_fn(a[j].0);
                    if subscribed(a[j].1) {
                        assert(subscribed(before[j].1));
                        assert(before[j].0 == a[j].0);
                        assert(p@ == dseq[d as int]@);
                        assert(obx(self.clients@, j) == obx(before, j).push(f(dseq[d as int])));
                        assert(dseq.subrange(0, d + 1).map_values(f) =~= dseq.subrange(
                            0,
                            d as int,
                        ).map_values(f).push(f(dseq[d as int])));
                        assert(obx(a, j) + dseq.subrange(0, d + 1).map_values(f) =~= (obx(a, j)
                            + dseq.subrange(0, d as int).map_values(f)).push(f(dseq[d as int])));
                    } else {
                        assert(!subscribed(before[j].1));
                    }
                }
            }
            d = d + 1;
        }
        proof {
            assert(dseq.subrange(0, dseq.len() as int) =~= dseq);
        }
    }
}

/// `b` is `a` with one inbound frame delivered to every matching client.
pub open spec fn effect_route(
    a: Seq<(u16, ClientInfo)>,
    b: Seq<(u16, ClientInfo)>,
    from_peer: Seq<u8>,
    to_client: u16,
    from_client: u16,
    service: u16,
    content: Seq<u8>,
) -> bool {
    &&& same_shape(a, b)
    &&& forall|j: int|
        0 <= j < a.len() ==> obx(b, j) == if delivers(#[trigger] a[j], to_client, service) {
            obx(a, j).push(msg_inbound(from_peer, to_client, from_client, service, content))
        } else {
            obx(a, j)
        }
}

/// `b` is `a` after client `i` registered `services`: it holds the new
/// services, is registered, and got the registration reply; every other
/// subscribed client got one client update.
pub open spec fn effect_register(
    a: Seq<(u16, ClientInfo)>,
    b: Seq<(u16, ClientInfo)>,
    i: int,
    id: u16,
    services: Seq<u16>,
) -> bool {
    &&& a.len() == b.len()
    &&& 0 <= i < a.len() && a[i].0 == id
    &&& forall|j: int| 0 <= j < a.len() ==> (#[trigger] b[j]).0 == a[j].0
    &&& b[i].1.services@ == services
    &&& b[i].1.registered == true
    &&& obx(b, i) == obx(a, i).push(MessageV::RegisterOk { client_id: id })
    &&& forall|j: int|
        0 <= j < a.len() && j != i ==> (#[trigger] b[j]).1.services@ == a[j].1.services@ && b[
            j
        ].1.registered == a[j].1.registered && obx(b, j) == if subscribed(a[j].1) {
            obx(a, j).push(msg_client_update(a[j].0, true, id, services))
        } else {
            obx(a, j)
        }
}

/// The text of the reply to an unknown get request.
pub open spec fn text_unknown_get() -> Seq<u8> {
    seq![
        85u8, 110, 107, 110, 111, 119, 110, 32, 103, 101, 116, 32, 114, 101, 113, 117, 101, 115,
        116,
    ]
}

/// The text of the reply to an unknown set request.
pub open spec fn text_unknown_set() -> Seq<u8> {
    seq![
        85u8, 110, 107, 110, 111, 119, 110, 32, 115, 101, 116, 32, 114, 101, 113, 117, 101, 115,
        116,
    ]
}

/// "Unknown get request"
pub fn unknown_get_text() -> (r: Vec<u8>)
    ensures
        r@ == text_unknown_get(),
{
    let v: Vec<u8> = vec![
        85u8, 110, 107, 110, 111, 119, 110, 32, 103, 101, 116, 32, 114, 101, 113, 117, 101, 115,
        116,
    ];
    proof {
        assert(v@ =~= text_unknown_get());
    }
    v
}

/// "Unknown set request"
pub fn unknown_set_text() -> (r: Vec<u8>)
    ensures
        r@ == text_unknown_set(),
{
    let v: Vec<u8> = vec![
        85u8, 110, 107, 110, 111, 119, 110, 32, 115, 101, 116, 32, 114, 101, 113, 117, 101, 115,
        116,
    ];
    proof {
        assert(v@ =~= text_unknown_set());
    }
    v
}

/// The reply owed to a get request: the name or the peer list when asked for
/// them, an error for anything else.
pub open spec fn get_reply(
    name: Seq<u8>,
    peers: Seq<PeerInfoV>,
    client_id: u16,
    request_id: u32,
    content: GetSetV,
) -> MessageV {
    MessageV::Get {
        client_id,
        request_id,
        content: match content {
            GetSetV::Name(_) => GetSetV::Name(name),
            GetSetV::Peers(_) => GetSetV::Peers(peers),
            _ => GetSetV::Error(text_unknown_get()),
        },
    }
}

/// The reply owed to a set request.
pub open spec fn set_reply(client_id: u16, request_id: u32, content: GetSetV) -> MessageV {
    MessageV::Put {
        client_id,
        request_id,
        content: match content {
            GetSetV::Name(_) => GetSetV::Okay,
            GetSetV::Connect(_) => GetSetV::Okay,
            GetSetV::ServicesTag(_) => GetSetV::Okay,
            _ => GetSetV::Error(text_unknown_set()),
        },
    }
}

/// The overlay command that a set request issues.
pub open spec fn set_command(content: GetSetV) -> Option<swarm::EventV> {
    match content {
        GetSetV::Name(n) => Some(swarm::EventV::SetName(n)),
        GetSetV::Connect(a) => Some(swarm::EventV::ConnectAddress(a)),
        GetSetV::ServicesTag(t) => Some(swarm::EventV::SetServicesTag(t)),
        _ => None,
    }
}

impl Router {
    /// Route an inbound overlay message.  A broadcast goes to exactly the
    /// clients that registered the service, one copy each; anything else goes
    /// to the addressed client alone, and only if it registered the service.
    pub fn handle_swarm_message(
        &mut self,
        from_peer: Vec<u8>,
        from_client: u16,
        to_client: u16,
        service: u16,
        content: Vec<u8>,
    )
        requires
            old(self).wf(),
        ensures
            final(self).wf(),
            final(self).peers == old(self).peers,
            final(self).name == old(self).name,
            final(self).local_peer_id == old(self).local_peer_id,
            final(self).next_client_id == old(self).next_client_id,
            effect_route(
                old(self).clients@,
                final(self).clients@,
                from_peer@,
                to_client,
                from_client,
                service,
                content@,
            ),
    {
        let ghost a = self.clients@;
        let mut i: usize = 0;
        while i < self.clients.len()
            invariant
                i <= a.len(),
                self.clients@.len() == a.len(),
                same_shape(a, self.clients@),
                cs_wf(a),
                self.peers == old(self).peers,
                self.name == old(self).name,
                self.local_peer_id == old(self).local_peer_id,
                self.next_client_id == old(self).next_client_id,
                forall|j: int|
                    0 <= j < i ==> obx(self.clients@, j) == if delivers(
                        #[trigger] a[j],
                        to_client,
                        service,
                    ) {
                        obx(a, j).push(
                            msg_inbound(from_peer@, to_client, from_client, service, content@),
                        )
                    } else {
                        obx(a, j)
                    },
                forall|j: int| i <= j < a.len() ==> obx(self.clients@, j) == obx(a, j),
            decreases a.len() - i,
        {
            let matches_service = self.clients[i].1.services.contains(service);
            let addressed = to_client == crate::ALL_CLIENTS || self.clients[i].0 == to_client;
            if matches_service && addressed {
                let m = Message::Message {
                    to_peer: Vec::new(),
                    from_peer: clone_bytes(&from_peer),
                    to_client,
                    from_client,
                    service,
                    content: clone_bytes(&content),
                };
                let ghost before = self.clients@;
                self.clients[i].1.outbox.push(m);
                proof {
                    assert forall|j: int| 0 <= j < a.len() && j != i implies obx(
                        self.clients@,
                        j,
                    ) == obx(before, j) by {
                        assert(self.clients@[j] == before[j]);
                    }
                    assert(obx(self.clients@, i as int) =~= obx(before, i as int).push(
                        msg_inbound(from_peer@, to_client, from_client, service, content@),
                    ));
                }
            }
            i = i + 1;
        }
    }

    /// Register client `id` with `services` and reply with its id; every
    /// other subscribed client learns of the change.  A register from an id
    /// that is not connected changes nothing.
    pub fn handle_client_register(&mut self, id: u16, services: IdSet)
        requires
            old(self).wf(),
            services.wf(),
        ensures
            final(self).wf(),
            final(self).peers == old(self).peers,
            final(self).name == old(self).name,
            final(self).local_peer_id == old(self).local_peer_id,
            final(self).next_client_id == old(self).next_client_id,
            !has_client(old(self).clients@, id) ==> final(self).clients == old(self).clients,
            has_client(old(self).clients@, id) ==> exists|i: int|
                effect_register(old(self).clients@, final(self).clients@, i, id, services@),
    {
        match self.find_client(id) {
            None => {
            },
            Some(i) => {
                let ghost a = self.clients@;
                let services_for_event = clone_idset(&services);
                self.clients[i].1.services = services;
                self.clients[i].1.registered = true;
                let ghost mid = self.clients@;
                proof {
                    assert(same_shape(mid, mid));
                    assert(cs_wf(mid)) by {
                        assert forall|p: int| 0 <= p < mid.len() implies (#[trigger] mid[p]).0 != 0
                            && mid[p].0 != crate::ALL_CLIENTS && mid[p].1.services.wf() by {
                            if p != i {
                                assert(mid[p] == a[p]);
                            }
                        }
                    }
                }
                let ev = Event::ClientUpdate(true, id, services_for_event);
                self.push_directory_event(&ev, Some(id));
                let ghost mid2 = self.clients@;
                self.clients[i].1.outbox.push(Message::RegisterOk { client_id: id });
                proof {
                    assert forall|j: int| 0 <= j < a.len() && j != i implies obx(
                        self.clients@,
                        j,
                    ) == obx(mid2, j) by {
                        assert(self.clients@[j] == mid2[j]);
                    }
                    assert(obx(self.clients@, i as int) =~= obx(mid2, i as int).push(
                        MessageV::RegisterOk { client_id: id },
                    ));
                    assert forall|j: int| 0 <= j < a.len() && j != i implies obx(mid2, j)
                        == if subscribed(a[j].1) {
                        obx(a, j).push(msg_client_update(a[j].0, true, id, services@))
                    } else {
                        obx(a, j)
                    } by {
                        assert(obx(mid, j) == obx(a, j));
                        assert(subscribed(mid[j].1) == subscribed(a[j].1));
                        assert(mid[j].0 == a[j].0);
                        if mid[j].0 == id {
                            assert(j < i || i < j);
                            assert(a[j].0 != a[i as int].0);
                        }
                    }
                    assert(obx(mid2, i as int) == obx(mid, i as int));
                    assert(obx(mid, i as int) == obx(a, i as int));
                    assert(effect_register(a, self.clients@, i as int, id, services_for_event@));
                }
            },
        }
    }

    /// The reply owed to a get request: name, peers, or an error text.
    pub fn handle_client_get(&self, client_id: u16, request_id: u32, content: GetSet) -> (r:
        Message)
        ensures
            r@ == get_reply(
                self.name@,
                self.peers@.map_values(|p: PeerInfo| p@),
                client_id,
                request_id,
                content@,
            ),
    {
        let reply_content = match content {
            GetSet::Name(_) => GetSet::Name(clone_bytes(&self.name)),
            GetSet::Peers(_) => GetSet::Peers(clone_peer_list(&self.peers)),
            _ => GetSet::Error(unknown_get_text()),
        };
        proof {
            match content@ {
                GetSetV::Peers(_) => {
                    assert(reply_content@ == GetSetV::Peers(
                        self.peers@.map_values(|p: PeerInfo| p@),
                    )) by {
                        assert(crate::message::peers_view(self.peers@) =~= self.peers@.map_values(
                            |p: PeerInfo| p@,
                        ));
                    }
                },
                _ => {},
            }
        }
        Message::Get { client_id, request_id, content: reply_content }
    }

    /// Apply a set request: record a new name, or hand the connect address
    /// or services tag on to the overlay; reply accordingly.
    pub fn handle_client_set(&mut self, client_id: u16, request_id: u32, content: GetSet) -> (r: (
        Message,
        Option<swarm::Event>,
    ))
        requires
            old(self).wf(),
        ensures
            final(self).wf(),
            final(self).clients == old(self).clients,
            final(self).peers == old(self).peers,
            final(self).local_peer_id == old(self).local_peer_id,
            final(self).next_client_id == old(self).next_client_id,
            r.0@ == set_reply(client_id, request_id, content@),
            match (r.1, set_command(content@)) {
                (Some(ev), Some(cv)) => ev@ == cv,
                (None, None) => true,
                _ => false,
            },
            final(self).name@ == match content@ {
                GetSetV::Name(n) => n,
                _ => old(self).name@,
            },
    {
        match content {
            GetSet::Name(n) => {
                self.name = clone_bytes(&n);
                (
                    Message::Put { client_id, request_id, content: GetSet::Okay },
                    Some(swarm::Event::SetName(n)),
                )
            },
            GetSet::Connect(a) => {
                (
                    Message::Put { client_id, request_id, content: GetSet::Okay },
                    Some(swarm::Event::ConnectAddress(a)),
                )
            },
            GetSet::ServicesTag(t) => {
                (
                    Message::Put { client_id, request_id, content: GetSet::Okay },
                    Some(swarm::Event::SetServicesTag(t)),
                )
            },
            _ => {
                (
                    Message::Put {
                        client_id,
                        request_id,
                        content: GetSet::Error(unknown_set_text()),
                    },
                    None,
                )
            },
        }
    }

    /// Forward a local message: short-circuit to the local router when the
    /// destination peer is empty or this very peer, else issue one overlay
    /// send with the envelope unchanged.
    pub fn handle_client_message(
        &mut self,
        to_peer: Vec<u8>,
        to_client: u16,
        from_client: u16,
        service: u16,
        content: Vec<u8>,
    ) -> (r: Option<swarm::Event>)
        requires
            old(self).wf(),
        ensures
            final(self).wf(),
            final(self).peers == old(self).peers,
            final(self).name == old(self).name,
            final(self).local_peer_id == old(self).local_peer_id,
            final(self).next_client_id == old(self).next_client_id,
            if to_peer@ == Seq::<u8>::empty() || to_peer@ == old(self).local_peer_id@ {
                r is None && effect_route(
                    old(self).clients@,
                    final(self).clients@,
                    old(self).local_peer_id@,
                    to_client,
                    from_client,
                    service,
                    content@,
                )
            } else {
                final(self).clients == old(self).clients && match r {
                    Some(ev) => ev@ == swarm::EventV::SendMessage(
                        to_peer@,
                        to_client,
                        from_client,
                        service,
                        content@,
                    ),
                    None => false,
                }
            },
    {
        let local = to_peer.len() == 0 || bytes_eq(&to_peer, &self.local_peer_id);
        proof {
            if to_peer@.len() == 0 {
                assert(to_peer@ =~= Seq::<u8>::empty());
            }
        }
        if local {
            let fp = clone_bytes(&self.local_peer_id);
            self.handle_swarm_message(fp, from_client, to_client, service, content);
            None
        } else {
            Some(swarm::Event::SendMessage(to_peer, to_client, from_client, service, content))
        }
    }

    /// Forward an event message to its destination client, dropping events
    /// addressed to the daemon itself or to unknown clients.
    pub fn handle_client_event_msg(&mut self, to_client: u16, from_client: u16, event: Event)
        requires
            old(self).wf(),
        ensures
            final(self).wf(),
            final(self).peers == old(self).peers,
            final(self).name == old(self).name,
            final(self).local_peer_id == old(self).local_peer_id,
            final(self).next_client_id == old(self).next_client_id,
            to_client == 0 || !has_client(old(self).clients@, to_client) ==> final(self).clients
                == old(self).clients,
            to_client != 0 && has_client(old(self).clients@, to_client) ==> exists|i: int|
                0 <= i < old(self).clients@.len() && (#[trigger] old(self).clients@[i]).0
                    == to_client && effect_push_one(
                    old(self).clients@,
                    final(self).clients@,
                    i,
                    MessageV::Event { to_client, from_client, event: event@ },
                ),
    {
        if to_client == 0 {
            return ;
        }
        match self.find_client(to_client) {
            None => {
            },
            Some(i) => {
                let ghost a = self.clients@;
                let m = Message::Event { to_client, from_client, event };
                self.clients[i].1.outbox.push(m);
                proof {
                    assert forall|j: int| 0 <= j < a.len() && j != i implies obx(
                        self.clients@,
                        j,
                    ) == obx(a, j) by {
                        assert(self.clients@[j] == a[j]);
                    }
                    assert(obx(self.clients@, i as int) =~= obx(a, i as int).push(
                        MessageV::Event { to_client, from_client, event: event@ },
                    ));
                }
            },
        }
    }
}

/// Queued messages are never dropped or reordered: a directory fan-out
/// extends each client's outbox and keeps what was queued as a prefix, so
/// messages go out in the order they were queued.
pub proof fn lemma_dir_event_keeps_queue_order(
    a: Seq<(u16, ClientInfo)>,
    b: Seq<(u16, ClientInfo)>,
    ev: EventV,
    except: Option<u16>,
    j: int,
)
    requires
        effect_dir_event(a, b, ev, except),
        0 <= j < a.len(),
    ensures
        obx(b, j).len() >= obx(a, j).len(),
        obx(b, j).subrange(0, obx(a, j).len() as int) == obx(a, j),
{
    if subscribed(a[j].1) && (except is None || a[j].0 != except->0) {
        assert(obx(b, j).subrange(0, obx(a, j).len() as int) =~= obx(a, j));
    } else {
        assert(obx(b, j).subrange(0, obx(a, j).len() as int) =~= obx(a, j));
    }
}

/// Routing an inbound message extends each outbox and keeps what was queued
/// as a prefix.
pub proof fn lemma_route_keeps_queue_order(
    a: Seq<(u16, ClientInfo)>,
    b: Seq<(u16, ClientInfo)>,
    from_peer: Seq<u8>,
    to_client: u16,
    from_client: u16,
    service: u16,
    content: Seq<u8>,
    j: int,
)
    requires
        effect_route(a, b, from_peer, to_client, from_client, service, content),
        0 <= j < a.len(),
    ensures
        obx(b, j).len() >= obx(a, j).len(),
        obx(b, j).subrange(0, obx(a, j).len() as int) == obx(a, j),
{
    if delivers(a[j], to_client, service) {
        assert(obx(b, j).subrange(0, obx(a, j).len() as int) =~= obx(a, j));
    } else {
        assert(obx(b, j).subrange(0, obx(a, j).len() as int) =~= obx(a, j));
    }
}

/// A reply pushed to one client extends that outbox and keeps every queue's
/// contents as a prefix.
pub proof fn lemma_push_one_keeps_queue_order(
    a: Seq<(u16, ClientInfo)>,
    b: Seq<(u16, ClientInfo)>,
    i: int,
    m: MessageV,
    j: int,
)
    requires
        effect_push_one(a, b, i, m),
        0 <= j < a.len(),
    ensures
        obx(b, j).len() >= obx(a, j).len(),
        obx(b, j).subrange(0, obx(a, j).len() as int) == obx(a, j),
{
    if j == i {
        assert(obx(b, j).subrange(0, obx(a, j).len() as int) =~= obx(a, j));
    } else {
        assert(obx(b, j).subrange(0, obx(a, j).len() as int) =~= obx(a, j));
    }
}

impl Router {
    /// Append `m` to the outbox of the client at index `i`.
    fn push_to_client(&mut self, i: usize, m: Message)
        requires
            old(self).wf(),
            i < old(self).clients@.len(),
        ensures
            final(self).wf(),
            effect_push_one(old(self).clients@, final(self).clients@, i as int, m@),
            final(self).peers == old(self).peers,
            final(self).name == old(self).name,
            final(self).local_peer_id == old(self).local_peer_id,
            final(self).next_client_id == old(self).next_client_id,
    {
        let ghost a = self.clients@;
        let ghost mv = m@;
        self.clients[i].1.outbox.push(m);
        proof {
            assert forall|j: int| 0 <= j < a.len() && j != i implies obx(self.clients@, j) == obx(
                a,
                j,
            ) by {
                assert(self.clients@[j] == a[j]);
            }
            assert(obx(self.clients@, i as int) =~= obx(a, i as int).push(mv));
        }
    }

    /// Handle one message received from the connected client `id`: dispatch
    /// on the variant, queue the owed reply on the client's own outbox, and
    /// return the overlay command to perform, if any.  Messages from unknown
    /// clients, and all but `Register` from clients that have not yet
    /// registered, are dropped.
    pub fn handle_client_event(&mut self, id: u16, msg: Message) -> (r: Option<swarm::Event>)
        requires
            old(self).wf(),
            crate::message::wf_message(msg@),
        ensures
            final(self).wf(),
            final(self).local_peer_id == old(self).local_peer_id,
            final(self).next_client_id == old(self).next_client_id,
            !has_client(old(self).clients@, id) ==> final(self).clients == old(self).clients
                && final(self).peers == old(self).peers && final(self).name == old(self).name
                && r is None,
            has_client(old(self).clients@, id) ==> exists|i: int|
                {
                    &&& 0 <= i < old(self).clients@.len()
                    &&& (#[trigger] old(self).clients@[i]).0 == id
                    &&& {
                        let reg = old(self).clients@[i].1.registered;
                        match msg@ {
                            MessageV::Okay => final(self).peers == old(self).peers && final(self).name == old(self).name && r is None && if reg {
                                effect_push_one(
                                    old(self).clients@,
                                    final(self).clients@,
                                    i,
                                    MessageV::Okay,
                                )
                            } else {
                                final(self).clients == old(self).clients
                            },
                            MessageV::Error { .. } => final(self).clients == old(self).clients
                                && final(self).peers == old(self).peers && final(self).name == old(self).name && r is None,
                            MessageV::RegisterOk { .. } => final(self).clients == old(self).clients
                                && final(self).peers == old(self).peers && final(self).name == old(self).name && r is None,
                            MessageV::Register { services } => final(self).peers == old(self).peers
                                && final(self).name == old(self).name && r is None
                                && effect_register(
                                old(self).clients@,
                                final(self).clients@,
                                i,
                                id,
                                services,
                            ),
                            MessageV::Get { client_id, request_id, content } => final(self).peers
                                == old(self).peers && final(self).name == old(self).name
                                && r is None && if reg {
                                effect_push_one(
                                    old(self).clients@,
                                    final(self).clients@,
                                    i,
                                    get_reply(
                                        old(self).name@,
                                        old(self).peers@.map_values(|p: PeerInfo| p@),
                                        client_id,
                                        request_id,
                                        content,
                                    ),
                                )
                            } else {
                                final(self).clients == old(self).clients
                            },
                            MessageV::Put { client_id, request_id, content } => final(self).peers
                                == old(self).peers && if reg {
                                &&& effect_push_one(
                                    old(self).clients@,
                                    final(self).clients@,
                                    i,
                                    set_reply(client_id, request_id, content),
                                )
                                &&& final(self).name@ == (match content {
                                    GetSetV::Name(n) => n,
                                    _ => old(self).name@,
                                })
                                &&& (match (r, set_command(content)) {
                                    (Some(ev), Some(cv)) => ev@ == cv,
                                    (None, None) => true,
                                    _ => false,
                                })
                            } else {
                                final(self).clients == old(self).clients && final(self).name == old(self).name && r is None
                            },
                            MessageV::Message {
                                to_peer,
                                from_peer: _,
                                to_client,
                                from_client,
                                service,
                                content,
                            } => final(self).peers == old(self).peers && final(self).name == old(self).name && if reg {
                                if to_peer == Seq::<u8>::empty() || to_peer == old(self).local_peer_id@ {
                                    r is None && exists|mid: Seq<(u16, ClientInfo)>|
                                        effect_route(
                                            old(self).clients@,
                                            mid,
                                            old(self).local_peer_id@,
                                            to_client,
                                            from_client,
                                            service,
                                            content,
                                        ) && effect_push_one(
                                            mid,
                                            final(self).clients@,
                                            i,
                                            MessageV::Okay,
                                        )
                                } else {
                                    effect_push_one(
                                        old(self).clients@,
                                        final(self).clients@,
                                        i,
                                        MessageV::Okay,
                                    ) && match r {
                                        Some(ev) => ev@ == swarm::EventV::SendMessage(
                                            to_peer,
                                            to_client,
                                            from_client,
                                            service,
                                            content,
                                        ),
                                        None => false,
                                    }
                                }
                            } else {
                                final(self).clients == old(self).clients && r is None
                            },
                            MessageV::Event { to_client, from_client, event } => final(self).peers
                                == old(self).peers && final(self).name == old(self).name
                                && r is None && if reg {
                                if to_client == 0 || !has_client(old(self).clients@, to_client) {
                                    final(self).clients == old(self).clients
                                } else {
                                    exists|k: int|
                                        0 <= k < old(self).clients@.len() && (#[trigger] old(self).clients@[k]).0 == to_client && effect_push_one(
                                            old(self).clients@,
                                            final(self).clients@,
                                            k,
                                            MessageV::Event { to_client, from_client, event },
                                        )
                                }
                            } else {
                                final(self).clients == old(self).clients
                            },
                        }
                    }
                },
    {
        let idx = match self.find_client(id) {
            None => {
                return None;
            },
            Some(i) => i,
        };
        let registered = self.clients[idx].1.registered;
        match msg {
            Message::Okay => {
                if registered {
                    self.push_to_client(idx, Message::Okay);
                }
                None
            },
            Message::Error { message: _ } => None,
            Message::RegisterOk { .. } => None,
            Message::Register { services } => {
                self.handle_client_register(id, services);
                proof {
                    let w = choose|w: int|
                        effect_register(old(self).clients@, self.clients@, w, id, services@);
                    assert(old(self).clients@[w].0 == id);
                }
                None
            },
            Message::Get { client_id, request_id, content } => {
                if registered {
                    let reply = self.handle_client_get(client_id, request_id, content);
                    self.push_to_client(idx, reply);
                }
                None
            },
            Message::Put { client_id, request_id, content } => {
                if registered {
                    let (reply, cmd) = self.handle_client_set(client_id, request_id, content);
                    self.push_to_client(idx, reply);
                    cmd
                } else {
                    None
                }
            },
            Message::Message { to_peer, from_peer: _, to_client, from_client, service, content } => {
                if registered {
                    let ghost a = self.clients@;
                    let cmd = self.handle_client_message(
                        to_peer,
                        to_client,
                        from_client,
                        service,
                        content,
                    );
                    let ghost mid = self.clients@;
                    self.push_to_client(idx, Message::Okay);
                    proof {
                        if cmd is None {
                            assert(effect_route(
                                a,
                                mid,
                                old(self).local_peer_id@,
                                to_client,
                                from_client,
                                service,
                                content@,
                            ));
                        }
                    }
                    cmd
                } else {
                    None
                }
            },
            Message::Event { to_client, from_client, event } => {
                if registered {
                    self.handle_client_event_msg(to_client, from_client, event);
                }
                None
            },
        }
    }
}

} // verus!
