//! The daemon router: registration, routing, events and the peer reaper.

use hi::idset::IdSet;
use hi::message::{Event, GetSet, Message, Service};
use hi::router::Router;
use hi::swarm;

fn ids(v: &[u16]) -> IdSet {
    let mut s = IdSet::new();
    for x in v {
        s.insert(*x);
    }
    s
}

fn outbox_of(r: &Router, id: u16) -> Vec<Message> {
    for (cid, info) in r.clients.iter() {
        if *cid == id {
            return info.outbox.iter().map(clone_msg).collect();
        }
    }
    panic!("no client {}", id);
}

fn clone_msg(m: &Message) -> Message {
    m.clone()
}

#[test]
fn register_and_get_name() {
    // register with no services, then read the daemon's name
    let mut r = Router::new(b"host".to_vec(), b"LOCAL".to_vec());
    let id = r.accept_client().unwrap();
    assert_eq!(id, 1);
    let cmd = r.handle_client_event(1, Message::Register { services: IdSet::new() });
    assert!(cmd.is_none());
    assert_eq!(outbox_of(&r, 1), vec![Message::RegisterOk { client_id: 1 }]);
    r.handle_client_event(
        1,
        Message::Get { client_id: 1, request_id: 0, content: GetSet::Name(b"".to_vec()) },
    );
    let out = outbox_of(&r, 1);
    assert_eq!(out.len(), 2);
    assert_eq!(
        out[1],
        Message::Get { client_id: 1, request_id: 0, content: GetSet::Name(b"host".to_vec()) }
    );
}

#[test]
fn get_unknown_option_is_error() {
    let mut r = Router::new(b"host".to_vec(), b"LOCAL".to_vec());
    r.accept_client().unwrap();
    r.handle_client_event(1, Message::Register { services: IdSet::new() });
    r.handle_client_event(
        1,
        Message::Get { client_id: 1, request_id: 0, content: GetSet::Okay },
    );
    let out = outbox_of(&r, 1);
    match &out[1] {
        Message::Get { content: GetSet::Error(e), .. } => {
            assert_eq!(e, &b"Unknown get request".to_vec())
        },
        other => panic!("wrong reply: {:?}", other),
    }
}

#[test]
fn set_name_issues_overlay_command() {
    let mut r = Router::new(b"host".to_vec(), b"LOCAL".to_vec());
    r.accept_client().unwrap();
    r.handle_client_event(1, Message::Register { services: IdSet::new() });
    let cmd = r.handle_client_event(
        1,
        Message::Put { client_id: 1, request_id: 5, content: GetSet::Name(b"new".to_vec()) },
    );
    assert_eq!(cmd, Some(swarm::Event::SetName(b"new".to_vec())));
    assert_eq!(r.name, b"new".to_vec());
    let out = outbox_of(&r, 1);
    assert_eq!(
        out[1],
        Message::Put { client_id: 1, request_id: 5, content: GetSet::Okay }
    );
}

#[test]
fn set_unknown_option_is_error() {
    let mut r = Router::new(b"host".to_vec(), b"LOCAL".to_vec());
    r.accept_client().unwrap();
    r.handle_client_event(1, Message::Register { services: IdSet::new() });
    let cmd = r.handle_client_event(
        1,
        Message::Put { client_id: 1, request_id: 5, content: GetSet::Okay },
    );
    assert!(cmd.is_none());
    match &outbox_of(&r, 1)[1] {
        Message::Put { content: GetSet::Error(e), .. } => {
            assert_eq!(e, &b"Unknown set request".to_vec())
        },
        other => panic!("wrong reply: {:?}", other),
    }
}

#[test]
fn broadcast_fan_out() {
    // A and B registered service 7, C registered 8: only A and B receive
    let mut r = Router::new(b"host".to_vec(), b"LOCAL".to_vec());
    for services in [ids(&[7]), ids(&[7]), ids(&[8])] {
        let id = r.accept_client().unwrap();
        r.handle_client_event(id, Message::Register { services });
    }
    r.handle_swarm_message(b"P2".to_vec(), 4, 0xffff, 7, vec![0x01, 0x02]);
    let expect = Message::Message {
        to_peer: b"".to_vec(),
        from_peer: b"P2".to_vec(),
        to_client: 0xffff,
        from_client: 4,
        service: 7,
        content: vec![0x01, 0x02],
    };
    assert_eq!(outbox_of(&r, 1).len(), 2);
    assert_eq!(outbox_of(&r, 1)[1], expect);
    assert_eq!(outbox_of(&r, 2).len(), 2);
    assert_eq!(outbox_of(&r, 2)[1], expect);
    assert_eq!(outbox_of(&r, 3).len(), 1); // only its registration reply
}

#[test]
fn directed_message_reaches_one_client() {
    let mut r = Router::new(b"host".to_vec(), b"LOCAL".to_vec());
    for services in [ids(&[7]), ids(&[7])] {
        let id = r.accept_client().unwrap();
        r.handle_client_event(id, Message::Register { services });
    }
    r.handle_swarm_message(b"P2".to_vec(), 4, 2, 7, vec![9]);
    assert_eq!(outbox_of(&r, 1).len(), 1);
    assert_eq!(outbox_of(&r, 2).len(), 2);
}

#[test]
fn message_for_wrong_service_dropped() {
    let mut r = Router::new(b"host".to_vec(), b"LOCAL".to_vec());
    let id = r.accept_client().unwrap();
    r.handle_client_event(id, Message::Register { services: ids(&[7]) });
    r.handle_swarm_message(b"P2".to_vec(), 4, 1, 8, vec![9]);
    assert_eq!(outbox_of(&r, 1).len(), 1);
}

#[test]
fn local_short_circuit() {
    // a message to the empty peer is routed locally, not sent to the overlay
    let mut r = Router::new(b"host".to_vec(), b"LOCAL".to_vec());
    for services in [ids(&[7]), ids(&[7])] {
        let id = r.accept_client().unwrap();
        r.handle_client_event(id, Message::Register { services });
    }
    let cmd = r.handle_client_event(
        1,
        Message::Message {
            to_peer: b"".to_vec(),
            from_peer: b"".to_vec(),
            to_client: 2,
            from_client: 1,
            service: 7,
            content: vec![5],
        },
    );
    assert!(cmd.is_none());
    let out2 = outbox_of(&r, 2);
    assert_eq!(out2.len(), 2);
    match &out2[1] {
        Message::Message { from_peer, content, .. } => {
            assert_eq!(from_peer, &b"LOCAL".to_vec());
            assert_eq!(content, &vec![5]);
        },
        other => panic!("wrong frame: {:?}", other),
    }
}

#[test]
fn remote_message_issues_send_command() {
    let mut r = Router::new(b"host".to_vec(), b"LOCAL".to_vec());
    let id = r.accept_client().unwrap();
    r.handle_client_event(id, Message::Register { services: ids(&[7]) });
    let cmd = r.handle_client_event(
        1,
        Message::Message {
            to_peer: b"P9".to_vec(),
            from_peer: b"".to_vec(),
            to_client: 3,
            from_client: 1,
            service: 7,
            content: vec![5],
        },
    );
    assert_eq!(
        cmd,
        Some(swarm::Event::SendMessage(b"P9".to_vec(), 3, 1, 7, vec![5]))
    );
}

#[test]
fn unregistered_client_messages_dropped() {
    let mut r = Router::new(b"host".to_vec(), b"LOCAL".to_vec());
    r.accept_client().unwrap();
    let cmd = r.handle_client_event(
        1,
        Message::Get { client_id: 1, request_id: 0, content: GetSet::Name(b"".to_vec()) },
    );
    assert!(cmd.is_none());
    assert_eq!(outbox_of(&r, 1).len(), 0);
}

#[test]
fn announce_updates_peer_and_notifies_directory() {
    let mut r = Router::new(b"host".to_vec(), b"LOCAL".to_vec());
    let id = r.accept_client().unwrap();
    r.handle_client_event(id, Message::Register { services: ids(&[Service::Service.id()]) });
    r.handle_swarm_announce_peer(b"P1".to_vec(), b"alice".to_vec(), 42, 1000);
    assert_eq!(r.peers.len(), 1);
    assert_eq!(r.peers[0].peer_id, b"P1".to_vec());
    assert_eq!(r.peers[0].services_tag, 42);
    assert_eq!(r.peers[0].last_update, 1000);
    let out = outbox_of(&r, 1);
    match out.last().unwrap() {
        Message::Event { event: Event::PeerUpdate(p), .. } => {
            assert_eq!(p.peer_id, b"P1".to_vec());
            assert_eq!(p.name, b"alice".to_vec());
        },
        other => panic!("wrong event: {:?}", other),
    }
}

#[test]
fn peer_reaper_drops_stale_entry_and_notifies() {
    // a peer announced at 1000 is gone after 31 seconds of silence
    let mut r = Router::new(b"host".to_vec(), b"LOCAL".to_vec());
    let id = r.accept_client().unwrap();
    r.handle_client_event(id, Message::Register { services: ids(&[Service::Service.id()]) });
    r.handle_swarm_announce_peer(b"P1".to_vec(), b"alice".to_vec(), 42, 1000);
    let before = outbox_of(&r, 1).len();
    r.handle_timer(1030);
    assert_eq!(r.peers.len(), 1); // exactly 30 s: not yet expired
    r.handle_timer(1031);
    assert_eq!(r.peers.len(), 0);
    let out = outbox_of(&r, 1);
    assert_eq!(out.len(), before + 1);
    match out.last().unwrap() {
        Message::Event { event: Event::PeerUpdate(p), .. } => {
            assert_eq!(p.peer_id, b"P1".to_vec())
        },
        other => panic!("wrong event: {:?}", other),
    }
}

#[test]
fn remove_client_notifies_directory() {
    let mut r = Router::new(b"host".to_vec(), b"LOCAL".to_vec());
    let a = r.accept_client().unwrap();
    let b = r.accept_client().unwrap();
    r.handle_client_event(a, Message::Register { services: ids(&[Service::Service.id()]) });
    r.handle_client_event(b, Message::Register { services: ids(&[7]) });
    r.remove_client(b);
    assert_eq!(r.clients.len(), 1);
    let out = outbox_of(&r, a);
    match out.last().unwrap() {
        Message::Event { event: Event::ClientUpdate(add, id, services), .. } => {
            assert!(!add);
            assert_eq!(*id, b);
            assert!(services.items.is_empty());
        },
        other => panic!("wrong event: {:?}", other),
    }
}

#[test]
fn client_ids_allocate_sequentially_and_recycle() {
    let mut r = Router::new(b"host".to_vec(), b"LOCAL".to_vec());
    assert_eq!(r.accept_client(), Some(1));
    assert_eq!(r.accept_client(), Some(2));
    assert_eq!(r.accept_client(), Some(3));
    r.remove_client(2);
    // the next id probes forward from 4; 2 is reused only after wrap
    assert_eq!(r.accept_client(), Some(4));
}

#[test]
fn event_forwarding() {
    let mut r = Router::new(b"host".to_vec(), b"LOCAL".to_vec());
    let a = r.accept_client().unwrap();
    let b = r.accept_client().unwrap();
    r.handle_client_event(a, Message::Register { services: IdSet::new() });
    r.handle_client_event(b, Message::Register { services: IdSet::new() });
    // an event addressed to the daemon itself is dropped
    r.handle_client_event(
        a,
        Message::Event {
            to_client: 0,
            from_client: a,
            event: Event::ClientUpdate(true, 9, IdSet::new()),
        },
    );
    assert_eq!(outbox_of(&r, b).len(), 1);
    // an event addressed to b is forwarded verbatim
    r.handle_client_event(
        a,
        Message::Event {
            to_client: b,
            from_client: a,
            event: Event::ClientUpdate(true, 9, IdSet::new()),
        },
    );
    let out = outbox_of(&r, b);
    assert_eq!(out.len(), 2);
    match out.last().unwrap() {
        Message::Event { to_client, from_client, .. } => {
            assert_eq!((*to_client, *from_client), (b, a))
        },
        other => panic!("wrong event: {:?}", other),
    }
}
