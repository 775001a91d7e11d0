//! The service directory: tag churn, peer resync and the update fan-out.

use hi::idset::IdSet;
use hi::message::{Event, GetSet, Message, PeerInfo, Service};
use hi::service::{decode_service_message, ServiceClient, ServiceMessage};

fn ids(v: &[u16]) -> IdSet {
    let mut s = IdSet::new();
    for x in v {
        s.insert(*x);
    }
    s
}

fn peer(id: &[u8], tag: u32) -> PeerInfo {
    PeerInfo { peer_id: id.to_vec(), name: b"n".to_vec(), services_tag: tag, last_update: 0 }
}

#[test]
fn services_tag_churn() {
    // adding a service gives a non-zero tag; removing it brings the tag to 0
    let mut c = ServiceClient::new();
    c.handle_event(Event::ClientUpdate(true, 5, ids(&[7])), 99);
    assert_eq!(c.local.services_tag, 99);
    match c.outbox.last().unwrap() {
        Message::Put { content: GetSet::ServicesTag(t), .. } => assert_eq!(*t, 99),
        other => panic!("wrong message: {:?}", other),
    }
    c.handle_event(Event::ClientUpdate(true, 5, IdSet::new()), 77);
    assert_eq!(c.local.services_tag, 0);
    assert!(c.local.services.is_empty());
    match c.outbox.last().unwrap() {
        Message::Put { content: GetSet::ServicesTag(t), .. } => assert_eq!(*t, 0),
        other => panic!("wrong message: {:?}", other),
    }
}

#[test]
fn zero_random_tag_is_replaced() {
    // the advertised tag is never zero while a service is offered
    let mut c = ServiceClient::new();
    c.handle_event(Event::ClientUpdate(true, 5, ids(&[7])), 0);
    assert_eq!(c.local.services_tag, 1);
}

#[test]
fn remove_event_clears_entry() {
    let mut c = ServiceClient::new();
    c.handle_event(Event::ClientUpdate(true, 5, ids(&[7])), 9);
    c.handle_event(Event::ClientUpdate(false, 5, ids(&[7])), 9);
    assert!(c.local.services.is_empty());
    assert_eq!(c.local.services_tag, 0);
}

#[test]
fn new_peer_triggers_service_request() {
    let mut c = ServiceClient::new();
    c.handle_event(Event::PeerUpdate(peer(b"P1", 42)), 1);
    assert_eq!(c.peers.len(), 1);
    let m = c.outbox.last().unwrap();
    match m {
        Message::Message { to_peer, to_client, service, content, .. } => {
            assert_eq!(to_peer, &b"P1".to_vec());
            assert_eq!(*to_client, 0xffff);
            assert_eq!(*service, Service::Service.id());
            assert_eq!(decode_service_message(content), Some(ServiceMessage::ServiceRequest));
        },
        other => panic!("wrong message: {:?}", other),
    }
}

#[test]
fn unchanged_tag_triggers_no_request() {
    let mut c = ServiceClient::new();
    c.handle_event(Event::PeerUpdate(peer(b"P1", 42)), 1);
    // the reply fixes the stored tag, then the same announcement is quiet
    c.handle_message(b"P1".to_vec(), 1, {
        let reply = ServiceMessage::ServiceReply { services_tag: 42, services: vec![] };
        hi::service::encode_service_message(&reply)
    });
    let n = c.outbox.len();
    c.handle_event(Event::PeerUpdate(peer(b"P1", 42)), 1);
    assert_eq!(c.outbox.len(), n);
    c.handle_event(Event::PeerUpdate(peer(b"P1", 43)), 1);
    assert_eq!(c.outbox.len(), n + 1);
}

#[test]
fn service_request_is_answered_with_snapshot() {
    let mut c = ServiceClient::new();
    c.handle_event(Event::ClientUpdate(true, 5, ids(&[7])), 9);
    let n = c.outbox.len();
    let req = hi::service::encode_service_message(&ServiceMessage::ServiceRequest);
    c.handle_message(b"P1".to_vec(), 3, req);
    assert_eq!(c.outbox.len(), n + 1);
    match c.outbox.last().unwrap() {
        Message::Message { to_peer, to_client, content, .. } => {
            assert_eq!(to_peer, &b"P1".to_vec());
            assert_eq!(*to_client, 3);
            match decode_service_message(content) {
                Some(ServiceMessage::ServiceReply { services_tag, services }) => {
                    assert_eq!(services_tag, 9);
                    assert_eq!(services.len(), 1);
                    assert_eq!(services[0].0, 5);
                    assert_eq!(services[0].1.items, vec![7]);
                },
                other => panic!("wrong body: {:?}", other),
            }
        },
        other => panic!("wrong message: {:?}", other),
    }
}

#[test]
fn service_reply_fans_out_updates() {
    // local client 5 offers 7; peer P1 reports client 9 offering 7
    let mut c = ServiceClient::new();
    c.handle_daemon_message(Message::RegisterOk { client_id: 1 }, 0);
    assert_eq!(c.client_id, 1);
    c.handle_event(Event::ClientUpdate(true, 5, ids(&[7])), 9);
    c.handle_event(Event::PeerUpdate(peer(b"P1", 42)), 1);
    let reply = ServiceMessage::ServiceReply { services_tag: 42, services: vec![(9, ids(&[7]))] };
    c.handle_message(b"P1".to_vec(), 1, hi::service::encode_service_message(&reply));
    match c.outbox.last().unwrap() {
        Message::Event { to_client, from_client, event: Event::ServiceUpdate(s, map) } => {
            assert_eq!(*to_client, 5);
            assert_eq!(*from_client, 1);
            assert_eq!(*s, 7);
            assert_eq!(map.len(), 1);
            assert_eq!(map[0].0, b"P1".to_vec());
            assert_eq!(map[0].1.items, vec![9]);
        },
        other => panic!("wrong message: {:?}", other),
    }
}

#[test]
fn register_message_names_directory_service() {
    let mut c = ServiceClient::new();
    c.register_client();
    match c.outbox.last().unwrap() {
        Message::Register { services } => {
            assert_eq!(services.items, vec![Service::Service.id()])
        },
        other => panic!("wrong message: {:?}", other),
    }
}

#[test]
fn request_ids_advance() {
    let mut c = ServiceClient::new();
    assert_eq!(c.get_request_id(), 1);
    assert_eq!(c.get_request_id(), 2);
    c.request_id = u32::MAX;
    assert_eq!(c.get_request_id(), 0);
}

#[test]
fn refreshed_tag_respects_emptiness() {
    let mut c = ServiceClient::new();
    c.refresh_services_tag();
    assert_eq!(c.local.services_tag, 0);
    c.handle_event(Event::ClientUpdate(true, 5, ids(&[7])), 9);
    c.refresh_services_tag();
    assert_ne!(c.local.services_tag, 0);
}
