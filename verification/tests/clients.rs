//! The chat, get and set clients.

use hi::chat::{decode_chat_message, ChatClient};
use hi::get_client::GetClient;
use hi::idset::IdSet;
use hi::message::{Event, GetSet, Message, Service};
use hi::set_client::SetClient;

fn ids(v: &[u16]) -> IdSet {
    let mut s = IdSet::new();
    for x in v {
        s.insert(*x);
    }
    s
}

#[test]
fn chat_line_broadcast_fans_out() {
    let mut c = ChatClient::new(b"alice".to_vec(), b"all".to_vec());
    c.handle_message(Message::RegisterOk { client_id: 3 });
    assert_eq!(c.client_id, 3);
    c.handle_message(Message::Event {
        to_client: 3,
        from_client: 1,
        event: Event::ServiceUpdate(
            Service::Chat.id(),
            vec![(b"P1".to_vec(), ids(&[4, 5])), (b"P2".to_vec(), ids(&[9]))],
        ),
    });
    c.handle_line(b"hello".to_vec());
    assert_eq!(c.outbox.len(), 3);
    let mut seen = Vec::new();
    for m in c.outbox.iter() {
        match m {
            Message::Message { to_peer, to_client, from_client, service, content, .. } => {
                assert_eq!(*from_client, 3);
                assert_eq!(*service, Service::Chat.id());
                let cm = decode_chat_message(content).unwrap();
                assert_eq!(cm.from, b"alice".to_vec());
                assert_eq!(cm.message, b"hello".to_vec());
                seen.push((to_peer.clone(), *to_client));
            },
            other => panic!("wrong message: {:?}", other),
        }
    }
    assert_eq!(
        seen,
        vec![(b"P1".to_vec(), 4), (b"P1".to_vec(), 5), (b"P2".to_vec(), 9)]
    );
}

#[test]
fn chat_line_to_one_peer() {
    let mut c = ChatClient::new(b"alice".to_vec(), b"P2".to_vec());
    c.handle_message(Message::RegisterOk { client_id: 3 });
    c.handle_message(Message::Event {
        to_client: 3,
        from_client: 1,
        event: Event::ServiceUpdate(
            Service::Chat.id(),
            vec![(b"P1".to_vec(), ids(&[4])), (b"P2".to_vec(), ids(&[9]))],
        ),
    });
    c.handle_line(b"psst".to_vec());
    assert_eq!(c.outbox.len(), 1);
    match &c.outbox[0] {
        Message::Message { to_peer, to_client, .. } => {
            assert_eq!(to_peer, &b"P2".to_vec());
            assert_eq!(*to_client, 9);
        },
        other => panic!("wrong message: {:?}", other),
    }
}

#[test]
fn chat_line_to_unknown_peer_goes_nowhere() {
    let mut c = ChatClient::new(b"alice".to_vec(), b"P7".to_vec());
    c.handle_line(b"lost".to_vec());
    assert!(c.outbox.is_empty());
}

#[test]
fn chat_displays_incoming_messages() {
    let mut c = ChatClient::new(b"alice".to_vec(), b"all".to_vec());
    let body = hi::chat::encode_chat_message(&hi::chat::ChatMessage {
        from: b"bob".to_vec(),
        message: b"hey".to_vec(),
    });
    let display = c.handle_message(Message::Message {
        to_peer: b"".to_vec(),
        from_peer: b"P5".to_vec(),
        to_client: 3,
        from_client: 8,
        service: Service::Chat.id(),
        content: body,
    });
    let (from_peer, from_client, cm) = display.unwrap();
    assert_eq!(from_peer, b"P5".to_vec());
    assert_eq!(from_client, 8);
    assert_eq!(cm.from, b"bob".to_vec());
    assert_eq!(cm.message, b"hey".to_vec());
}

#[test]
fn get_client_requests() {
    let mut c = GetClient::new();
    c.register_client();
    match c.outbox.last().unwrap() {
        Message::Register { services } => assert!(services.items.is_empty()),
        other => panic!("wrong message: {:?}", other),
    }
    c.handle_register_ok(4);
    c.send_request(GetSet::Name(b"".to_vec()));
    c.send_request(GetSet::Peers(vec![]));
    match &c.outbox[1] {
        Message::Get { client_id, request_id, content: GetSet::Name(_) } => {
            assert_eq!((*client_id, *request_id), (4, 0))
        },
        other => panic!("wrong message: {:?}", other),
    }
    match &c.outbox[2] {
        Message::Get { request_id, content: GetSet::Peers(_), .. } => assert_eq!(*request_id, 1),
        other => panic!("wrong message: {:?}", other),
    }
}

#[test]
fn set_client_requests() {
    let mut c = SetClient::new();
    c.register_client();
    c.handle_register_ok(4);
    c.send_request(GetSet::Name(b"carol".to_vec()));
    c.send_request(GetSet::Connect(b"/ip4/10.0.0.1/tcp/4".to_vec()));
    match &c.outbox[1] {
        Message::Put { client_id, request_id, content: GetSet::Name(n) } => {
            assert_eq!((*client_id, *request_id), (4, 0));
            assert_eq!(n, &b"carol".to_vec());
        },
        other => panic!("wrong message: {:?}", other),
    }
    match &c.outbox[2] {
        Message::Put { request_id, content: GetSet::Connect(_), .. } => assert_eq!(*request_id, 1),
        other => panic!("wrong message: {:?}", other),
    }
}

#[test]
fn request_handler_maps_message_to_event() {
    let (ev, resp) = hi::request::handle_request_response_request(
        b"P4".to_vec(),
        hi::request::HiRequest::Message(2, 3, 7, vec![1]),
    );
    assert_eq!(ev, hi::swarm::Event::Message(b"P4".to_vec(), 3, 2, 7, vec![1]));
    assert_eq!(resp, hi::request::HiResponse::Okay);
}
