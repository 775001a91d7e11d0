//! Round trips and exact encodings of the wire formats.

use hi::chat::{decode_chat_message, encode_chat_message, ChatMessage};
use hi::config::ConfigOption;
use hi::file::{decode_file_message, encode_file_message, FileMessage};
use hi::framing::{frame_payload, read_frame};
use hi::gossip::HiAnnounce;
use hi::idset::IdSet;
use hi::message::{Event, GetSet, Message, PeerInfo};
use hi::request::{
    decode_request, decode_response, encode_request, encode_response, HiRequest, HiResponse,
};
use hi::service::{decode_service_message, encode_service_message, ServiceMessage};

fn ids(v: &[u16]) -> IdSet {
    let mut s = IdSet::new();
    for x in v {
        s.insert(*x);
    }
    s
}

fn round_trip(m: Message) -> Message {
    let bytes = m.to_bytes().expect("encode");
    Message::from_bytes(&bytes).expect("decode")
}

#[test]
fn message_okay_round_trip_and_bytes() {
    let m = Message::Okay;
    let bytes = m.to_bytes().unwrap();
    assert_eq!(bytes, vec![0x82, 0x00, 0xa0]);
    assert_eq!(round_trip(Message::Okay), Message::Okay);
}

#[test]
fn message_error_round_trip() {
    let m = Message::Error { message: b"boom".to_vec() };
    assert_eq!(round_trip(m), Message::Error { message: b"boom".to_vec() });
}

#[test]
fn message_register_round_trip() {
    let m = Message::Register { services: ids(&[7, 1025]) };
    match round_trip(m) {
        Message::Register { services } => assert_eq!(services.items, vec![7, 1025]),
        other => panic!("wrong variant: {:?}", other),
    }
}

#[test]
fn message_register_ok_exact_bytes() {
    let m = Message::RegisterOk { client_id: 1 };
    let bytes = m.to_bytes().unwrap();
    assert_eq!(bytes, vec![0x82, 0x04, 0xa1, 0x00, 0x01]);
    assert_eq!(round_trip(Message::RegisterOk { client_id: 1 }), m);
}

#[test]
fn message_get_peers_round_trip() {
    let p = PeerInfo {
        peer_id: b"P1".to_vec(),
        name: b"alice".to_vec(),
        services_tag: 42,
        last_update: 1000,
    };
    let m = Message::Get {
        client_id: 3,
        request_id: 9,
        content: GetSet::Peers(vec![p]),
    };
    match round_trip(m) {
        Message::Get { client_id, request_id, content } => {
            assert_eq!(client_id, 3);
            assert_eq!(request_id, 9);
            match content {
                GetSet::Peers(ps) => {
                    assert_eq!(ps.len(), 1);
                    assert_eq!(ps[0].peer_id, b"P1".to_vec());
                    assert_eq!(ps[0].name, b"alice".to_vec());
                    assert_eq!(ps[0].services_tag, 42);
                    assert_eq!(ps[0].last_update, 1000);
                },
                other => panic!("wrong content: {:?}", other),
            }
        },
        other => panic!("wrong variant: {:?}", other),
    }
}

#[test]
fn message_put_round_trip() {
    let m = Message::Put {
        client_id: 2,
        request_id: 1,
        content: GetSet::ServicesTag(0xdead_beef),
    };
    assert_eq!(
        round_trip(m),
        Message::Put { client_id: 2, request_id: 1, content: GetSet::ServicesTag(0xdead_beef) }
    );
}

#[test]
fn message_envelope_round_trip() {
    let m = Message::Message {
        to_peer: b"P9".to_vec(),
        from_peer: b"".to_vec(),
        to_client: 0xffff,
        from_client: 4,
        service: 7,
        content: vec![1, 2, 3],
    };
    let m2 = Message::Message {
        to_peer: b"P9".to_vec(),
        from_peer: b"".to_vec(),
        to_client: 0xffff,
        from_client: 4,
        service: 7,
        content: vec![1, 2, 3],
    };
    assert_eq!(round_trip(m), m2);
}

#[test]
fn message_event_round_trip() {
    let ev = Event::ClientUpdate(true, 5, ids(&[7]));
    let m = Message::Event { to_client: 1, from_client: 0, event: ev };
    match round_trip(m) {
        Message::Event { to_client, from_client, event } => {
            assert_eq!((to_client, from_client), (1, 0));
            match event {
                Event::ClientUpdate(add, id, services) => {
                    assert!(add);
                    assert_eq!(id, 5);
                    assert_eq!(services.items, vec![7]);
                },
                other => panic!("wrong event: {:?}", other),
            }
        },
        other => panic!("wrong variant: {:?}", other),
    }
}

#[test]
fn message_service_update_round_trip() {
    let ev = Event::ServiceUpdate(7, vec![(b"P1".to_vec(), ids(&[2, 9]))]);
    let m = Message::Event { to_client: 5, from_client: 1, event: ev };
    match round_trip(m) {
        Message::Event { event: Event::ServiceUpdate(s, map), .. } => {
            assert_eq!(s, 7);
            assert_eq!(map.len(), 1);
            assert_eq!(map[0].0, b"P1".to_vec());
            assert_eq!(map[0].1.items, vec![2, 9]);
        },
        other => panic!("wrong variant: {:?}", other),
    }
}

#[test]
fn message_unknown_variant_rejected() {
    // array(2), tag 9, empty map: an unknown variant must not decode
    let bytes = vec![0x82, 0x09, 0xa0];
    assert!(Message::from_bytes(&bytes).is_none());
}

#[test]
fn message_legacy_file_tag_rejected() {
    // tag 2 is the legacy file message and is not decoded
    let bytes = vec![0x82, 0x02, 0xa0];
    assert!(Message::from_bytes(&bytes).is_none());
}

#[test]
fn message_trailing_bytes_rejected() {
    let mut bytes = Message::Okay.to_bytes().unwrap();
    bytes.push(0);
    assert!(Message::from_bytes(&bytes).is_none());
}

#[test]
fn message_unknown_field_ignored() {
    // RegisterOk with an extra field 7 before the id: map(2) {7: 0, 0: 1}
    let bytes = vec![0x82, 0x04, 0xa2, 0x07, 0x00, 0x00, 0x01];
    assert_eq!(
        Message::from_bytes(&bytes),
        Some(Message::RegisterOk { client_id: 1 })
    );
}

#[test]
fn announce_round_trip() {
    let a = HiAnnounce { version: 0, name: b"alice".to_vec(), services_tag: 42 };
    let bytes = a.encode().unwrap();
    let b = HiAnnounce::decode(&bytes).unwrap();
    assert_eq!(b, HiAnnounce { version: 0, name: b"alice".to_vec(), services_tag: 42 });
}

#[test]
fn announce_missing_field_rejected() {
    // map(2) {0: 0, 1: "x"}: the services tag is mandatory
    let bytes = vec![0xa2, 0x00, 0x00, 0x01, 0x61, 0x78];
    assert!(HiAnnounce::decode(&bytes).is_none());
}

#[test]
fn announce_unknown_field_ignored() {
    // map(4) with an extra field 9 carrying a nested array
    let bytes = vec![
        0xa4, 0x00, 0x00, 0x01, 0x61, 0x78, 0x02, 0x18, 0x2a, 0x09, 0x82, 0x01, 0x02,
    ];
    let a = HiAnnounce::decode(&bytes).unwrap();
    assert_eq!(a.version, 0);
    assert_eq!(a.name, b"x".to_vec());
    assert_eq!(a.services_tag, 42);
}

#[test]
fn request_response_round_trip() {
    let r = HiRequest::Message(1, 2, 7, vec![9, 8]);
    let bytes = encode_request(&r);
    assert_eq!(decode_request(&bytes), Some(HiRequest::Message(1, 2, 7, vec![9, 8])));
    let ok = encode_response(&HiResponse::Okay);
    assert_eq!(decode_response(&ok), Some(HiResponse::Okay));
    let err = encode_response(&HiResponse::Error(b"no".to_vec()));
    assert_eq!(decode_response(&err), Some(HiResponse::Error(b"no".to_vec())));
}

#[test]
fn service_message_round_trip() {
    let m = ServiceMessage::ServiceRequest;
    assert_eq!(
        decode_service_message(&encode_service_message(&m)),
        Some(ServiceMessage::ServiceRequest)
    );
    let reply = ServiceMessage::ServiceReply {
        services_tag: 7,
        services: vec![(5, ids(&[7, 8]))],
    };
    match decode_service_message(&encode_service_message(&reply)) {
        Some(ServiceMessage::ServiceReply { services_tag, services }) => {
            assert_eq!(services_tag, 7);
            assert_eq!(services.len(), 1);
            assert_eq!(services[0].0, 5);
            assert_eq!(services[0].1.items, vec![7, 8]);
        },
        other => panic!("wrong variant: {:?}", other),
    }
}

#[test]
fn file_message_round_trip() {
    for m in [
        FileMessage::List,
        FileMessage::ListReply(vec![(b"F".to_vec(), 1537)]),
        FileMessage::Get(7, b"F".to_vec()),
        FileMessage::Chunk(7, vec![0; 512]),
        FileMessage::ChunkAck(7),
    ] {
        let bytes = encode_file_message(&m);
        let back = decode_file_message(&bytes).expect("decode");
        assert_eq!(back, decode_file_message(&encode_file_message(&back)).unwrap());
        assert_eq!(encode_file_message(&back), bytes);
    }
}

#[test]
fn chat_message_round_trip() {
    let m = ChatMessage { from: b"alice".to_vec(), message: b"hi there".to_vec() };
    let bytes = encode_chat_message(&m);
    assert_eq!(
        decode_chat_message(&bytes),
        Some(ChatMessage { from: b"alice".to_vec(), message: b"hi there".to_vec() })
    );
}

#[test]
fn frame_round_trip() {
    let payload = vec![1u8, 2, 3, 4];
    let framed = frame_payload(&payload).unwrap();
    assert_eq!(framed, vec![0, 4, 1, 2, 3, 4]);
    let (body, end) = read_frame(&framed).unwrap();
    assert_eq!(body, payload);
    assert_eq!(end, 6);
}

#[test]
fn frame_rejects_oversized_payload() {
    let payload = vec![0u8; 0x10000];
    assert!(frame_payload(&payload).is_none());
}

#[test]
fn frame_short_read_rejected() {
    // length says 4 but only 2 bytes follow
    let bytes = vec![0, 4, 1, 2];
    assert!(read_frame(&bytes).is_none());
}

#[test]
fn config_option_parsing() {
    let o = ConfigOption::from_str(&b"name:alice".to_vec()).unwrap();
    assert_eq!(o.name, b"name".to_vec());
    assert_eq!(o.value, b"alice".to_vec());
    let o2 = ConfigOption::from_str(&b"name".to_vec()).unwrap();
    assert_eq!(o2.name, b"name".to_vec());
    assert_eq!(o2.value, b"".to_vec());
    assert!(ConfigOption::from_str(&b"a:b:c".to_vec()).is_none());
}

#[test]
fn idset_insert_contains_sorted() {
    let mut s = IdSet::new();
    s.insert(9);
    s.insert(2);
    s.insert(9);
    s.insert(5);
    assert_eq!(s.items, vec![2, 5, 9]);
    assert!(s.contains(5));
    assert!(!s.contains(4));
    assert_eq!(s.len(), 3);
    assert!(!s.is_empty());
}
