//! File transfer: the happy path, cancellation and timeouts.

use hi::file::{FTState, FileClient, FileMessage, FileTransfer};

fn data(n: usize) -> Vec<u8> {
    (0..n).map(|i| (i % 251) as u8).collect()
}

#[test]
fn transfer_happy_path_1537_bytes() {
    // 1537 bytes travel as four chunks of 512, 512, 512 and 1 bytes, each
    // acknowledged exactly once; both sides end in Done and the bytes match
    let content = data(1537);
    let mut up = FileTransfer::new(1, b"".to_vec(), b"P2".to_vec(), b"F".to_vec(), 100);
    let mut down = FileTransfer::new(1, b"P1".to_vec(), b"".to_vec(), b"F".to_vec(), 100);
    assert!(up.is_upload());
    assert!(!down.is_upload());

    let req = down.start_download(true, 100).unwrap();
    assert_eq!(req, FileMessage::Get(1, b"F".to_vec()));

    let mut chunk = up.start_upload(Some(content.clone()), 100).unwrap();
    let mut sizes = Vec::new();
    let mut acks = 0;
    loop {
        let d = match &chunk {
            FileMessage::Chunk(_, d) => d.clone(),
            other => panic!("not a chunk: {:?}", other),
        };
        sizes.push(d.len());
        down.handle(FileMessage::Chunk(1, d), 101);
        let ack = down.next(101).unwrap();
        assert_eq!(ack, FileMessage::ChunkAck(1));
        acks += 1;
        up.handle(FileMessage::ChunkAck(1), 101);
        match up.next(101) {
            Some(next_chunk) => chunk = next_chunk,
            None => break,
        }
    }
    assert_eq!(sizes, vec![512, 512, 512, 1]);
    assert_eq!(acks, 4);
    assert!(up.is_done());
    assert!(down.is_done());
    assert_eq!(down.content, content);
    assert_eq!(up.num_bytes, 1537);
    assert_eq!(down.num_bytes, 1537);
}

#[test]
fn exact_multiple_of_chunk_size_ends_with_empty_chunk() {
    let content = data(1024);
    let mut up = FileTransfer::new(1, b"".to_vec(), b"P2".to_vec(), b"F".to_vec(), 0);
    let mut sizes = Vec::new();
    let mut msg = up.start_upload(Some(content), 0);
    while let Some(FileMessage::Chunk(_, d)) = msg {
        sizes.push(d.len());
        up.handle(FileMessage::ChunkAck(1), 0);
        msg = up.next(0);
    }
    assert_eq!(sizes, vec![512, 512, 0]);
}

#[test]
fn cancelled_transfer_stops_and_counterparty_times_out() {
    // cancel the upload after the second chunk; the download times out later
    let content = data(1537);
    let mut up = FileTransfer::new(7, b"".to_vec(), b"P2".to_vec(), b"F".to_vec(), 100);
    let mut down = FileTransfer::new(7, b"P1".to_vec(), b"".to_vec(), b"F".to_vec(), 100);
    down.start_download(true, 100);
    let mut chunk = up.start_upload(Some(content), 100).unwrap();
    for _ in 0..2 {
        let d = match &chunk {
            FileMessage::Chunk(_, d) => d.clone(),
            other => panic!("not a chunk: {:?}", other),
        };
        down.handle(FileMessage::Chunk(7, d), 101);
        down.next(101).unwrap();
        up.handle(FileMessage::ChunkAck(7), 101);
        chunk = up.next(101).unwrap();
    }
    up.cancel(102);
    match &up.state {
        FTState::Error(e) => assert_eq!(e, &b"Canceled by user".to_vec()),
        other => panic!("not cancelled: {:?}", other),
    }
    // a cancelled transfer produces nothing further
    assert!(up.next(103).is_none());
    // the idle download times out after 30 seconds of silence
    down.check_timeout(131);
    assert!(!down.is_error());
    down.check_timeout(132);
    match &down.state {
        FTState::Error(e) => assert_eq!(e, &b"Timeout".to_vec()),
        other => panic!("no timeout: {:?}", other),
    }
}

#[test]
fn open_failure_is_an_error() {
    let mut up = FileTransfer::new(1, b"".to_vec(), b"P2".to_vec(), b"F".to_vec(), 0);
    assert!(up.start_upload(None, 0).is_none());
    match &up.state {
        FTState::Error(e) => assert_eq!(e, &b"Error opening file".to_vec()),
        other => panic!("not an error: {:?}", other),
    }
    let mut down = FileTransfer::new(2, b"P1".to_vec(), b"".to_vec(), b"F".to_vec(), 0);
    assert!(down.start_download(false, 0).is_none());
    assert!(down.is_error());
}

#[test]
fn sender_validity() {
    let up = FileTransfer::new(1, b"".to_vec(), b"P2".to_vec(), b"F".to_vec(), 0);
    assert!(up.is_valid_sender(&b"P2".to_vec()));
    assert!(!up.is_valid_sender(&b"P3".to_vec()));
    let down = FileTransfer::new(1, b"P1".to_vec(), b"".to_vec(), b"F".to_vec(), 0);
    assert!(down.is_valid_sender(&b"P1".to_vec()));
    assert!(!down.is_valid_sender(&b"P2".to_vec()));
}

#[test]
fn data_rate() {
    let mut t = FileTransfer::new(1, b"".to_vec(), b"P2".to_vec(), b"F".to_vec(), 100);
    t.num_bytes = 1000;
    t.last_active = 110;
    assert_eq!(t.get_data_rate(), 100);
    t.completed_at = 105;
    assert_eq!(t.get_data_rate(), 200);
    t.completed_at = 100;
    assert_eq!(t.get_data_rate(), 0);
}

#[test]
fn timeout_cancels_no_other_transfer() {
    // one stale and one fresh transfer: only the stale one fails
    let mut c = FileClient::new();
    c.share_files(vec![(b"F".to_vec(), 4)]);
    let _ = c.handle_daemon_message_file(
        b"P1".to_vec(),
        3,
        FileMessage::Get(1, b"F".to_vec()),
        Some(data(4)),
        100,
    );
    let _ = c.handle_daemon_message_file(
        b"P1".to_vec(),
        3,
        FileMessage::Get(2, b"F".to_vec()),
        Some(data(4)),
        125,
    );
    assert_eq!(c.transfers.len(), 2);
    c.check_timeouts(131);
    let t1 = &c.transfers.iter().find(|t| t.0 == 1).unwrap().1;
    let t2 = &c.transfers.iter().find(|t| t.0 == 2).unwrap().1;
    match &t1.state {
        FTState::Error(e) => assert_eq!(e, &b"Timeout".to_vec()),
        other => panic!("no timeout: {:?}", other),
    }
    assert!(!t2.is_error());
}

#[test]
fn file_client_serves_share_list() {
    let mut c = FileClient::new();
    c.share_files(vec![(b"F".to_vec(), 7), (b"G".to_vec(), 9), (b"F".to_vec(), 7)]);
    assert_eq!(c.shares.len(), 2);
    assert!(c.is_shared(&b"F".to_vec()));
    assert!(!c.is_shared(&b"H".to_vec()));
    let _ = c.handle_daemon_message_file(b"P1".to_vec(), 3, FileMessage::List, None, 0);
    match c.outbox.last().unwrap() {
        hi::message::Message::Message { to_peer, to_client, content, .. } => {
            assert_eq!(to_peer, &b"P1".to_vec());
            assert_eq!(*to_client, 3);
            match hi::file::decode_file_message(content) {
                Some(FileMessage::ListReply(l)) => {
                    assert_eq!(l, vec![(b"F".to_vec(), 7), (b"G".to_vec(), 9)])
                },
                other => panic!("wrong body: {:?}", other),
            }
        },
        other => panic!("wrong message: {:?}", other),
    }
}

#[test]
fn get_request_starts_upload_and_sends_first_chunk() {
    let mut c = FileClient::new();
    c.share_files(vec![(b"F".to_vec(), 4)]);
    let _ = c.handle_daemon_message_file(
        b"P1".to_vec(),
        3,
        FileMessage::Get(9, b"F".to_vec()),
        Some(vec![1, 2, 3, 4]),
        100,
    );
    assert_eq!(c.transfers.len(), 1);
    match c.outbox.last().unwrap() {
        hi::message::Message::Message { content, .. } => {
            assert_eq!(
                hi::file::decode_file_message(content),
                Some(FileMessage::Chunk(9, vec![1, 2, 3, 4]))
            );
        },
        other => panic!("wrong message: {:?}", other),
    }
    // a get for a file that is not shared starts nothing
    let _ = c.handle_daemon_message_file(
        b"P1".to_vec(),
        3,
        FileMessage::Get(10, b"X".to_vec()),
        None,
        100,
    );
    assert_eq!(c.transfers.len(), 1);
}

#[test]
fn chunk_from_wrong_sender_ignored() {
    let mut c = FileClient::new();
    c.share_files(vec![(b"F".to_vec(), 4)]);
    let _ = c.handle_daemon_message_file(
        b"P1".to_vec(),
        3,
        FileMessage::Get(9, b"F".to_vec()),
        Some(vec![1, 2, 3, 4]),
        100,
    );
    let n = c.outbox.len();
    // the upload's counterparty is P1; an acknowledgement from P2 is ignored
    let _ = c.handle_daemon_message_file(
        b"P2".to_vec(),
        3,
        FileMessage::ChunkAck(9),
        None,
        101,
    );
    assert_eq!(c.outbox.len(), n);
    assert!(!c.transfers[0].1.is_done());
}

#[test]
fn fresh_ids_avoid_collisions() {
    let mut c = FileClient::new();
    assert_eq!(c.new_id(5), Some(5));
    c.share_files(vec![(b"F".to_vec(), 1)]);
    let _ = c.handle_daemon_message_file(
        b"P1".to_vec(),
        3,
        FileMessage::Get(5, b"F".to_vec()),
        Some(vec![1]),
        0,
    );
    let id = c.new_id(5).unwrap();
    assert_ne!(id, 5);
}

#[test]
fn download_command_queues_get() {
    let mut c = FileClient::new();
    c.handle_user_command_get(b"P1".to_vec(), 4, b"F".to_vec(), 7, true, 100);
    assert_eq!(c.transfers.len(), 1);
    assert!(matches!(c.transfers[0].1.state, FTState::WaitChunk));
    match c.outbox.last().unwrap() {
        hi::message::Message::Message { to_peer, to_client, content, .. } => {
            assert_eq!(to_peer, &b"P1".to_vec());
            assert_eq!(*to_client, 4);
            assert_eq!(
                hi::file::decode_file_message(content),
                Some(FileMessage::Get(7, b"F".to_vec()))
            );
        },
        other => panic!("wrong message: {:?}", other),
    }
}

#[test]
fn download_target_parsing() {
    let (peer, client) = hi::file::parse_peer_client(&b"P1/1".to_vec()).unwrap();
    assert_eq!(peer, b"P1".to_vec());
    assert_eq!(client, 1);
    let (peer, client) = hi::file::parse_peer_client(&b"Qm/65535".to_vec()).unwrap();
    assert_eq!(peer, b"Qm".to_vec());
    assert_eq!(client, 65535);
    assert!(hi::file::parse_peer_client(&b"P1".to_vec()).is_none());
    assert!(hi::file::parse_peer_client(&b"P1/".to_vec()).is_none());
    assert!(hi::file::parse_peer_client(&b"P1/abc".to_vec()).is_none());
    assert!(hi::file::parse_peer_client(&b"P1/65536".to_vec()).is_none());
}

#[test]
fn fresh_transfer_ids_are_unused() {
    let mut c = FileClient::new();
    assert!(c.fresh_transfer_id().is_some());
    c.share_files(vec![(b"F".to_vec(), 1)]);
    let _ = c.handle_daemon_message_file(
        b"P1".to_vec(),
        3,
        FileMessage::Get(3, b"F".to_vec()),
        Some(vec![1]),
        0,
    );
    let id = c.fresh_transfer_id().unwrap();
    assert_ne!(id, 3);
}
