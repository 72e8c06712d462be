use tensai::wire::{
    check_handshake, handshake, keep_alive, unchoke_interested, Action, BlockRequest, ConnState,
    PeerConnection, Receiver, WireError,
};

const HASH: [u8; 20] = [9u8; 20];
const LOCAL: &[u8; 20] = b"-TE0001-123456654321";

fn peer_reply(hash: &[u8]) -> Vec<u8> {
    let mut r = vec![19u8];
    r.extend_from_slice(b"BitTorrent protocol");
    r.extend_from_slice(&[0u8; 8]);
    r.extend_from_slice(hash);
    r.extend_from_slice(&[b'r'; 20]);
    r
}

fn piece_body(index: u32, offset: u32, data: &[u8]) -> Vec<u8> {
    let mut b = vec![7u8];
    b.extend_from_slice(&index.to_be_bytes());
    b.extend_from_slice(&offset.to_be_bytes());
    b.extend_from_slice(data);
    b
}

fn connected(total: u64, plen: u64) -> PeerConnection {
    let mut c = PeerConnection::new(HASH.to_vec(), LOCAL.to_vec(), total, plen);
    c.on_connected();
    assert!(c.on_handshake(&peer_reply(&HASH)).is_some());
    c.on_first_message(&[5u8]);
    assert_eq!(c.state(), ConnState::BitfieldReceived);
    c.start_exchange();
    c
}

#[test]
fn handshake_layout() {
    let h = handshake(&HASH, LOCAL);
    assert_eq!(h.len(), 68);
    assert_eq!(h[0], 19);
    assert_eq!(&h[1..20], b"BitTorrent protocol");
    assert_eq!(&h[20..28], &[0u8; 8]);
    assert_eq!(&h[28..48], &HASH);
    assert_eq!(&h[48..68], LOCAL);
}

#[test]
fn control_messages_are_framed() {
    assert_eq!(unchoke_interested(), vec![0, 0, 0, 1, 1, 0, 0, 0, 1, 2]);
    assert_eq!(keep_alive(), vec![0, 0, 0, 0]);
    let r = BlockRequest { index: 2, offset: 4096, length: 4096 };
    assert_eq!(
        r.encode(),
        vec![0, 0, 0, 13, 6, 0, 0, 0, 2, 0, 0, 0x10, 0, 0, 0, 0x10, 0]
    );
}

#[test]
fn handshake_reply_checks_hash() {
    assert_eq!(check_handshake(&peer_reply(&HASH), &HASH).unwrap(), vec![b'r'; 20]);
    assert_eq!(
        check_handshake(&peer_reply(&[1u8; 20]), &HASH).unwrap_err(),
        WireError::ProtocolViolation
    );
    assert_eq!(check_handshake(&[19u8, 1, 2], &HASH).unwrap_err(), WireError::ProtocolViolation);
}

#[test]
fn request_plan_asks_full_blocks_below_piece_length() {
    let c = connected(100, 4096 * 2 + 10);
    let plan = c.request_plan();
    assert_eq!(c.num_pieces(), 1);
    assert_eq!(plan.len(), 3);
    for (k, r) in plan.iter().enumerate() {
        assert_eq!(*r, BlockRequest { index: 0, offset: 4096 * k as u32, length: 4096 });
    }
}

#[test]
fn full_exchange_assembles_payload() {
    let total: u64 = 10000;
    let plen: u64 = 8192;
    let payload: Vec<u8> = (0..total).map(|i| (i * 31 % 251) as u8).collect();
    let mut c = connected(total, plen);
    assert_eq!(c.num_pieces(), 2);
    let requests = c.request_plan();
    let mut by_piece: Vec<BlockRequest> = Vec::new();
    for i in 0..c.num_pieces() {
        by_piece.extend(c.requests_for_piece(i as u32));
    }
    assert_eq!(requests, by_piece);
    assert_eq!(requests.len(), 4);
    assert_eq!(requests[0], BlockRequest { index: 0, offset: 0, length: 4096 });
    assert_eq!(requests[3], BlockRequest { index: 1, offset: 4096, length: 4096 });
    let mut last = Ok(Action::Continue);
    for r in &requests {
        // The peer serves what the payload holds at that place.
        let start = (r.index as u64 * plen + r.offset as u64) as usize;
        if start >= payload.len() {
            continue;
        }
        let end = (start + r.length as usize).min(payload.len());
        last = c.on_frame(&piece_body(r.index, r.offset, &payload[start..end]));
        if last == Ok(Action::Complete) {
            break;
        }
    }
    assert_eq!(last, Ok(Action::Complete));
    assert_eq!(c.state(), ConnState::Complete);
    assert_eq!(c.received(), total);
    assert_eq!(c.payload(), payload);
}

#[test]
fn mismatched_infohash_aborts_before_requests() {
    let mut c = PeerConnection::new(HASH.to_vec(), LOCAL.to_vec(), 100, 64);
    let sent = c.on_connected();
    assert_eq!(sent.len(), 68);
    assert!(c.on_handshake(&peer_reply(&[3u8; 20])).is_none());
    assert_eq!(c.state(), ConnState::Aborted(WireError::ProtocolViolation));
}

#[test]
fn keep_alive_is_answered_once_and_counts_nothing() {
    let mut c = connected(100, 64);
    assert_eq!(c.on_frame(&piece_body(0, 0, &[1u8; 10])), Ok(Action::Continue));
    assert_eq!(c.received(), 10);
    assert_eq!(c.on_frame(&[]), Ok(Action::SendKeepAlive));
    assert_eq!(c.received(), 10);
    assert_eq!(c.state(), ConnState::Exchanging);
}

#[test]
fn other_messages_are_skipped() {
    let mut c = connected(100, 64);
    assert_eq!(c.on_frame(&[4u8, 0, 0, 0, 1]), Ok(Action::Continue));
    assert_eq!(c.received(), 0);
}

#[test]
fn first_message_must_be_bitfield() {
    let mut c = PeerConnection::new(HASH.to_vec(), LOCAL.to_vec(), 100, 64);
    c.on_connected();
    c.on_handshake(&peer_reply(&HASH)).unwrap();
    assert_eq!(c.remote_id(), Some(vec![b'r'; 20]));
    c.on_first_message(&[1u8]);
    assert_eq!(c.state(), ConnState::Aborted(WireError::ProtocolViolation));
}

#[test]
fn block_outside_its_piece_aborts() {
    let mut c = connected(100, 64);
    assert_eq!(
        c.on_frame(&piece_body(1, 30, &[0u8; 10])),
        Err(WireError::ProtocolViolation)
    );
    assert_eq!(c.state(), ConnState::Aborted(WireError::ProtocolViolation));
}

#[test]
fn io_error_aborts_with_connection_error() {
    let mut c = connected(100, 64);
    c.on_io_error();
    assert_eq!(c.state(), ConnState::Aborted(WireError::ConnectionError));
}

#[test]
fn receiver_sizes_last_piece_short() {
    let r = Receiver::new(100, 64);
    assert_eq!(r.num_pieces(), 2);
    assert_eq!(r.piece_size(0), 64);
    assert_eq!(r.piece_size(1), 36);
}
