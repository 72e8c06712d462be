use tensai::announce::{AnnounceResponse, TrackerError};
use tensai::peer::{dbyte, peers_from_compact, IpAddress, Peer, SocketAddress};
use tensai::scrape::ScrapeInfo;
use tensai::torrent::{Torrent, TorrentInfo};
use tensai::tree::Value;

fn bstr(s: &[u8]) -> Vec<u8> {
    let mut v = format!("{}:", s.len()).into_bytes();
    v.extend_from_slice(s);
    v
}

#[test]
fn compact_peers_decode_six_bytes_each() {
    let b = [10u8, 0, 0, 1, 0x1a, 0xe1, 192, 168, 1, 2, 0, 80];
    let ps = peers_from_compact(&b);
    assert_eq!(ps.len(), 2);
    assert_eq!(ps[0].address, SocketAddress { ip: IpAddress::V4(10, 0, 0, 1), port: 6881 });
    assert_eq!(ps[1].address, SocketAddress { ip: IpAddress::V4(192, 168, 1, 2), port: 80 });
    assert!(ps.iter().all(|p| p.peer_id.is_none()));
}

#[test]
fn compact_peers_drop_trailing_partial_record() {
    let b = [1u8, 2, 3, 4, 0, 1, 9, 9, 9];
    let ps = peers_from_compact(&b);
    assert_eq!(ps.len(), 1);
    assert_eq!(ps[0].address.port, 1);
}

#[test]
fn dbyte_is_network_order() {
    assert_eq!(dbyte(0x12, 0x34), 0x1234);
}

#[test]
fn ipv6_record_decodes() {
    let mut b = [0u8; 18];
    b[0] = 0x20;
    b[1] = 0x01;
    b[15] = 1;
    b[16] = 0x1a;
    b[17] = 0xe1;
    let p = Peer::from_18byte(b);
    assert_eq!(p.address.ip, IpAddress::V6(0x2001, 0, 0, 0, 0, 0, 0, 1));
    assert_eq!(p.address.port, 6881);
}

#[test]
fn peer_equality_compares_address_and_id() {
    let a = Peer::from_6byte(&[1, 2, 3, 4, 0, 5]);
    let mut b = Peer::from_6byte(&[1, 2, 3, 4, 0, 5]);
    assert!(a == b);
    b.peer_id = Some(vec![0u8; 20]);
    assert!(a != b);
}

#[test]
fn failure_reason_gives_failure() {
    let mut body = b"d".to_vec();
    body.extend(bstr(b"failure reason"));
    body.extend(bstr(b"bad request"));
    body.extend(b"e");
    match AnnounceResponse::from_body(&body).unwrap() {
        AnnounceResponse::Failure(r) => assert_eq!(r, "bad request"),
        AnnounceResponse::Success(_) => panic!("expected a failure"),
    }
}

#[test]
fn failure_reason_not_text_is_unknown_error() {
    let mut body = b"d".to_vec();
    body.extend(bstr(b"failure reason"));
    body.extend(b"i5e");
    body.extend(b"e");
    match AnnounceResponse::from_body(&body).unwrap() {
        AnnounceResponse::Failure(r) => assert_eq!(r, "unknown error"),
        AnnounceResponse::Success(_) => panic!("expected a failure"),
    }
}

#[test]
fn absent_peers_give_defaults() {
    let mut body = b"d".to_vec();
    body.extend(bstr(b"tracker id"));
    body.extend(bstr(b"xyz"));
    body.extend(b"e");
    match AnnounceResponse::from_body(&body).unwrap() {
        AnnounceResponse::Success(a) => {
            assert!(a.peers.is_empty());
            assert_eq!(a.interval, 600);
            assert_eq!(a.complete, 0);
            assert_eq!(a.incomplete, 0);
            assert_eq!(a.min_interval, None);
            assert_eq!(a.tracker_id, Some("xyz".to_string()));
        }
        AnnounceResponse::Failure(_) => panic!("expected success"),
    }
}

#[test]
fn announce_with_compact_peers_and_counts() {
    let mut body = b"d".to_vec();
    body.extend(bstr(b"complete"));
    body.extend(b"i4e");
    body.extend(bstr(b"interval"));
    body.extend(b"i1800e");
    body.extend(bstr(b"peers"));
    body.extend(bstr(&[127, 0, 0, 1, 0x1a, 0xe1]));
    body.extend(b"e");
    match AnnounceResponse::from_body(&body).unwrap() {
        AnnounceResponse::Success(a) => {
            assert_eq!(a.interval, 1800);
            assert_eq!(a.complete, 4);
            assert_eq!(a.peers.len(), 1);
            assert_eq!(a.peers[0].address.ip, IpAddress::V4(127, 0, 0, 1));
        }
        AnnounceResponse::Failure(_) => panic!("expected success"),
    }
}

#[test]
fn dictionary_peers_skip_malformed_entries() {
    let good = Value::Dict(vec![
        (b"ip".to_vec(), Value::Bytes(b"10.1.2.3".to_vec())),
        (b"peer_id".to_vec(), Value::Bytes(vec![b'p'; 20])),
        (b"port".to_vec(), Value::Int(51413)),
    ]);
    let no_port = Value::Dict(vec![(b"ip".to_vec(), Value::Bytes(b"10.1.2.4".to_vec()))]);
    let v6 = Value::Dict(vec![
        (b"ip".to_vec(), Value::Bytes(b"::1".to_vec())),
        (b"port".to_vec(), Value::Int(80)),
    ]);
    let v = Value::Dict(vec![(b"peers".to_vec(), Value::List(vec![good, no_port, v6]))]);
    match AnnounceResponse::from_value(&v).unwrap() {
        AnnounceResponse::Success(a) => {
            assert_eq!(a.peers.len(), 2);
            assert_eq!(a.peers[0].address.ip, IpAddress::V4(10, 1, 2, 3));
            assert_eq!(a.peers[0].address.port, 51413);
            assert_eq!(a.peers[0].peer_id, Some(vec![b'p'; 20]));
            assert_eq!(a.peers[1].address.ip, IpAddress::V6(0, 0, 0, 0, 0, 0, 0, 1));
        }
        AnnounceResponse::Failure(_) => panic!("expected success"),
    }
}

#[test]
fn announce_body_not_a_dictionary_is_malformed() {
    assert!(matches!(AnnounceResponse::from_body(b"i1e"), Err(TrackerError::Malformed)));
    assert!(matches!(AnnounceResponse::from_body(b"xx"), Err(TrackerError::Malformed)));
}

fn scrape_body(hash: &[u8]) -> Vec<u8> {
    let mut body = b"d".to_vec();
    body.extend(bstr(b"files"));
    body.extend(b"d");
    body.extend(bstr(hash));
    body.extend(b"d");
    body.extend(bstr(b"complete"));
    body.extend(b"i5e");
    body.extend(bstr(b"downloaded"));
    body.extend(b"i100e");
    body.extend(bstr(b"incomplete"));
    body.extend(b"i2e");
    body.extend(b"e");
    body.extend(b"e");
    body.extend(b"e");
    body
}

fn sample_torrent(hash: Vec<u8>) -> Torrent {
    let mut info = b"d".to_vec();
    info.extend(bstr(b"length"));
    info.extend(b"i10e");
    info.extend(bstr(b"name"));
    info.extend(bstr(b"f"));
    info.extend(bstr(b"piece length"));
    info.extend(b"i16e");
    info.extend(bstr(b"pieces"));
    info.extend(bstr(&[0u8; 20]));
    info.extend(b"e");
    let mut v = b"d".to_vec();
    v.extend(bstr(b"announce"));
    v.extend(bstr(b"http://t/announce"));
    v.extend(bstr(b"info"));
    v.extend(info);
    v.extend(b"e");
    let mut t = TorrentInfo::decode(&v).unwrap();
    t.infohash = hash;
    Torrent::new(t, "/tmp".to_string())
}

#[test]
fn scrape_finds_matching_hash() {
    let hash = vec![0xabu8; 20];
    let torrent = sample_torrent(hash.clone());
    let s = torrent.scrape_result(&scrape_body(&hash)).unwrap().unwrap();
    assert_eq!(s.complete, 5);
    assert_eq!(s.downloaded, 100);
    assert_eq!(s.incomplete, 2);
    assert_eq!(s.name, None);
}

#[test]
fn scrape_with_other_hash_finds_nothing() {
    let torrent = sample_torrent(vec![0x01u8; 20]);
    assert!(torrent.scrape_result(&scrape_body(&[0xabu8; 20])).unwrap().is_none());
}

#[test]
fn scrape_without_files_is_malformed() {
    assert!(matches!(ScrapeInfo::from_body(b"de"), Err(TrackerError::Malformed)));
}

#[test]
fn scrape_with_repeated_hash_is_rejected() {
    let entry = || {
        Value::Dict(vec![
            (b"complete".to_vec(), Value::Int(1)),
            (b"downloaded".to_vec(), Value::Int(2)),
            (b"incomplete".to_vec(), Value::Int(3)),
        ])
    };
    let files = Value::Dict(vec![(vec![1u8; 20], entry()), (vec![1u8; 20], entry())]);
    let v = Value::Dict(vec![(b"files".to_vec(), files)]);
    assert!(ScrapeInfo::from_value(&v).is_none());
    let files = Value::Dict(vec![(vec![1u8; 20], entry()), (vec![2u8; 20], entry())]);
    let v = Value::Dict(vec![(b"files".to_vec(), files)]);
    assert_eq!(ScrapeInfo::from_value(&v).unwrap().torrents.len(), 2);
}
