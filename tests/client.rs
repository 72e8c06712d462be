use tensai::announce::{AnnounceResponse};
use tensai::client::Client;
use tensai::torrent::{Status, TorrentInfo};
use tensai::text::{decimal, percent_encode, replace, to_hex};

#[test]
fn peer_id_from_client_rand() {
    let c = Client::with_client_rand("123456654321".to_string());
    assert_eq!(c.peer_id(), "-TE0001-123456654321");
}

#[test]
fn new_client_pads_numbers_to_six_digits() {
    let c = Client::new(42, 1_234_567);
    let id = c.peer_id();
    assert_eq!(id, "-TE0001-000042234567");
    assert_eq!(id.len(), 20);
}

fn small_torrent() -> TorrentInfo {
    let mut v = b"d8:announce17:http://t/announce4:infod".to_vec();
    v.extend_from_slice(b"6:lengthi10e4:name1:f12:piece lengthi16e6:pieces20:");
    v.extend_from_slice(&[0u8; 20]);
    v.extend_from_slice(b"ee");
    TorrentInfo::decode(&v).unwrap()
}

#[test]
fn client_holds_added_torrents() {
    let mut c = Client::with_client_rand("000000000000".to_string());
    assert!(c.get_torrents().is_empty());
    c.add_torrent(small_torrent(), "/downloads".to_string());
    let ts = c.get_torrents();
    assert_eq!(ts.len(), 1);
    assert_eq!(ts[0].status, Status::Stopped);
    assert_eq!(ts[0].destination_path, "/downloads");
    assert_eq!(ts[0].traffic.downloaded_bytes, 0);
    assert_eq!(ts[0].info.payload_size(), 10);
}

#[test]
fn announce_peers_go_into_the_session() {
    let mut c = Client::with_client_rand("000000000000".to_string());
    c.add_torrent(small_torrent(), "/downloads".to_string());
    let mut raw = b"d5:peers12:".to_vec();
    raw.extend_from_slice(&[1, 2, 3, 4, 0, 80, 5, 6, 7, 8, 0, 81]);
    raw.extend_from_slice(b"e");
    let result = match AnnounceResponse::from_body(&raw).unwrap() {
        AnnounceResponse::Success(a) => a,
        AnnounceResponse::Failure(_) => panic!("expected success"),
    };
    let t = &mut c.get_torrents()[0];
    t.record_peers(result);
    assert_eq!(t.session.peers.len(), 2);
    assert_eq!(t.session.peers[1].address.port, 81);
}

#[test]
fn text_helpers() {
    assert_eq!(decimal(0), "0");
    assert_eq!(decimal(44000), "44000");
    assert_eq!(to_hex(&[0x00, 0x0f, 0xa5]), "000fa5");
    assert_eq!(percent_encode(b"a b"), "a%20b");
    assert_eq!(replace("announce/announce", "announce", "scrape"), "scrape/scrape");
    assert_eq!(replace("aaa", "aa", "b"), "ba");
}
