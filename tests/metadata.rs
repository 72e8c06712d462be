use crypto::digest::Digest;
use tensai::torrent::{DecodeError, Payload, Torrent, TorrentInfo};
use tensai::tree::{decode_tree, is_well_formed, Value};

fn bstr(s: &[u8]) -> Vec<u8> {
    let mut v = format!("{}:", s.len()).into_bytes();
    v.extend_from_slice(s);
    v
}

fn info_single(length: u64, plen: u64, npieces: usize) -> Vec<u8> {
    let mut v = b"d".to_vec();
    v.extend(bstr(b"length"));
    v.extend(format!("i{}e", length).into_bytes());
    v.extend(bstr(b"name"));
    v.extend(bstr(b"file.bin"));
    v.extend(bstr(b"piece length"));
    v.extend(format!("i{}e", plen).into_bytes());
    v.extend(bstr(b"pieces"));
    v.extend(bstr(&vec![7u8; 20 * npieces]));
    v.extend(b"e");
    v
}

fn torrent_bytes(info: &[u8]) -> Vec<u8> {
    let mut v = b"d".to_vec();
    v.extend(bstr(b"announce"));
    v.extend(bstr(b"http://tracker.example/announce"));
    v.extend(bstr(b"comment"));
    v.extend(bstr(b"hello"));
    v.extend(bstr(b"info"));
    v.extend_from_slice(info);
    v.extend(b"e");
    v
}

fn sha1(b: &[u8]) -> Vec<u8> {
    let mut h = crypto::sha1::Sha1::new();
    h.input(b);
    let mut out = [0u8; 20];
    h.result(&mut out);
    out.to_vec()
}

#[test]
fn decode_single_file_torrent() {
    let info = info_single(10000, 4096, 3);
    let t = TorrentInfo::decode(&torrent_bytes(&info)).unwrap();
    assert_eq!(t.announce, "http://tracker.example/announce");
    assert_eq!(t.comment, Some("hello".to_string()));
    assert_eq!(t.created_by, None);
    assert_eq!(t.metainfo.piece_length, 4096);
    assert_eq!(t.metainfo.name, "file.bin");
    assert!(!t.metainfo.private);
    match &t.metainfo.payload {
        Payload::SingleFile(f) => {
            assert_eq!(f.length, 10000);
            assert!(f.path.is_none());
        }
        Payload::MultiFile(_) => panic!("expected a single file"),
    }
}

#[test]
fn infohash_is_sha1_of_info_bytes() {
    let info = info_single(10000, 4096, 3);
    let bytes = torrent_bytes(&info);
    let t = TorrentInfo::decode(&bytes).unwrap();
    assert_eq!(t.infohash, sha1(&info));
    let again = TorrentInfo::decode(&bytes).unwrap();
    assert_eq!(again.infohash, t.infohash);
}

#[test]
fn infohash_uses_info_bytes_as_written() {
    // Keys out of order: a re-encoding would sort them and change the hash.
    let mut info = b"d".to_vec();
    info.extend(bstr(b"pieces"));
    info.extend(bstr(&vec![7u8; 20]));
    info.extend(bstr(b"name"));
    info.extend(bstr(b"f"));
    info.extend(bstr(b"piece length"));
    info.extend(b"i16e");
    info.extend(bstr(b"length"));
    info.extend(b"i10e");
    info.extend(b"e");
    let t = TorrentInfo::decode(&torrent_bytes(&info)).unwrap();
    assert_eq!(t.infohash, sha1(&info));
    assert_eq!(t.payload_size(), 10);
}

#[test]
fn hash_string_is_forty_lowercase_hex_digits() {
    let info = info_single(10000, 4096, 3);
    let t = TorrentInfo::decode(&torrent_bytes(&info)).unwrap();
    let h = t.hash_string();
    assert_eq!(h.len(), 40);
    assert!(h.chars().all(|c| c.is_ascii_digit() || ('a'..='f').contains(&c)));
    let expected: String = sha1(&info).iter().map(|b| format!("{:02x}", b)).collect();
    assert_eq!(h, expected);
}

#[test]
fn urlencoded_hash_escapes_reserved_bytes() {
    let info = info_single(10000, 4096, 3);
    let mut t = TorrentInfo::decode(&torrent_bytes(&info)).unwrap();
    t.infohash = vec![0x00, b'A', b'z', b'~', b'.', 0xff, b' ', b'/'];
    assert_eq!(t.urlencoded_hash(), "%00Az~.%FF%20%2F");
}

#[test]
fn piece_count_rounds_up() {
    let info = info_single(10000, 4096, 3);
    let t = TorrentInfo::decode(&torrent_bytes(&info)).unwrap();
    assert_eq!(t.payload_size(), 10000);
    assert_eq!(t.num_pieces(), 3);
    assert_eq!(t.metainfo.pieces.len(), 20 * 3);
}

#[test]
fn exact_multiple_of_piece_length() {
    let info = info_single(8192, 4096, 2);
    let t = TorrentInfo::decode(&torrent_bytes(&info)).unwrap();
    assert_eq!(t.num_pieces(), 2);
}

#[test]
fn piece_hashes_not_matching_pieces_are_rejected() {
    let info = info_single(10000, 4096, 2);
    assert_eq!(TorrentInfo::decode(&torrent_bytes(&info)).unwrap_err(), DecodeError::Malformed);
}

#[test]
fn multi_file_torrent_sums_lengths() {
    let mut info = b"d".to_vec();
    info.extend(bstr(b"files"));
    info.extend(b"l");
    for (len, name) in [(5000u64, b"a.txt"), (3000u64, b"b.txt")] {
        info.extend(b"d");
        info.extend(bstr(b"length"));
        info.extend(format!("i{}e", len).into_bytes());
        info.extend(bstr(b"path"));
        info.extend(b"l");
        info.extend(bstr(b"dir"));
        info.extend(bstr(name));
        info.extend(b"e");
        info.extend(b"e");
    }
    info.extend(b"e");
    info.extend(bstr(b"name"));
    info.extend(bstr(b"pack"));
    info.extend(bstr(b"piece length"));
    info.extend(b"i4096e");
    info.extend(bstr(b"pieces"));
    info.extend(bstr(&vec![1u8; 40]));
    info.extend(bstr(b"private"));
    info.extend(b"i1e");
    info.extend(b"e");
    let t = TorrentInfo::decode(&torrent_bytes(&info)).unwrap();
    assert!(t.metainfo.private);
    assert_eq!(t.payload_size(), 8000);
    assert_eq!(t.num_pieces(), 2);
    match &t.metainfo.payload {
        Payload::MultiFile(fs) => {
            assert_eq!(fs.len(), 2);
            assert_eq!(fs[1].length, 3000);
            assert_eq!(
                fs[1].path,
                Some(vec!["dir".to_string(), "b.txt".to_string()])
            );
        }
        Payload::SingleFile(_) => panic!("expected several files"),
    }
}

#[test]
fn undecodable_bytes_are_not_a_tree() {
    assert_eq!(TorrentInfo::decode(b"d8:announce").unwrap_err(), DecodeError::NotATree);
}

#[test]
fn outer_list_is_not_a_dictionary() {
    assert_eq!(TorrentInfo::decode(b"li1ee").unwrap_err(), DecodeError::NotADictionary);
}

#[test]
fn missing_info_is_rejected() {
    let mut v = b"d".to_vec();
    v.extend(bstr(b"announce"));
    v.extend(bstr(b"http://t/announce"));
    v.extend(b"e");
    assert_eq!(TorrentInfo::decode(&v).unwrap_err(), DecodeError::MissingInfo);
}

#[test]
fn info_that_is_not_a_dictionary_is_rejected() {
    let mut v = b"d".to_vec();
    v.extend(bstr(b"announce"));
    v.extend(bstr(b"http://t/announce"));
    v.extend(bstr(b"info"));
    v.extend(b"i3e");
    v.extend(b"e");
    assert_eq!(TorrentInfo::decode(&v).unwrap_err(), DecodeError::MissingInfo);
}

#[test]
fn missing_announce_is_rejected() {
    let info = info_single(10000, 4096, 3);
    let mut v = b"d".to_vec();
    v.extend(bstr(b"info"));
    v.extend_from_slice(&info);
    v.extend(b"e");
    assert_eq!(TorrentInfo::decode(&v).unwrap_err(), DecodeError::Malformed);
}

#[test]
fn tree_decoder_reads_nested_values() {
    match decode_tree(b"d1:ai-3e1:bl2:xyee") {
        Some(Value::Dict(d)) => {
            assert_eq!(d.len(), 2);
            assert_eq!(d[0].0, b"a".to_vec());
            assert!(matches!(d[0].1, Value::Int(-3)));
            match &d[1].1 {
                Value::List(l) => assert!(matches!(&l[0], Value::Bytes(b) if b == b"xy")),
                _ => panic!("expected a list"),
            }
        }
        _ => panic!("expected a dictionary"),
    }
}

#[test]
fn truncated_input_is_not_well_formed() {
    assert!(!is_well_formed(b"d8:announce"));
    assert!(!is_well_formed(b"li1e"));
    assert!(!is_well_formed(b"4:abc"));
    assert!(!is_well_formed(b"i1ei2e"));
    assert!(is_well_formed(b"d1:ai-3e1:bl2:xyee"));
    assert!(decode_tree(b"l").is_none());
}

#[test]
fn integers_use_the_full_signed_range() {
    assert!(is_well_formed(b"i9223372036854775807e"));
    assert!(is_well_formed(b"i-9223372036854775808e"));
    assert!(!is_well_formed(b"i9223372036854775808e"));
    assert!(!is_well_formed(b"i12345678901234567890e"));
    assert!(matches!(decode_tree(b"i9223372036854775807e"), Some(Value::Int(i64::MAX))));
    assert!(matches!(decode_tree(b"i-9223372036854775808e"), Some(Value::Int(i64::MIN))));
}

#[test]
fn nesting_is_bounded() {
    let nested = |depth: usize| {
        let mut v = vec![b'l'; depth];
        v.extend(vec![b'e'; depth]);
        v
    };
    assert!(is_well_formed(&nested(64)));
    assert!(!is_well_formed(&nested(65)));
    assert!(!is_well_formed(&nested(100000)));
}

#[test]
fn scrape_url_replaces_announce() {
    let info = info_single(10000, 4096, 3);
    let t = TorrentInfo::decode(&torrent_bytes(&info)).unwrap();
    let torrent = Torrent::new(t, "/tmp".to_string());
    assert_eq!(torrent.scrape_url(), "http://tracker.example/scrape");
    assert!(torrent
        .scrape_request_url()
        .starts_with("http://tracker.example/scrape?info_hash=%"));
}

#[test]
fn scrape_url_without_announce_is_unchanged() {
    let info = info_single(10000, 4096, 3);
    let mut t = TorrentInfo::decode(&torrent_bytes(&info)).unwrap();
    t.announce = "http://tracker.example/tr".to_string();
    let torrent = Torrent::new(t, "/tmp".to_string());
    assert_eq!(torrent.scrape_url(), "http://tracker.example/tr");
}

#[test]
fn announce_url_carries_counters() {
    let info = info_single(10000, 4096, 3);
    let mut t = TorrentInfo::decode(&torrent_bytes(&info)).unwrap();
    t.infohash = vec![b'a'; 20];
    let mut torrent = Torrent::new(t, "/tmp".to_string());
    torrent.record_download(1000);
    let url = torrent.announce_url("-TE0001-123456654321", "BqNcyuLEsZ");
    assert_eq!(
        url,
        "http://tracker.example/announce?info_hash=aaaaaaaaaaaaaaaaaaaa\
         &peer_id=-TE0001-123456654321&port=44000&uploaded=0&downloaded=1000\
         &left=9000&event=started&key=BqNcyuLEsZ&compact=1"
    );
}
