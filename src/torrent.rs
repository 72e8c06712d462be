//! The torrent description: its typed model, the decoder from the tree
//! format, and the identity hash of its "info" dictionary.
use crypto::digest::Digest;
use vstd::prelude::*;
use vstd::string::StringSliceAdditionalSpecFns;
use crate::announce::{AnnounceResult, TrackerError};
use crate::peer::Peer;
use crate::scrape::{ScrapeInfo, TorrentScrape, files_of, scrape_info_ok, scrape_lookup, scrape_matches};
use crate::text::{
    chars_of, decimal_of, hex_of, lemma_hex_len, percent_encode, percent_of, push_decimal,
    push_str, replace, replace_all, string_of, to_hex,
};
use crate::tree::{
    Value, bytes_of, decode_tree, field_bytes, find_field_bytes, lookup, parsed, get, get_field,
    int_field,
    int_of, nat_field, nat_of, opt_view, opt_views, text_field, text_list_field, text_list_of,
    text_of,
};

verus! {

/// One file of the payload.
#[derive(Debug, Clone)]
pub struct FileInfo {
    pub length: u64,
    pub md5sum: Option<String>,
    pub path: Option<Vec<String>>,
}

/// The payload: one file, or an ordered list of files.
#[derive(Debug, Clone)]
pub enum Payload {
    SingleFile(FileInfo),
    MultiFile(Vec<FileInfo>),
}

/// The "info" part of a torrent description.
#[derive(Debug, Clone)]
pub struct MetaInfo {
    pub piece_length: u64,
    pub pieces: Vec<u8>,
    pub private: bool,
    pub name: String,
    pub payload: Payload,
}

/// A decoded torrent description together with its identity hash.
#[derive(Debug, Clone)]
pub struct TorrentInfo {
    pub announce: String,
    pub announce_list: Option<Vec<String>>,
    pub creation_date: Option<i64>,
    pub comment: Option<String>,
    pub created_by: Option<String>,
    pub encoding: Option<String>,
    pub metainfo: MetaInfo,
    pub infohash: Vec<u8>,
}

/// Why a torrent description was rejected.
#[derive(Debug, Clone, Copy, PartialEq, Eq, Structural)]
pub enum DecodeError {
    /// The bytes are not one well-formed tree.
    NotATree,
    /// The tree is not a dictionary.
    NotADictionary,
    /// There is no "info" entry, or it is not a dictionary.
    MissingInfo,
    /// A mandatory field is missing or has the wrong shape, or the piece
    /// hashes do not fit the payload.
    Malformed,
}

/// The SHA-1 digest of a byte sequence.
pub uninterp spec fn sha1_of(b: Seq<u8>) -> Seq<u8>;

/// Relies on rust-crypto's `Sha1`: the SHA-1 digest of the input, whose
/// output is 160 bits.
#[verifier::external_body]
fn sha1(b: &[u8]) -> (r: Vec<u8>)
    ensures
        r@ == sha1_of(b@),
        r@.len() == 20,
{
    let mut h = crypto::sha1::Sha1::new();
    h.input(b);
    let mut out = [0u8; 20];
    h.result(&mut out);
    out.to_vec()
}

/// Number of pieces that `total` bytes take in pieces of `plen` bytes.
pub open spec fn ceil_div(total: nat, plen: nat) -> nat
    recommends
        plen > 0,
{
    if total % plen == 0 { total / plen } else { total / plen + 1 }
}

/// Sum of the lengths of a list of files.
pub open spec fn sum_lengths(files: Seq<FileInfo>) -> nat
    decreases files.len(),
{
    if files.len() == 0 { 0 } else { sum_lengths(files.drop_last()) + files.last().length as nat }
}

/// Total payload size.
pub open spec fn total_size(p: Payload) -> nat {
    match p {
        Payload::SingleFile(f) => f.length as nat,
        Payload::MultiFile(fs) => sum_lengths(fs@),
    }
}

/// Sum of the "length" fields of a list of file dictionaries.
pub open spec fn listed_total(l: Seq<Value>) -> nat
    decreases l.len(),
{
    if l.len() == 0 {
        0
    } else {
        listed_total(l.drop_last()) + match nat_of(get(l.last(), "length".spec_bytes())) {
            Some(n) => n as nat,
            None => 0,
        }
    }
}

/// A file dictionary holds what a file entry needs: a length, and in a
/// multi-file payload a path.
pub open spec fn file_ok(d: Value, multi: bool) -> bool {
    &&& nat_of(get(d, "length".spec_bytes())) is Some
    &&& multi ==> text_list_of(get(d, "path".spec_bytes())) is Some
}

/// `f` is the file entry that the dictionary `d` describes.
pub open spec fn file_matches(f: FileInfo, d: Value, multi: bool) -> bool {
    &&& Some(f.length) == nat_of(get(d, "length".spec_bytes()))
    &&& opt_view(f.md5sum) == text_of(get(d, "md5sum".spec_bytes()))
    &&& multi ==> opt_views(f.path) == text_list_of(get(d, "path".spec_bytes()))
    &&& !multi ==> f.path is None
}

/// The total payload size that an "info" dictionary describes.
pub open spec fn info_total(info: Value) -> nat {
    match get(info, "files".spec_bytes()) {
        Some(Value::List(l)) => listed_total(l@),
        _ => match nat_of(get(info, "length".spec_bytes())) {
            Some(n) => n as nat,
            None => 0,
        },
    }
}

/// An "info" dictionary that describes a payload completely and consistently.
pub open spec fn info_ok(info: Value) -> bool {
    let plen = nat_of(get(info, "piece length".spec_bytes()));
    let pieces = bytes_of(get(info, "pieces".spec_bytes()));
    &&& plen matches Some(p) && p > 0
    &&& pieces is Some
    &&& text_of(get(info, "name".spec_bytes())) is Some
    &&& match get(info, "files".spec_bytes()) {
        Some(Value::List(l)) => forall|i: int| 0 <= i < l@.len() ==> file_ok(#[trigger] l@[i], true),
        Some(_) => false,
        None => file_ok(info, false),
    }
    &&& info_total(info) <= u64::MAX
    &&& pieces->0.len() == 20 * ceil_div(info_total(info), plen->0 as nat)
}

/// `m` is the model of the "info" dictionary `info`.
pub open spec fn metainfo_matches(m: MetaInfo, info: Value) -> bool {
    &&& Some(m.piece_length) == nat_of(get(info, "piece length".spec_bytes()))
    &&& Some(m.pieces@) == bytes_of(get(info, "pieces".spec_bytes()))
    &&& Some(m.name@) == text_of(get(info, "name".spec_bytes()))
    &&& m.private == (int_of(get(info, "private".spec_bytes())) matches Some(n) && n > 0)
    &&& match get(info, "files".spec_bytes()) {
        Some(Value::List(l)) => m.payload matches Payload::MultiFile(fs) && fs@.len() == l@.len()
            && forall|i: int| 0 <= i < l@.len() ==> file_matches(#[trigger] fs@[i], l@[i], true),
        _ => m.payload matches Payload::SingleFile(f) && file_matches(f, info, false),
    }
}

/// A tree that describes a complete torrent.
pub open spec fn torrent_ok(v: Value) -> bool {
    &&& get(v, "info".spec_bytes()) matches Some(info) && info is Dict && info_ok(info)
    &&& text_of(get(v, "announce".spec_bytes())) is Some
}

/// `t` is the model of the torrent tree `v` (its identity hash aside).
pub open spec fn torrent_matches(t: TorrentInfo, v: Value) -> bool {
    let info = get(v, "info".spec_bytes())->0;
    &&& metainfo_matches(t.metainfo, info)
    &&& Some(t.announce@) == text_of(get(v, "announce".spec_bytes()))
    &&& opt_views(t.announce_list) == text_list_of(get(v, "announce-list".spec_bytes()))
    &&& t.creation_date == int_of(get(v, "creation date".spec_bytes()))
    &&& opt_view(t.comment) == text_of(get(v, "comment".spec_bytes()))
    &&& opt_view(t.created_by) == text_of(get(v, "created by".spec_bytes()))
    &&& opt_view(t.encoding) == text_of(get(v, "encoding".spec_bytes()))
}

/// The error that a torrent tree is rejected with, if any.
pub open spec fn torrent_error(v: Value) -> Option<DecodeError> {
    if !(v is Dict) {
        Some(DecodeError::NotADictionary)
    } else if !(get(v, "info".spec_bytes()) matches Some(info) && info is Dict) {
        Some(DecodeError::MissingInfo)
    } else if !torrent_ok(v) {
        Some(DecodeError::Malformed)
    } else {
        None
    }
}

/// The error that decoding `bytes` gives, if any: bytes that are not one
/// tree, a tree that is no torrent, or an "info" value whose bytes cannot be
/// found.
pub open spec fn decode_error(bytes: Seq<u8>) -> Option<DecodeError> {
    match parsed(bytes) {
        None => Some(DecodeError::NotATree),
        Some(v) => if torrent_error(v) is Some {
            torrent_error(v)
        } else if field_bytes(bytes, "info".spec_bytes()) is None {
            Some(DecodeError::MissingInfo)
        } else {
            None
        },
    }
}

/// `t` is what decoding `bytes` gives: the model of the decoded tree, its
/// identity hash the SHA-1 digest of the "info" value's bytes as they stand
/// in the input.
pub open spec fn decodes_to(bytes: Seq<u8>, t: TorrentInfo) -> bool {
    &&& parsed(bytes) matches Some(v) && torrent_matches(t, v)
    &&& field_bytes(bytes, "info".spec_bytes()) matches Some(ib) && t.infohash@ == sha1_of(ib)
    &&& t.wf()
}

impl MetaInfo {
    /// Well-formed: positive piece length, a payload size that fits, and one
    /// 20-byte hash per piece.
    pub open spec fn wf(&self) -> bool {
        &&& self.piece_length > 0
        &&& total_size(self.payload) <= u64::MAX
        &&& self.pieces@.len() == 20 * ceil_div(
            total_size(self.payload),
            self.piece_length as nat,
        )
    }

    /// Number of pieces of the payload.
    pub open spec fn spec_num_pieces(&self) -> nat {
        ceil_div(total_size(self.payload), self.piece_length as nat)
    }
}

impl TorrentInfo {
    /// Well-formed: a well-formed "info" part and a 20-byte identity hash.
    pub open spec fn wf(&self) -> bool {
        &&& self.metainfo.wf()
        &&& self.infohash@.len() == 20
    }
}

fn file_from_value(d: &Value, multi: bool) -> (r: Option<FileInfo>)
    ensures
        r is Some <==> file_ok(*d, multi),
        r matches Some(f) ==> file_matches(f, *d, multi),
{
    let length = match nat_field(get_field(d, "length")) {
        Some(n) => n,
        None => return None,
    };
    let md5sum = text_field(get_field(d, "md5sum"));
    let path = if multi {
        match text_list_field(get_field(d, "path")) {
            Some(p) => Some(p),
            None => return None,
        }
    } else {
        None
    };
    Some(FileInfo { length, md5sum, path })
}

proof fn lemma_sum_lengths_push(fs: Seq<FileInfo>, f: FileInfo)
    ensures
        sum_lengths(fs.push(f)) == sum_lengths(fs) + f.length,
{
    assert(fs.push(f).drop_last() =~= fs);
}

/// The file list of a multi-file payload, with the sum of its lengths when
/// that sum fits.
fn files_from_list(l: &Vec<Value>) -> (r: Option<(Vec<FileInfo>, Option<u64>)>)
    ensures
        r is Some <==> forall|i: int| 0 <= i < l@.len() ==> file_ok(#[trigger] l@[i], true),
        r matches Some((fs, total)) ==> {
            &&& fs@.len() == l@.len()
            &&& forall|i: int| 0 <= i < l@.len() ==> file_matches(#[trigger] fs@[i], l@[i], true)
            &&& sum_lengths(fs@) == listed_total(l@)
            &&& (total is Some <==> listed_total(l@) <= u64::MAX)
            &&& total matches Some(t) ==> t == listed_total(l@)
        },
{
    let mut fs: Vec<FileInfo> = Vec::new();
    let mut total: Option<u64> = Some(0);
    let mut i: usize = 0;
    while i < l.len()
        invariant
            i <= l@.len(),
            fs@.len() == i,
            forall|j: int| 0 <= j < i ==> file_ok(#[trigger] l@[j], true),
            forall|j: int| 0 <= j < i ==> file_matches(#[trigger] fs@[j], l@[j], true),
            sum_lengths(fs@) == listed_total(l@.take(i as int)),
            total is Some <==> listed_total(l@.take(i as int)) <= u64::MAX,
            total matches Some(t) ==> t == listed_total(l@.take(i as int)),
        decreases l.len() - i,
    {
        match file_from_value(&l[i], true) {
            Some(f) => {
                assert(l@.take(i + 1).drop_last() =~= l@.take(i as int));
                proof {
                    lemma_sum_lengths_push(fs@, f);
                }
                total = match total {
                    Some(t) => t.checked_add(f.length),
                    None => None,
                };
                fs.push(f);
            },
            None => return None,
        }
        i += 1;
    }
    assert(l@.take(l.len() as int) =~= l@);
    Some((fs, total))
}

/// `ceil(total / plen)`, for a positive piece length.
pub fn piece_count(total: u64, plen: u64) -> (r: u64)
    requires
        plen > 0,
    ensures
        r == ceil_div(total as nat, plen as nat),
{
    if total % plen == 0 {
        total / plen
    } else {
        assert(plen >= 2);
        assert(total / plen <= total / 2) by (nonlinear_arith)
            requires
                plen >= 2,
        ;
        total / plen + 1
    }
}

fn metainfo_from_value(info: &Value) -> (r: Option<MetaInfo>)
    ensures
        r is Some <==> info_ok(*info),
        r matches Some(m) ==> metainfo_matches(m, *info) && m.wf(),
{
    let piece_length = match nat_field(get_field(info, "piece length")) {
        Some(n) => n,
        None => return None,
    };
    if piece_length == 0 {
        return None;
    }
    let pieces = match get_field(info, "pieces") {
        Some(Value::Bytes(b)) => b.clone(),
        _ => return None,
    };
    let name = match text_field(get_field(info, "name")) {
        Some(n) => n,
        None => return None,
    };
    let private = match int_field(get_field(info, "private")) {
        Some(n) => n > 0,
        None => false,
    };
    let (payload, total) = match get_field(info, "files") {
        Some(Value::List(l)) => match files_from_list(l) {
            Some((fs, total)) => (Payload::MultiFile(fs), total),
            None => return None,
        },
        Some(_) => return None,
        None => match file_from_value(info, false) {
            Some(f) => {
                let n = f.length;
                (Payload::SingleFile(f), Some(n))
            },
            None => return None,
        },
    };
    let total = match total {
        Some(t) => t,
        None => return None,
    };
    let count = piece_count(total, piece_length);
    if pieces.len() % 20 != 0 || pieces.len() / 20 != count as usize
        || count > (usize::MAX / 20) as u64 {
        return None;
    }
    Some(MetaInfo { piece_length, pieces, private, name, payload })
}

impl TorrentInfo {
    /// Builds the torrent model from a decoded tree and the bytes of its
    /// "info" value, whose SHA-1 digest is the identity hash.
    pub fn from_value(v: &Value, info_bytes: &[u8]) -> (r: Result<TorrentInfo, DecodeError>)
        ensures
            r is Ok <==> torrent_error(*v) is None,
            r matches Err(e) ==> Some(e) == torrent_error(*v),
            r matches Ok(t) ==> torrent_matches(t, *v) && t.wf() && t.infohash@ == sha1_of(
                info_bytes@,
            ),
    {
        let infohash = sha1(info_bytes);
        TorrentInfo::build(v, infohash)
    }

    fn build(v: &Value, infohash: Vec<u8>) -> (r: Result<TorrentInfo, DecodeError>)
        ensures
            r is Ok <==> torrent_error(*v) is None,
            r matches Err(e) ==> Some(e) == torrent_error(*v),
            r matches Ok(t) ==> torrent_matches(t, *v) && t.metainfo.wf() && t.infohash == infohash,
    {
        if !matches!(v, Value::Dict(_)) {
            return Err(DecodeError::NotADictionary);
        }
        let info = match get_field(v, "info") {
            Some(i) => i,
            None => return Err(DecodeError::MissingInfo),
        };
        if !matches!(info, Value::Dict(_)) {
            return Err(DecodeError::MissingInfo);
        }
        let metainfo = match metainfo_from_value(info) {
            Some(m) => m,
            None => return Err(DecodeError::Malformed),
        };
        let announce = match text_field(get_field(v, "announce")) {
            Some(a) => a,
            None => return Err(DecodeError::Malformed),
        };
        Ok(TorrentInfo {
            announce,
            announce_list: text_list_field(get_field(v, "announce-list")),
            creation_date: int_field(get_field(v, "creation date")),
            comment: text_field(get_field(v, "comment")),
            created_by: text_field(get_field(v, "created by")),
            encoding: text_field(get_field(v, "encoding")),
            metainfo,
            infohash,
        })
    }
}

proof fn lemma_sum_prefix(fs: Seq<FileInfo>, i: int)
    requires
        0 <= i <= fs.len(),
    ensures
        sum_lengths(fs.take(i)) <= sum_lengths(fs),
    decreases fs.len() - i,
{
    if i < fs.len() {
        lemma_sum_prefix(fs, i + 1);
        assert(fs.take(i + 1).drop_last() =~= fs.take(i));
    } else {
        assert(fs.take(i) =~= fs);
    }
}

impl TorrentInfo {
    /// Decodes a torrent description from its bytes.
    pub fn decode(bytes: &[u8]) -> (r: Result<TorrentInfo, DecodeError>)
        ensures
            r is Ok <==> decode_error(bytes@) is None,
            r matches Err(e) ==> Some(e) == decode_error(bytes@),
            r matches Ok(t) ==> decodes_to(bytes@, t),
    {
        let v = match decode_tree(bytes) {
            Some(v) => v,
            None => return Err(DecodeError::NotATree),
        };
        match find_field_bytes(bytes, "info".as_bytes()) {
            Some(info_bytes) => TorrentInfo::from_value(&v, info_bytes),
            None => match TorrentInfo::build(&v, Vec::new()) {
                Ok(_) => Err(DecodeError::MissingInfo),
                Err(e) => Err(e),
            },
        }
    }

    /// Lowercase hexadecimal text of the identity hash.
    pub fn hash_string(&self) -> (r: String)
        requires
            self.infohash@.len() == 20,
        ensures
            r@ == hex_of(self.infohash@),
            r@.len() == 40,
            forall|i: int| 0 <= i < 40 ==> ('0' <= #[trigger] r@[i] <= '9') || ('a' <= r@[i] <= 'f'),
    {
        proof {
            lemma_hex_len(self.infohash@);
        }
        to_hex(self.infohash.as_slice())
    }

    /// The identity hash percent-encoded for a query string.
    pub fn urlencoded_hash(&self) -> (r: String)
        ensures
            r@ == percent_of(self.infohash@),
    {
        percent_encode(self.infohash.as_slice())
    }

    /// Total payload size: the single file's length, or the sum over all files.
    pub fn payload_size(&self) -> (r: u64)
        requires
            total_size(self.metainfo.payload) <= u64::MAX,
        ensures
            r == total_size(self.metainfo.payload),
    {
        match &self.metainfo.payload {
            Payload::SingleFile(f) => f.length,
            Payload::MultiFile(fs) => {
                let mut sum: u64 = 0;
                let mut i: usize = 0;
                while i < fs.len()
                    invariant
                        i <= fs@.len(),
                        sum_lengths(fs@) <= u64::MAX,
                        sum == sum_lengths(fs@.take(i as int)),
                    decreases fs.len() - i,
                {
                    proof {
                        lemma_sum_prefix(fs@, i + 1);
                        assert(fs@.take(i + 1).drop_last() =~= fs@.take(i as int));
                    }
                    sum = sum + fs[i].length;
                    i += 1;
                }
                assert(fs@.take(fs.len() as int) =~= fs@);
                sum
            },
        }
    }

    /// Number of pieces: the payload size divided by the piece length,
    /// rounded up.
    pub fn num_pieces(&self) -> (r: u64)
        requires
            self.metainfo.wf(),
        ensures
            r == self.metainfo.spec_num_pieces(),
    {
        let total = self.payload_size();
        piece_count(total, self.metainfo.piece_length)
    }
}

/// Decoding is deterministic and the stored identity is the SHA-1 digest of
/// the "info" value's bytes as they stand in the input: hashing them again
/// gives the stored hash, and two decodings of the same bytes carry the same
/// hash.
pub proof fn lemma_infohash_reproducible(bytes: Seq<u8>, t: TorrentInfo, u: TorrentInfo)
    requires
        decodes_to(bytes, t),
        decodes_to(bytes, u),
    ensures
        t.infohash@ == sha1_of(field_bytes(bytes, "info".spec_bytes())->0),
        t.infohash@ == u.infohash@,
        t.infohash@.len() == 20,
{
}

/// Every well-formed "info" part carries one 20-byte hash per piece, and the
/// number of pieces is the payload size divided by the piece length, rounded
/// up.
pub proof fn lemma_piece_hashes_cover_payload(m: MetaInfo)
    requires
        m.wf(),
    ensures
        m.pieces@.len() == 20 * m.spec_num_pieces(),
        m.spec_num_pieces() * m.piece_length >= total_size(m.payload),
        m.spec_num_pieces() == 0 || (m.spec_num_pieces() - 1) * m.piece_length < total_size(
            m.payload,
        ),
{
    let t = total_size(m.payload);
    let p = m.piece_length as nat;
    let q = t / p;
    let r = t % p;
    assert(t == p * q + r && r < p) by (nonlinear_arith)
        requires
            p > 0,
            q == t / p,
            r == t % p,
    ;
    assert(q * p <= t && (q + 1) * p > t) by (nonlinear_arith)
        requires
            t == p * q + r,
            r < p,
    ;
    if r != 0 {
        assert(q * p < t) by (nonlinear_arith)
            requires
                t == p * q + r,
                r > 0,
        ;
    } else if q > 0 {
        assert((q - 1) * p < t) by (nonlinear_arith)
            requires
                t == p * q,
                p > 0,
                q > 0,
        ;
    }
}

/// Lifecycle state of a torrent in a session.
#[derive(Debug, Clone, Copy, PartialEq, Eq, Structural)]
pub enum Status {
    /// No traffic in either direction.
    Stopped,
    /// Fetching the payload.
    Downloading,
    /// Serving the complete payload.
    Seeding,
}

/// Bytes moved for one torrent.
#[derive(Debug, Clone, Copy, PartialEq, Eq, Structural)]
pub struct TrafficInfo {
    pub uploaded_bytes: u64,
    pub downloaded_bytes: u64,
}

/// The peers known to one torrent's session.
#[derive(Debug)]
pub struct SessionInfo {
    pub peers: Vec<Peer>,
}

/// A torrent held by a client: its description, where its payload goes, and
/// its session counters.
#[derive(Debug)]
pub struct Torrent {
    pub info: TorrentInfo,
    pub status: Status,
    pub destination_path: String,
    pub traffic: TrafficInfo,
    pub session: SessionInfo,
}

/// Port announced to trackers.
pub const LISTEN_PORT: u64 = 44000;

/// Bytes still to fetch: payload size less bytes downloaded, never below zero.
pub open spec fn bytes_left(total: nat, downloaded: nat) -> nat {
    if downloaded <= total { (total - downloaded) as nat } else { 0 }
}

/// The scrape address of a tracker: "announce" replaced by "scrape".
pub open spec fn scrape_url_of(announce: Seq<char>) -> Seq<char> {
    replace_all(announce, "announce"@, "scrape"@)
}

/// The announce request for `t`: its tracker address and the query
/// parameters, a compact peer list asked for.
pub open spec fn announce_query(t: Torrent, peer_id: Seq<char>, key: Seq<char>) -> Seq<char> {
    t.info.announce@ + "?info_hash="@ + percent_of(t.info.infohash@) + "&peer_id="@ + peer_id
        + "&port="@ + decimal_of(LISTEN_PORT as nat) + "&uploaded="@ + decimal_of(
        t.traffic.uploaded_bytes as nat,
    ) + "&downloaded="@ + decimal_of(t.traffic.downloaded_bytes as nat) + "&left="@
        + decimal_of(
        bytes_left(total_size(t.info.metainfo.payload), t.traffic.downloaded_bytes as nat),
    ) + "&event=started"@ + "&key="@ + key + "&compact=1"@
}

impl Torrent {
    /// A stopped torrent with no traffic and no known peers.
    pub fn new(info: TorrentInfo, destination_path: String) -> (r: Torrent)
        ensures
            r.info == info,
            r.destination_path == destination_path,
            r.status == Status::Stopped,
            r.traffic == (TrafficInfo { uploaded_bytes: 0, downloaded_bytes: 0 }),
            r.session.peers@.len() == 0,
    {
        Torrent {
            info,
            status: Status::Stopped,
            destination_path,
            traffic: TrafficInfo { uploaded_bytes: 0, downloaded_bytes: 0 },
            session: SessionInfo { peers: Vec::new() },
        }
    }

    /// The tracker's scrape address, derived from the announce address by
    /// replacing "announce" with "scrape"; an address without that word is
    /// left as it is.
    pub fn scrape_url(&self) -> (r: String)
        ensures
            r@ == scrape_url_of(self.info.announce@),
    {
        proof {
            reveal_strlit("announce");
        }
        replace(self.info.announce.as_str(), "announce", "scrape")
    }

    /// The scrape request: the scrape address with the identity hash as
    /// `info_hash`.
    pub fn scrape_request_url(&self) -> (r: String)
        ensures
            r@ == scrape_url_of(self.info.announce@) + "?info_hash="@ + percent_of(
                self.info.infohash@,
            ),
    {
        let base = self.scrape_url();
        let mut out = chars_of(base.as_str());
        push_str(&mut out, "?info_hash=");
        let h = self.info.urlencoded_hash();
        push_str(&mut out, h.as_str());
        string_of(&out)
    }

    /// The announce request, with this session's counters.
    pub fn announce_url(&self, peer_id: &str, key: &str) -> (r: String)
        requires
            total_size(self.info.metainfo.payload) <= u64::MAX,
        ensures
            r@ == announce_query(*self, peer_id@, key@),
    {
        let total = self.info.payload_size();
        let down = self.traffic.downloaded_bytes;
        let left = if down <= total { total - down } else { 0 };
        let mut out = chars_of(self.info.announce.as_str());
        push_str(&mut out, "?info_hash=");
        let h = self.info.urlencoded_hash();
        push_str(&mut out, h.as_str());
        push_str(&mut out, "&peer_id=");
        push_str(&mut out, peer_id);
        push_str(&mut out, "&port=");
        push_decimal(&mut out, LISTEN_PORT);
        push_str(&mut out, "&uploaded=");
        push_decimal(&mut out, self.traffic.uploaded_bytes);
        push_str(&mut out, "&downloaded=");
        push_decimal(&mut out, down);
        push_str(&mut out, "&left=");
        push_decimal(&mut out, left);
        push_str(&mut out, "&event=started");
        push_str(&mut out, "&key=");
        push_str(&mut out, key);
        push_str(&mut out, "&compact=1");
        string_of(&out)
    }

    /// This torrent's figures in a scrape response body: `Ok(None)` when the
    /// tracker lists no torrent under its identity hash.
    pub fn scrape_result(&self, body: &[u8]) -> (r: Result<Option<TorrentScrape>, TrackerError>)
        ensures
            r is Ok <==> (parsed(body@) matches Some(v) && scrape_info_ok(v)),
            r matches Err(e) ==> e == TrackerError::Malformed,
            r matches Ok(o) ==> (o is Some <==> lookup(
                files_of(parsed(body@)->0),
                self.info.infohash@,
            ) is Some),
            r matches Ok(Some(s)) ==> scrape_matches(
                s,
                lookup(files_of(parsed(body@)->0), self.info.infohash@)->0,
            ),
    {
        match ScrapeInfo::from_body(body) {
            Ok(info) => {
                let found = info.find(self.info.infohash.as_slice());
                proof {
                    lemma_scrape_lookup(
                        info.torrents@,
                        files_of(parsed(body@)->0),
                        self.info.infohash@,
                    );
                }
                Ok(found)
            },
            Err(e) => Err(e),
        }
    }

    /// Adds `n` downloaded bytes to the counters, saturating at the largest
    /// count.
    pub fn record_download(&mut self, n: u64)
        ensures
            final(self).traffic.downloaded_bytes == (if old(self).traffic.downloaded_bytes + n
                <= u64::MAX {
                old(self).traffic.downloaded_bytes + n
            } else {
                u64::MAX as int
            }),
            final(self).traffic.uploaded_bytes == old(self).traffic.uploaded_bytes,
            final(self).info == old(self).info,
    {
        self.traffic.downloaded_bytes = self.traffic.downloaded_bytes.saturating_add(n);
    }

    /// Takes the peers of a successful announce into the session.
    pub fn record_peers(&mut self, result: AnnounceResult)
        ensures
            final(self).session.peers@ == result.peers@,
            final(self).info == old(self).info,
            final(self).traffic == old(self).traffic,
    {
        self.session.peers = result.peers;
    }
}

proof fn lemma_scrape_lookup(t: Seq<(Vec<u8>, TorrentScrape)>, d: Seq<(Vec<u8>, Value)>, h: Seq<u8>)
    requires
        t.len() == d.len(),
        forall|i: int|
            0 <= i < t.len() ==> (#[trigger] t[i]).0@ == d[i].0@ && scrape_matches(t[i].1, d[i].1),
    ensures
        scrape_lookup(t, h) is Some <==> lookup(d, h) is Some,
        scrape_lookup(t, h) is Some ==> scrape_matches(scrape_lookup(t, h)->0, lookup(d, h)->0),
    decreases t.len(),
{
    if t.len() > 0 {
        assert(t[0].0@ == d[0].0@);
        lemma_scrape_lookup(t.drop_first(), d.drop_first(), h);
    }
}

} // verus!
