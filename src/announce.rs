//! The tracker's answer to an announce: a failure it asserts, or the swarm
//! figures and a list of peers.
use vstd::prelude::*;
use vstd::string::StringSliceAdditionalSpecFns;
use crate::peer::{Peer, SocketAddress, compact_peer, dict_peer, opt_bytes, peers_from_compact};
use crate::text::{chars_of, string_of};
use crate::tree::{
    Value, decode_tree, parsed, get, get_field, nat_field, nat_of, opt_view, text_field, text_of,
};

verus! {

/// The outcome of an announce.
#[derive(Debug)]
pub enum AnnounceResponse {
    Failure(String),
    Success(AnnounceResult),
}

/// What a successful announce reports.
#[derive(Debug)]
pub struct AnnounceResult {
    pub warning_message: Option<String>,
    pub interval: u64,
    pub min_interval: Option<u64>,
    pub tracker_id: Option<String>,
    pub complete: u64,
    pub incomplete: u64,
    pub peers: Vec<Peer>,
}

/// Seconds between announces when the tracker names no interval.
pub const DEFAULT_INTERVAL: u64 = 600;

/// A peer as an address and an optional identifier.
pub open spec fn peer_view(p: Peer) -> (SocketAddress, Option<Seq<u8>>) {
    (p.address, opt_bytes(p.peer_id))
}

/// The views of a list of peers.
pub open spec fn peer_views(ps: Seq<Peer>) -> Seq<(SocketAddress, Option<Seq<u8>>)> {
    Seq::new(ps.len(), |i: int| peer_view(ps[i]))
}

/// The well-formed entries of a dictionary-form peer list, in order; the
/// malformed ones are skipped.
pub open spec fn listed_peers(l: Seq<Value>) -> Seq<(SocketAddress, Option<Seq<u8>>)>
    decreases l.len(),
{
    if l.len() == 0 {
        Seq::empty()
    } else {
        let prev = listed_peers(l.drop_last());
        match dict_peer(l.last()) {
            Some(p) => prev.push(p),
            None => prev,
        }
    }
}

/// The peers of a compact list: one per whole 6-byte record.
pub open spec fn compact_peers(b: Seq<u8>) -> Seq<(SocketAddress, Option<Seq<u8>>)> {
    Seq::new(b.len() / 6, |i: int| (compact_peer(b.subrange(6 * i, 6 * i + 6)), None))
}

/// The peers that an announce response lists, in either form.
pub open spec fn response_peers(v: Value) -> Seq<(SocketAddress, Option<Seq<u8>>)> {
    match get(v, "peers".spec_bytes()) {
        Some(Value::List(l)) => listed_peers(l@),
        Some(Value::Bytes(b)) => compact_peers(b@),
        _ => Seq::empty(),
    }
}

/// The failure that a response asserts: its text, or "unknown error" when
/// the field is not text.
pub open spec fn failure_reason(v: Value) -> Option<Seq<char>> {
    match get(v, "failure reason".spec_bytes()) {
        Some(x) => Some(
            match text_of(Some(x)) {
                Some(t) => t,
                None => "unknown error"@,
            },
        ),
        None => None,
    }
}

/// A numeric field, or `default` when it is absent or not a number.
pub open spec fn nat_or(v: Value, key: Seq<u8>, default: u64) -> u64 {
    match nat_of(get(v, key)) {
        Some(n) => n,
        None => default,
    }
}

/// `r` is the reading of the announce response tree `v`.
pub open spec fn response_matches(r: AnnounceResponse, v: Value) -> bool {
    match failure_reason(v) {
        Some(reason) => r matches AnnounceResponse::Failure(s) && s@ == reason,
        None => match r {
            AnnounceResponse::Success(a) => {
                &&& opt_view(a.warning_message) == text_of(get(v, "warning message".spec_bytes()))
                &&& a.interval == nat_or(v, "interval".spec_bytes(), DEFAULT_INTERVAL)
                &&& a.min_interval == nat_of(get(v, "min interval".spec_bytes()))
                &&& opt_view(a.tracker_id) == text_of(get(v, "tracker id".spec_bytes()))
                &&& a.complete == nat_or(v, "complete".spec_bytes(), 0)
                &&& a.incomplete == nat_or(v, "incomplete".spec_bytes(), 0)
                &&& peer_views(a.peers@) == response_peers(v)
            },
            _ => false,
        },
    }
}

/// Why a tracker exchange gave no answer.
#[derive(Debug, Clone, Copy, PartialEq, Eq, Structural)]
pub enum TrackerError {
    /// The request did not reach the tracker or got no body back.
    Transport,
    /// The body is not a dictionary in the tree format.
    Malformed,
}

fn listed_peers_exec(l: &Vec<Value>) -> (r: Vec<Peer>)
    ensures
        peer_views(r@) == listed_peers(l@),
{
    let mut out: Vec<Peer> = Vec::new();
    let mut i: usize = 0;
    while i < l.len()
        invariant
            i <= l@.len(),
            peer_views(out@) == listed_peers(l@.take(i as int)),
        decreases l.len() - i,
    {
        assert(l@.take(i + 1).drop_last() =~= l@.take(i as int));
        match Peer::from_value(&l[i]) {
            Some(p) => {
                let ghost old_out = out@;
                out.push(p);
                assert(peer_views(out@) =~= peer_views(old_out).push(peer_view(p)));
            },
            None => {},
        }
        i += 1;
    }
    assert(l@.take(l.len() as int) =~= l@);
    out
}

fn failure_text(x: &Value) -> (r: String)
    ensures
        r@ == (match text_of(Some(*x)) {
            Some(t) => t,
            None => "unknown error"@,
        }),
{
    match text_field(Some(x)) {
        Some(t) => t,
        None => string_of(&chars_of("unknown error")),
    }
}

impl AnnounceResponse {
    /// Reads an announce response tree; `None` when it is not a dictionary.
    pub fn from_value(v: &Value) -> (r: Option<AnnounceResponse>)
        ensures
            r is Some <==> v is Dict,
            r matches Some(a) ==> response_matches(a, *v),
    {
        if !matches!(v, Value::Dict(_)) {
            return None;
        }
        match get_field(v, "failure reason") {
            Some(x) => {
                return Some(AnnounceResponse::Failure(failure_text(x)));
            },
            None => {},
        }
        let peers = match get_field(v, "peers") {
            Some(Value::List(l)) => listed_peers_exec(l),
            Some(Value::Bytes(b)) => {
                let ps = peers_from_compact(b.as_slice());
                assert(peer_views(ps@) =~= compact_peers(b@));
                ps
            },
            _ => {
                let ps: Vec<Peer> = Vec::new();
                assert(peer_views(ps@) =~= Seq::empty());
                ps
            },
        };
        let interval = match nat_field(get_field(v, "interval")) {
            Some(n) => n,
            None => DEFAULT_INTERVAL,
        };
        let complete = match nat_field(get_field(v, "complete")) {
            Some(n) => n,
            None => 0,
        };
        let incomplete = match nat_field(get_field(v, "incomplete")) {
            Some(n) => n,
            None => 0,
        };
        Some(
            AnnounceResponse::Success(
                AnnounceResult {
                    warning_message: text_field(get_field(v, "warning message")),
                    interval,
                    min_interval: nat_field(get_field(v, "min interval")),
                    tracker_id: text_field(get_field(v, "tracker id")),
                    complete,
                    incomplete,
                    peers,
                },
            ),
        )
    }

    /// Reads the body of an announce response.
    pub fn from_body(body: &[u8]) -> (r: Result<AnnounceResponse, TrackerError>)
        ensures
            r is Ok <==> (parsed(body@) matches Some(v) && v is Dict),
            r matches Err(e) ==> e == TrackerError::Malformed,
            r matches Ok(a) ==> response_matches(a, parsed(body@)->0),
    {
        match decode_tree(body) {
            Some(v) => match AnnounceResponse::from_value(&v) {
                Some(a) => Ok(a),
                None => Err(TrackerError::Malformed),
            },
            None => Err(TrackerError::Malformed),
        }
    }
}

} // verus!
