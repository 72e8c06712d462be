//! Remote participants: their addresses, and how tracker responses list them.
use vstd::prelude::*;
use crate::text::{chars_of, string_of};
use crate::tree::{Value, bytes_eq, get, get_field, nat_field, nat_of, text_field, text_of};
use vstd::string::StringSliceAdditionalSpecFns;

verus! {

/// An IP address: four octets, or eight 16-bit segments.
#[derive(Debug, Clone, Copy, PartialEq, Eq, Structural)]
pub enum IpAddress {
    V4(u8, u8, u8, u8),
    V6(u16, u16, u16, u16, u16, u16, u16, u16),
}

/// An IP address and a port.
#[derive(Debug, Clone, Copy, PartialEq, Eq, Structural)]
pub struct SocketAddress {
    pub ip: IpAddress,
    pub port: u16,
}

/// A remote participant: where it listens, and its 20-byte identifier when
/// the tracker gave one.
#[derive(Debug, Clone)]
pub struct Peer {
    pub address: SocketAddress,
    pub peer_id: Option<Vec<u8>>,
}

/// The bytes of an optional identifier.
pub open spec fn opt_bytes(o: Option<Vec<u8>>) -> Option<Seq<u8>> {
    match o {
        Some(v) => Some(v@),
        None => None,
    }
}

impl PartialEq for Peer {
    fn eq(&self, other: &Peer) -> (r: bool) {
        let same_id = match (&self.peer_id, &other.peer_id) {
            (Some(a), Some(b)) => bytes_eq(a.as_slice(), b.as_slice()),
            (None, None) => true,
            _ => false,
        };
        self.address == other.address && same_id
    }
}

impl vstd::std_specs::cmp::PartialEqSpecImpl for Peer {
    open spec fn obeys_eq_spec() -> bool {
        true
    }

    open spec fn eq_spec(&self, other: &Peer) -> bool {
        self.address == other.address && opt_bytes(self.peer_id) == opt_bytes(other.peer_id)
    }
}

/// A 16-bit number from two bytes in network order.
pub fn dbyte(hi: u8, lo: u8) -> (r: u16)
    ensures
        r == hi as int * 256 + lo as int,
{
    let r = ((hi as u16) << 8u16) | (lo as u16);
    assert(r == hi as u16 * 256 + lo as u16) by (bit_vector)
        requires
            r == ((hi as u16) << 8u16) | (lo as u16),
    ;
    r
}

/// The IPv4 peer that a 6-byte compact record describes: four address
/// octets, then the port in network order.
pub open spec fn compact_peer(b: Seq<u8>) -> SocketAddress {
    SocketAddress {
        ip: IpAddress::V4(b[0], b[1], b[2], b[3]),
        port: (b[4] as int * 256 + b[5] as int) as u16,
    }
}

/// The 16-bit number at `b[i]`, `b[i + 1]` in network order.
pub open spec fn be16(b: Seq<u8>, i: int) -> u16 {
    (b[i] as int * 256 + b[i + 1] as int) as u16
}

/// The IPv6 peer that an 18-byte record describes: sixteen address bytes,
/// then the port, all in network order.
pub open spec fn compact_peer6(b: Seq<u8>) -> SocketAddress {
    SocketAddress {
        ip: IpAddress::V6(
            be16(b, 0),
            be16(b, 2),
            be16(b, 4),
            be16(b, 6),
            be16(b, 8),
            be16(b, 10),
            be16(b, 12),
            be16(b, 14),
        ),
        port: be16(b, 16),
    }
}

/// The address that a host text names when it is an IP address.
pub uninterp spec fn host_ip_of(s: Seq<char>) -> Option<IpAddress>;

/// Relies on `url::Host::parse`: an IPv4 address, or an IPv6 address written
/// in brackets, becomes that address; any other host is no address.
#[verifier::external_body]
fn parse_host_ip(s: &str) -> (r: Option<IpAddress>)
    ensures
        r == host_ip_of(s@),
{
    match url::Host::parse(s) {
        Ok(url::Host::Ipv4(a)) => {
            let o = a.octets();
            Some(IpAddress::V4(o[0], o[1], o[2], o[3]))
        },
        Ok(url::Host::Ipv6(a)) => {
            let g = a.segments();
            Some(IpAddress::V6(g[0], g[1], g[2], g[3], g[4], g[5], g[6], g[7]))
        },
        _ => None,
    }
}

/// The address that the "ip" text of a peer entry names: IPv6 text, which
/// holds a colon, is read in brackets.
pub open spec fn ip_text_address(s: Seq<char>) -> Option<IpAddress> {
    if s.contains(':') {
        host_ip_of(seq!['['] + s + seq![']'])
    } else {
        host_ip_of(s)
    }
}

/// Reads the "ip" text of a peer entry as an address.
pub fn parse_ip(s: &String) -> (r: Option<IpAddress>)
    ensures
        r == ip_text_address(s@),
{
    let chars = chars_of(s.as_str());
    let mut i: usize = 0;
    while i < chars.len()
        invariant
            chars@ == s@,
            i <= chars@.len(),
            forall|j: int| 0 <= j < i ==> chars@[j] != ':',
        decreases chars.len() - i,
    {
        if chars[i] == ':' {
            let mut b: Vec<char> = Vec::new();
            b.push('[');
            let mut k: usize = 0;
            while k < chars.len()
                invariant
                    k <= chars@.len(),
                    b@ == seq!['['] + chars@.take(k as int),
                decreases chars.len() - k,
            {
                b.push(chars[k]);
                k += 1;
                assert(b@ =~= seq!['['] + chars@.take(k as int));
            }
            b.push(']');
            assert(chars@.take(chars.len() as int) =~= chars@);
            assert(b@ =~= seq!['['] + s@ + seq![']']);
            assert(s@.contains(':'));
            let bracketed = string_of(&b);
            return parse_host_ip(bracketed.as_str());
        }
        i += 1;
    }
    parse_host_ip(s.as_str())
}

/// The peer that a dictionary entry of a peer list describes, if it is well
/// formed: an "ip" text naming an address, a "port" that fits 16 bits, and
/// optionally a 20-byte "peer_id".
pub open spec fn dict_peer(d: Value) -> Option<(SocketAddress, Option<Seq<u8>>)> {
    let ip = match text_of(get(d, "ip".spec_bytes())) {
        Some(t) => ip_text_address(t),
        None => None,
    };
    let port = nat_of(get(d, "port".spec_bytes()));
    if ip is Some && port is Some && port->0 <= u16::MAX {
        Some((
            SocketAddress { ip: ip->0, port: port->0 as u16 },
            match get(d, "peer_id".spec_bytes()) {
                Some(Value::Bytes(b)) => if b@.len() == 20 { Some(b@) } else { None },
                _ => None,
            },
        ))
    } else {
        None
    }
}

impl Peer {
    /// The peer of a 6-byte compact record, with no identifier.
    pub fn from_6byte(bytes: &[u8; 6]) -> (r: Peer)
        ensures
            r.address == compact_peer(bytes@),
            r.peer_id is None,
    {
        Peer {
            address: SocketAddress {
                ip: IpAddress::V4(bytes[0], bytes[1], bytes[2], bytes[3]),
                port: dbyte(bytes[4], bytes[5]),
            },
            peer_id: None,
        }
    }

    /// The peer of an 18-byte IPv6 record, with no identifier.
    pub fn from_18byte(bytes: [u8; 18]) -> (r: Peer)
        ensures
            r.address == compact_peer6(bytes@),
            r.peer_id is None,
    {
        Peer {
            address: SocketAddress {
                ip: IpAddress::V6(
                    dbyte(bytes[0], bytes[1]),
                    dbyte(bytes[2], bytes[3]),
                    dbyte(bytes[4], bytes[5]),
                    dbyte(bytes[6], bytes[7]),
                    dbyte(bytes[8], bytes[9]),
                    dbyte(bytes[10], bytes[11]),
                    dbyte(bytes[12], bytes[13]),
                    dbyte(bytes[14], bytes[15]),
                ),
                port: dbyte(bytes[16], bytes[17]),
            },
            peer_id: None,
        }
    }

    /// The peer that a dictionary entry of a peer list describes.
    pub fn from_value(d: &Value) -> (r: Option<Peer>)
        ensures
            r is Some <==> dict_peer(*d) is Some,
            r matches Some(p) ==> (p.address, opt_bytes(p.peer_id)) == dict_peer(*d)->0,
    {
        let ip = match text_field(get_field(d, "ip")) {
            Some(t) => match parse_ip(&t) {
                Some(a) => a,
                None => return None,
            },
            None => return None,
        };
        let port = match nat_field(get_field(d, "port")) {
            Some(p) => if p <= 65535 { p as u16 } else { return None },
            None => return None,
        };
        let peer_id = match get_field(d, "peer_id") {
            Some(Value::Bytes(b)) => if b.len() == 20 { Some(b.clone()) } else { None },
            _ => None,
        };
        Some(Peer { address: SocketAddress { ip, port }, peer_id })
    }
}

/// The peers of a compact list: one per whole 6-byte record; trailing bytes
/// that do not fill a record are dropped.
pub fn peers_from_compact(b: &[u8]) -> (r: Vec<Peer>)
    ensures
        r@.len() == b@.len() / 6,
        forall|i: int|
            0 <= i < r@.len() ==> (#[trigger] r@[i]).address == compact_peer(
                b@.subrange(6 * i, 6 * i + 6),
            ) && r@[i].peer_id is None,
{
    let mut out: Vec<Peer> = Vec::new();
    let len = b.len();
    let n = len / 6;
    let mut i: usize = 0;
    while i < n
        invariant
            len == b@.len(),
            n == b@.len() / 6,
            i <= n,
            out@.len() == i,
            forall|j: int|
                0 <= j < i ==> (#[trigger] out@[j]).address == compact_peer(
                    b@.subrange(6 * j, 6 * j + 6),
                ) && out@[j].peer_id is None,
        decreases n - i,
    {
        assert(6 * i + 6 <= b@.len()) by (nonlinear_arith)
            requires
                i < n,
                n == b@.len() / 6,
        ;
        let k = 6 * i;
        let rec: [u8; 6] = [b[k], b[k + 1], b[k + 2], b[k + 3], b[k + 4], b[k + 5]];
        let p = Peer::from_6byte(&rec);
        assert(rec@ =~= b@.subrange(6 * i as int, 6 * i as int + 6));
        out.push(p);
        i += 1;
    }
    out
}

} // verus!
