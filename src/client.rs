//! The local client: its identity and the torrents it holds.
use vstd::prelude::*;
use crate::CLIENT_VERSION;
use crate::text::{chars_of, padded_decimal, push_padded_decimal, push_str, string_of};
use crate::torrent::{Status, Torrent, TorrentInfo, TrafficInfo};

verus! {

/// A client: twelve characters that identify this installation, and the
/// torrents it manages.
pub struct Client {
    client_rand: String,
    torrents: Vec<Torrent>,
}

/// The client's peer identifier: client tag, four-digit version, and the
/// twelve identifying characters.
pub open spec fn peer_id_of(client_rand: Seq<char>) -> Seq<char> {
    "-TE"@ + padded_decimal(CLIENT_VERSION as nat, 4) + "-"@ + client_rand
}

/// Every character is an ASCII decimal digit.
pub open spec fn all_digits(s: Seq<char>) -> bool {
    forall|i: int| 0 <= i < s.len() ==> '0' <= #[trigger] s[i] <= '9'
}

/// Every character is a printable ASCII character.
pub open spec fn all_printable_ascii(s: Seq<char>) -> bool {
    forall|i: int| 0 <= i < s.len() ==> ' ' <= #[trigger] s[i] <= '~'
}

impl Client {
    /// The twelve identifying characters.
    pub closed spec fn spec_client_rand(&self) -> Seq<char> {
        self.client_rand@
    }

    /// The torrents held.
    pub closed spec fn spec_torrents(&self) -> Seq<Torrent> {
        self.torrents@
    }

    /// Well-formed: twelve identifying characters, all ASCII digits.
    pub open spec fn wf(&self) -> bool {
        &&& self.spec_client_rand().len() == 12
        &&& all_digits(self.spec_client_rand())
    }

    /// A client identified by two numbers, each written as six digits
    /// (taken modulo one million).
    pub fn new(a: u64, b: u64) -> (r: Client)
        ensures
            r.wf(),
            r.spec_client_rand() == padded_decimal((a % 1000000) as nat, 6) + padded_decimal(
                (b % 1000000) as nat,
                6,
            ),
            r.spec_torrents().len() == 0,
    {
        let mut out: Vec<char> = Vec::new();
        push_padded_decimal(&mut out, a % 1000000, 6);
        push_padded_decimal(&mut out, b % 1000000, 6);
        proof {
            lemma_decimal_len((a % 1000000) as nat);
            lemma_decimal_len((b % 1000000) as nat);
            lemma_padded_digits((a % 1000000) as nat, 6);
            lemma_padded_digits((b % 1000000) as nat, 6);
            assert(all_digits(out@));
        }
        Client { client_rand: string_of(&out), torrents: Vec::new() }
    }

    /// A client with the given identifying characters, to keep one identity
    /// across runs.
    pub fn with_client_rand(client_rand: String) -> (r: Client)
        requires
            client_rand@.len() == 12,
            all_digits(client_rand@),
        ensures
            r.wf(),
            r.spec_client_rand() == client_rand@,
            r.spec_torrents().len() == 0,
    {
        Client { client_rand, torrents: Vec::new() }
    }

    /// The peer identifier sent to trackers and peers.
    pub fn peer_id(&self) -> (r: String)
        requires
            self.wf(),
        ensures
            r@ == peer_id_of(self.spec_client_rand()),
            r@.len() == 20,
            all_printable_ascii(r@),
    {
        let mut out = chars_of("-TE");
        push_padded_decimal(&mut out, CLIENT_VERSION, 4);
        push_str(&mut out, "-");
        push_str(&mut out, self.client_rand.as_str());
        proof {
            reveal_strlit("-TE");
            reveal_strlit("-");
            lemma_decimal_len(CLIENT_VERSION as nat);
            lemma_padded_digits(CLIENT_VERSION as nat, 4);
            assert(all_printable_ascii(out@));
        }
        string_of(&out)
    }

    /// Takes a torrent into the client, stopped, with no traffic yet.
    pub fn add_torrent(&mut self, info: TorrentInfo, destination_path: String)
        ensures
            final(self).spec_client_rand() == old(self).spec_client_rand(),
            final(self).spec_torrents().len() == old(self).spec_torrents().len() + 1,
            final(self).spec_torrents().drop_last() == old(self).spec_torrents(),
            final(self).spec_torrents().last().info == info,
            final(self).spec_torrents().last().destination_path == destination_path,
            final(self).spec_torrents().last().status == Status::Stopped,
            final(self).spec_torrents().last().traffic == (TrafficInfo {
                uploaded_bytes: 0,
                downloaded_bytes: 0,
            }),
            final(self).spec_torrents().last().session.peers@.len() == 0,
    {
        let t = Torrent::new(info, destination_path);
        self.torrents.push(t);
        assert(self.torrents@.drop_last() =~= old(self).torrents@);
    }

    /// The torrents managed by this client.
    pub fn get_torrents(&mut self) -> (r: &mut Vec<Torrent>)
        ensures
            r@ == old(self).spec_torrents(),
            final(self).spec_torrents() == final(r)@,
            final(self).spec_client_rand() == old(self).spec_client_rand(),
    {
        &mut self.torrents
    }
}

/// Decimal text of a number below a million has at most six digits, and of
/// the version at most four.
proof fn lemma_decimal_len(n: nat)
    ensures
        n < 1000000 ==> padded_decimal(n, 6).len() == 6,
        n < 10000 ==> padded_decimal(n, 4).len() == 4,
{
    lemma_decimal_digits(n);
}

proof fn lemma_padded_digits(n: nat, width: nat)
    ensures
        all_digits(padded_decimal(n, width)),
{
    lemma_decimal_all_digits(n);
}

proof fn lemma_decimal_all_digits(n: nat)
    ensures
        all_digits(crate::text::decimal_of(n)),
    decreases n,
{
    if n >= 10 {
        lemma_decimal_all_digits(n / 10);
    }
}

proof fn lemma_decimal_digits(n: nat)
    ensures
        n < 10 ==> crate::text::decimal_of(n).len() == 1,
        n < 100 ==> crate::text::decimal_of(n).len() <= 2,
        n < 1000 ==> crate::text::decimal_of(n).len() <= 3,
        n < 10000 ==> crate::text::decimal_of(n).len() <= 4,
        n < 100000 ==> crate::text::decimal_of(n).len() <= 5,
        n < 1000000 ==> crate::text::decimal_of(n).len() <= 6,
        crate::text::decimal_of(n).len() >= 1,
    decreases n,
{
    if n >= 10 {
        lemma_decimal_digits(n / 10);
    }
}

} // verus!
