//! The tracker's answer to a scrape: swarm figures for each torrent it knows,
//! keyed by identity hash.
use vstd::prelude::*;
use vstd::string::StringSliceAdditionalSpecFns;
use crate::announce::TrackerError;
use crate::tree::{
    Value, bytes_eq, decode_tree, parsed, get, get_field, nat_field, nat_of, opt_view,
    text_field, text_of,
};

verus! {

/// Swarm figures of one torrent.
#[derive(Debug)]
pub struct TorrentScrape {
    pub complete: u64,
    pub downloaded: u64,
    pub incomplete: u64,
    pub name: Option<String>,
}

/// Every torrent of a scrape response, with its identity hash; no hash is
/// listed twice.
#[derive(Debug)]
pub struct ScrapeInfo {
    pub torrents: Vec<(Vec<u8>, TorrentScrape)>,
}

/// An entry holds the three counts.
pub open spec fn scrape_ok(d: Value) -> bool {
    &&& nat_of(get(d, "complete".spec_bytes())) is Some
    &&& nat_of(get(d, "downloaded".spec_bytes())) is Some
    &&& nat_of(get(d, "incomplete".spec_bytes())) is Some
}

/// `s` is the reading of the scrape entry `d`.
pub open spec fn scrape_matches(s: TorrentScrape, d: Value) -> bool {
    &&& Some(s.complete) == nat_of(get(d, "complete".spec_bytes()))
    &&& Some(s.downloaded) == nat_of(get(d, "downloaded".spec_bytes()))
    &&& Some(s.incomplete) == nat_of(get(d, "incomplete".spec_bytes()))
    &&& opt_view(s.name) == text_of(get(d, "name".spec_bytes()))
}

/// No key is listed twice.
pub open spec fn distinct_keys<T>(d: Seq<(Vec<u8>, T)>) -> bool {
    forall|i: int, j: int| 0 <= i < j < d.len() ==> (#[trigger] d[i]).0@ != (#[trigger] d[j]).0@
}

/// A scrape response: a dictionary whose "files" dictionary lists each hash
/// once and holds only well-formed entries.
pub open spec fn scrape_info_ok(v: Value) -> bool {
    get(v, "files".spec_bytes()) matches Some(Value::Dict(d)) && distinct_keys(d@) && forall|
        i: int,
    | 0 <= i < d@.len() ==> scrape_ok(#[trigger] d@[i].1)
}

/// The entries of the "files" dictionary of a scrape response.
pub open spec fn files_of(v: Value) -> Seq<(Vec<u8>, Value)> {
    match get(v, "files".spec_bytes()) {
        Some(Value::Dict(d)) => d@,
        _ => Seq::empty(),
    }
}

/// `s` lists the entries of the "files" dictionary of `v`, in order.
pub open spec fn scrape_info_matches(s: ScrapeInfo, v: Value) -> bool {
    &&& distinct_keys(s.torrents@)
    &&& s.torrents@.len() == files_of(v).len()
    &&& forall|i: int|
        0 <= i < s.torrents@.len() ==> (#[trigger] s.torrents@[i]).0@ == files_of(v)[i].0@
            && scrape_matches(s.torrents@[i].1, files_of(v)[i].1)
}

/// The first torrent listed under `hash`.
pub open spec fn scrape_lookup(t: Seq<(Vec<u8>, TorrentScrape)>, hash: Seq<u8>) -> Option<
    TorrentScrape,
>
    decreases t.len(),
{
    if t.len() == 0 {
        None
    } else if t[0].0@ == hash {
        Some(t[0].1)
    } else {
        scrape_lookup(t.drop_first(), hash)
    }
}

/// Copies an optional string.
fn copy_text(s: &Option<String>) -> (r: Option<String>)
    ensures
        opt_view(r) == opt_view(*s),
{
    match s {
        Some(t) => Some(t.clone()),
        None => None,
    }
}

impl TorrentScrape {
    /// Reads one scrape entry: three counts and an optional name.
    pub fn from_value(d: &Value) -> (r: Option<TorrentScrape>)
        ensures
            r is Some <==> scrape_ok(*d),
            r matches Some(s) ==> scrape_matches(s, *d),
    {
        let complete = match nat_field(get_field(d, "complete")) {
            Some(n) => n,
            None => return None,
        };
        let downloaded = match nat_field(get_field(d, "downloaded")) {
            Some(n) => n,
            None => return None,
        };
        let incomplete = match nat_field(get_field(d, "incomplete")) {
            Some(n) => n,
            None => return None,
        };
        Some(TorrentScrape { complete, downloaded, incomplete, name: text_field(get_field(d, "name")) })
    }

    /// A copy of these figures.
    pub fn copy(&self) -> (r: TorrentScrape)
        ensures
            r.complete == self.complete,
            r.downloaded == self.downloaded,
            r.incomplete == self.incomplete,
            opt_view(r.name) == opt_view(self.name),
    {
        TorrentScrape {
            complete: self.complete,
            downloaded: self.downloaded,
            incomplete: self.incomplete,
            name: copy_text(&self.name),
        }
    }
}

impl ScrapeInfo {
    /// Reads a scrape response tree.
    pub fn from_value(v: &Value) -> (r: Option<ScrapeInfo>)
        ensures
            r is Some <==> scrape_info_ok(*v),
            r matches Some(s) ==> scrape_info_matches(s, *v),
    {
        let d = match get_field(v, "files") {
            Some(Value::Dict(d)) => d,
            _ => return None,
        };
        let mut out: Vec<(Vec<u8>, TorrentScrape)> = Vec::new();
        let mut i: usize = 0;
        while i < d.len()
            invariant
                files_of(*v) == d@,
                get(*v, "files".spec_bytes()) matches Some(Value::Dict(dd)) && dd@ == d@,
                i <= d@.len(),
                out@.len() == i,
                forall|j: int| 0 <= j < i ==> scrape_ok(#[trigger] d@[j].1),
                distinct_keys(d@.take(i as int)),
                forall|j: int|
                    0 <= j < i ==> (#[trigger] out@[j]).0@ == d@[j].0@ && scrape_matches(
                        out@[j].1,
                        d@[j].1,
                    ),
            decreases d.len() - i,
        {
            let mut j: usize = 0;
            while j < i
                invariant
                    get(*v, "files".spec_bytes()) matches Some(Value::Dict(dd)) && dd@ == d@,
                    j <= i < d@.len(),
                    forall|x: int| 0 <= x < j ==> d@[x].0@ != d@[i as int].0@,
                decreases i - j,
            {
                if bytes_eq(d[j].0.as_slice(), d[i].0.as_slice()) {
                    assert(!distinct_keys(d@)) by {
                        assert(d@[j as int].0@ == d@[i as int].0@);
                    }
                    return None;
                }
                j += 1;
            }
            assert(distinct_keys(d@.take(i + 1))) by {
                assert forall|x: int, y: int| 0 <= x < y < i + 1 implies (#[trigger] d@.take(
                    i + 1,
                )[x]).0@ != (#[trigger] d@.take(i + 1)[y]).0@ by {
                    if y < i {
                        assert(d@.take(i as int)[x] == d@[x] && d@.take(i as int)[y] == d@[y]);
                    }
                }
            }
            match TorrentScrape::from_value(&d[i].1) {
                Some(s) => out.push((d[i].0.clone(), s)),
                None => return None,
            }
            i += 1;
        }
        assert(d@.take(d@.len() as int) =~= d@);
        assert(distinct_keys(out@)) by {
            assert forall|x: int, y: int| 0 <= x < y < out@.len() implies (#[trigger] out@[x]).0@
                != (#[trigger] out@[y]).0@ by {
                assert(d@.take(d@.len() as int)[x] == d@[x]);
                assert(d@.take(d@.len() as int)[y] == d@[y]);
            }
        }
        Some(ScrapeInfo { torrents: out })
    }

    /// The figures listed under `hash`, if any.
    pub fn find(&self, hash: &[u8]) -> (r: Option<TorrentScrape>)
        ensures
            r is Some <==> scrape_lookup(self.torrents@, hash@) is Some,
            r matches Some(s) ==> {
                let e = scrape_lookup(self.torrents@, hash@)->0;
                &&& s.complete == e.complete
                &&& s.downloaded == e.downloaded
                &&& s.incomplete == e.incomplete
                &&& opt_view(s.name) == opt_view(e.name)
            },
    {
        let mut i: usize = 0;
        assert(self.torrents@.skip(0) =~= self.torrents@);
        while i < self.torrents.len()
            invariant
                i <= self.torrents@.len(),
                scrape_lookup(self.torrents@, hash@) == scrape_lookup(
                    self.torrents@.skip(i as int),
                    hash@,
                ),
            decreases self.torrents.len() - i,
        {
            assert(self.torrents@.skip(i as int).drop_first() =~= self.torrents@.skip(i + 1));
            if bytes_eq(self.torrents[i].0.as_slice(), hash) {
                return Some(self.torrents[i].1.copy());
            }
            i += 1;
        }
        None
    }

    /// Reads the body of a scrape response.
    pub fn from_body(body: &[u8]) -> (r: Result<ScrapeInfo, TrackerError>)
        ensures
            r is Ok <==> (parsed(body@) matches Some(v) && scrape_info_ok(v)),
            r matches Err(e) ==> e == TrackerError::Malformed,
            r matches Ok(s) ==> scrape_info_matches(s, parsed(body@)->0),
    {
        match decode_tree(body) {
            Some(v) => match ScrapeInfo::from_value(&v) {
                Some(s) => Ok(s),
                None => Err(TrackerError::Malformed),
            },
            None => Err(TrackerError::Malformed),
        }
    }
}

} // verus!
