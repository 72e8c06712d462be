//! The self-describing binary tree (integers, byte strings, lists and
//! dictionaries) that torrent files and tracker responses are written in.
use vstd::prelude::*;
use vstd::string::StringSliceAdditionalSpecFns;
use vstd::utf8::{decode_utf8, valid_utf8};
use crate::text::utf8_text;

verus! {

/// A decoded tree value. Dictionary entries are held in the order the
/// decoder hands them out; lookups take the first entry with a key.
#[derive(Debug)]
pub enum Value {
    Empty,
    Int(i64),
    Bytes(Vec<u8>),
    List(Vec<Value>),
    Dict(Vec<(Vec<u8>, Value)>),
}

/// The tree that the decoder produces for `bytes`, if it accepts them.
pub uninterp spec fn decoded(bytes: Seq<u8>) -> Option<Value>;

/// The value stored under `key` in a dictionary's entries (first match).
pub open spec fn lookup(entries: Seq<(Vec<u8>, Value)>, key: Seq<u8>) -> Option<Value>
    decreases entries.len(),
{
    if entries.len() == 0 {
        None
    } else if entries[0].0@ == key {
        Some(entries[0].1)
    } else {
        lookup(entries.drop_first(), key)
    }
}

/// A borrowed field as a value.
pub open spec fn own(o: Option<&Value>) -> Option<Value> {
    match o {
        Some(v) => Some(*v),
        None => None,
    }
}

/// The value under `key` when `v` is a dictionary.
pub open spec fn get(v: Value, key: Seq<u8>) -> Option<Value> {
    match v {
        Value::Dict(d) => lookup(d@, key),
        _ => None,
    }
}

/// The integer held by a field, if it holds one.
pub open spec fn int_of(o: Option<Value>) -> Option<i64> {
    match o {
        Some(Value::Int(n)) => Some(n),
        _ => None,
    }
}

/// The non-negative integer held by a field, if it holds one.
pub open spec fn nat_of(o: Option<Value>) -> Option<u64> {
    match o {
        Some(Value::Int(n)) => if n >= 0 { Some(n as u64) } else { None },
        _ => None,
    }
}

/// The byte string held by a field, if it holds one.
pub open spec fn bytes_of(o: Option<Value>) -> Option<Seq<u8>> {
    match o {
        Some(Value::Bytes(b)) => Some(b@),
        _ => None,
    }
}

/// The text held by a field: a byte string that is valid UTF-8.
pub open spec fn text_of(o: Option<Value>) -> Option<Seq<char>> {
    match o {
        Some(Value::Bytes(b)) => if valid_utf8(b@) { Some(decode_utf8(b@)) } else { None },
        _ => None,
    }
}

/// The list of texts held by a field: a list whose every item is text.
pub open spec fn text_list_of(o: Option<Value>) -> Option<Seq<Seq<char>>> {
    match o {
        Some(Value::List(l)) => if forall|i: int|
            0 <= i < l@.len() ==> (#[trigger] text_of(Some(l@[i]))) is Some {
            Some(Seq::new(l@.len(), |i: int| text_of(Some(l@[i]))->0))
        } else {
            None
        },
        _ => None,
    }
}

/// The view of an optional string.
pub open spec fn opt_view(o: Option<String>) -> Option<Seq<char>> {
    match o {
        Some(s) => Some(s@),
        None => None,
    }
}

/// The view of an optional vector of strings.
pub open spec fn opt_views(o: Option<Vec<String>>) -> Option<Seq<Seq<char>>> {
    match o {
        Some(v) => Some(texts(v@)),
        None => None,
    }
}

/// The views of a vector of strings.
pub open spec fn texts(v: Seq<String>) -> Seq<Seq<char>> {
    Seq::new(v.len(), |i: int| v[i]@)
}

/// Whether two byte slices hold the same bytes.
pub fn bytes_eq(a: &[u8], b: &[u8]) -> (r: bool)
    ensures
        r == (a@ == b@),
{
    if a.len() != b.len() {
        return false;
    }
    let mut i: usize = 0;
    while i < a.len()
        invariant
            a@.len() == b@.len(),
            i <= a@.len(),
            forall|j: int| 0 <= j < i ==> a@[j] == b@[j],
        decreases a.len() - i,
    {
        if a[i] != b[i] {
            return false;
        }
        i += 1;
    }
    assert(a@ =~= b@);
    true
}

/// Looks up `key` among a dictionary's entries.
pub fn find<'a>(entries: &'a Vec<(Vec<u8>, Value)>, key: &[u8]) -> (r: Option<&'a Value>)
    ensures
        own(r) == lookup(entries@, key@),
{
    let mut i: usize = 0;
    assert(entries@.skip(0) =~= entries@);
    while i < entries.len()
        invariant
            i <= entries@.len(),
            lookup(entries@, key@) == lookup(entries@.skip(i as int), key@),
        decreases entries.len() - i,
    {
        assert(entries@.skip(i as int).drop_first() =~= entries@.skip(i + 1));
        if bytes_eq(entries[i].0.as_slice(), key) {
            return Some(&entries[i].1);
        }
        i += 1;
    }
    None
}

/// Looks up `key` in `v` when `v` is a dictionary.
pub fn get_field<'a>(v: &'a Value, key: &str) -> (r: Option<&'a Value>)
    ensures
        own(r) == get(*v, key.spec_bytes()),
{
    match v {
        Value::Dict(d) => find(d, key.as_bytes()),
        _ => None,
    }
}

/// Reads an integer field.
pub fn int_field(o: Option<&Value>) -> (r: Option<i64>)
    ensures
        r == int_of(own(o)),
{
    match o {
        Some(Value::Int(n)) => Some(*n),
        _ => None,
    }
}

/// Reads a non-negative integer field.
pub fn nat_field(o: Option<&Value>) -> (r: Option<u64>)
    ensures
        r == nat_of(own(o)),
{
    match o {
        Some(Value::Int(n)) => if *n >= 0 { Some(*n as u64) } else { None },
        _ => None,
    }
}

/// Reads a text field.
pub fn text_field(o: Option<&Value>) -> (r: Option<String>)
    ensures
        opt_view(r) == text_of(own(o)),
{
    match o {
        Some(Value::Bytes(b)) => utf8_text(b.as_slice()),
        _ => None,
    }
}

/// Reads a field that holds a list of texts.
pub fn text_list_field(o: Option<&Value>) -> (r: Option<Vec<String>>)
    ensures
        opt_views(r) == text_list_of(own(o)),
{
    match o {
        Some(Value::List(l)) => {
            assert(own(o) == Some(Value::List(*l)));
            let mut out: Vec<String> = Vec::new();
            let mut i: usize = 0;
            while i < l.len()
                invariant
                    own(o) == Some(Value::List(*l)),
                    i <= l@.len(),
                    out@.len() == i,
                    forall|j: int| 0 <= j < i ==> (#[trigger] text_of(Some(l@[j]))) is Some,
                    forall|j: int| 0 <= j < i ==> out@[j]@ == (#[trigger] text_of(Some(l@[j])))->0,
                decreases l.len() - i,
            {
                match text_field(Some(&l[i])) {
                    Some(s) => out.push(s),
                    None => {
                        assert(!(text_of(Some(l@[i as int])) is Some));

                        return None;
                    },
                }
                i += 1;
            }
            assert(texts(out@) =~= text_list_of(own(o))->0);
            Some(out)
        },
        _ => None,
    }
}

/// Whether a byte is an ASCII decimal digit.
pub open spec fn is_digit(c: u8) -> bool {
    48 <= c <= 57
}

/// The first position at or after `i` that holds no digit.
pub open spec fn digits_end(b: Seq<u8>, i: int) -> int
    decreases b.len() - i,
{
    if 0 <= i < b.len() && is_digit(b[i]) {
        digits_end(b, i + 1)
    } else {
        i
    }
}

/// The number that the digits `b[i..j]` write.
pub open spec fn digits_value(b: Seq<u8>, i: int, j: int) -> int
    decreases j - i,
{
    if j <= i {
        0
    } else {
        digits_value(b, i, j - 1) * 10 + (b[j - 1] - 48)
    }
}

/// Longest digit run accepted in a length or an integer.
pub const MAX_DIGITS: usize = 19;

/// Deepest nesting of lists and dictionaries accepted.
pub const MAX_DEPTH: usize = 64;

/// Largest magnitude of a non-negative integer (that of a negative one is one
/// more).
pub const MAX_MAGNITUDE: u64 = 9223372036854775807;

/// End of a byte string that starts at `i`: one to `MAX_DIGITS` digits of
/// length, a colon, then that many bytes.
pub open spec fn scan_bytes(b: Seq<u8>, i: int) -> Option<int> {
    let k = digits_end(b, i);
    if 0 <= i && i < k && k - i <= MAX_DIGITS && k < b.len() && b[k] == 58 && k + 1
        + digits_value(b, i, k) <= b.len() {
        Some(k + 1 + digits_value(b, i, k))
    } else {
        None
    }
}

/// End of an integer that starts at `i`: `i`, an optional minus sign, one to
/// `MAX_DIGITS` digits writing a number that fits 64 signed bits, `e`.
pub open spec fn scan_int(b: Seq<u8>, i: int) -> Option<int> {
    let neg = i + 1 < b.len() && b[i + 1] == 45;
    let s = if neg { i + 2 } else { i + 1 };
    let k = digits_end(b, s);
    if s < k && k - s <= MAX_DIGITS && k < b.len() && b[k] == 101 && digits_value(b, s, k) <= (
    if neg {
        MAX_MAGNITUDE + 1
    } else {
        MAX_MAGNITUDE as int
    }) {
        Some(k + 1)
    } else {
        None
    }
}

/// Where the value that starts at `i` ends, if a complete value starts there.
pub open spec fn scan(b: Seq<u8>, i: int, depth: int) -> Option<int>
    decreases b.len() - i, 0int,
{
    if i < 0 || i >= b.len() {
        None
    } else if b[i] == 105 {
        scan_int(b, i)
    } else if is_digit(b[i]) {
        scan_bytes(b, i)
    } else if b[i] == 108 && depth < MAX_DEPTH {
        scan_items(b, i + 1, false, depth + 1)
    } else if b[i] == 100 && depth < MAX_DEPTH {
        scan_items(b, i + 1, true, depth + 1)
    } else {
        None
    }
}

/// Where the items of a list (or the key-value pairs of a dictionary) that
/// start at `i` end, past the closing `e`.
pub open spec fn scan_items(b: Seq<u8>, i: int, dict: bool, depth: int) -> Option<int>
    decreases b.len() - i, 1int,
{
    if i < 0 || i >= b.len() {
        None
    } else if b[i] == 101 {
        Some(i + 1)
    } else if dict {
        match scan_bytes(b, i) {
            Some(k) => if i < k <= b.len() {
                match scan(b, k, depth) {
                    Some(e) => if k < e <= b.len() { scan_items(b, e, true, depth) } else { None },
                    None => None,
                }
            } else {
                None
            },
            None => None,
        }
    } else {
        match scan(b, i, depth) {
            Some(e) => if i < e <= b.len() { scan_items(b, e, false, depth) } else { None },
            None => None,
        }
    }
}

/// The bytes hold exactly one complete value of the tree format, with lists
/// and dictionaries nested at most `MAX_DEPTH` deep.
pub open spec fn well_formed(b: Seq<u8>) -> bool {
    scan(b, 0, 0) == Some(b.len() as int)
}

/// A position found by a scan, as a number.
pub open spec fn position(r: Option<usize>) -> Option<int> {
    match r {
        Some(e) => Some(e as int),
        None => None,
    }
}

fn digits_end_exec(b: &[u8], i: usize) -> (r: usize)
    requires
        i <= b@.len(),
    ensures
        r == digits_end(b@, i as int),
        i <= r <= b@.len(),
        forall|j: int| i <= j < r ==> is_digit(#[trigger] b@[j]),
{
    let mut k = i;
    while k < b.len() && b[k] >= 48 && b[k] <= 57
        invariant
            i <= k <= b@.len(),
            digits_end(b@, i as int) == digits_end(b@, k as int),
            forall|j: int| i <= j < k ==> is_digit(#[trigger] b@[j]),
        decreases b.len() - k,
    {
        k += 1;
    }
    k
}

proof fn lemma_digits_value_bound(b: Seq<u8>, i: int, j: int)
    requires
        0 <= i <= j <= b.len(),
        forall|x: int| i <= x < j ==> is_digit(#[trigger] b[x]),
    ensures
        0 <= digits_value(b, i, j) < pow10((j - i) as nat),
    decreases j - i,
{
    if j > i {
        lemma_digits_value_bound(b, i, j - 1);
        assert(pow10((j - i) as nat) == 10 * pow10((j - 1 - i) as nat));
    }
}

/// `10` to the power `n`.
pub open spec fn pow10(n: nat) -> int
    decreases n,
{
    if n == 0 { 1 } else { 10 * pow10((n - 1) as nat) }
}

fn digits_value_exec(b: &[u8], i: usize, j: usize) -> (r: u64)
    requires
        i <= j <= b@.len(),
        j - i <= MAX_DIGITS,
        forall|x: int| i <= x < j ==> is_digit(#[trigger] b@[x]),
    ensures
        r == digits_value(b@, i as int, j as int),
{
    let mut v: u64 = 0;
    let mut k = i;
    while k < j
        invariant
            i <= k <= j <= b@.len(),
            j - i <= MAX_DIGITS,
            forall|x: int| i <= x < j ==> is_digit(#[trigger] b@[x]),
            v == digits_value(b@, i as int, k as int),
        decreases j - k,
    {
        proof {
            lemma_digits_value_bound(b@, i as int, k as int);
            lemma_pow10_bound((k - i) as nat);
        }
        assert(is_digit(b@[k as int]));
        v = v * 10 + (b[k] - 48) as u64;
        k += 1;
    }
    v
}

proof fn lemma_pow10_bound(n: nat)
    requires
        n <= 18,
    ensures
        pow10(n) <= 1000000000000000000,
{
    lemma_pow10_mono(n, 18);
    reveal_with_fuel(pow10, 19);
}

proof fn lemma_pow10_mono(a: nat, b: nat)
    requires
        a <= b,
    ensures
        0 < pow10(a) <= pow10(b),
    decreases b,
{
    if b > a {
        lemma_pow10_mono(a, (b - 1) as nat);
    } else if a > 0 {
        lemma_pow10_mono((a - 1) as nat, (a - 1) as nat);
    }
}

fn scan_bytes_exec(b: &[u8], i: usize) -> (r: Option<usize>)
    requires
        i <= b@.len(),
    ensures
        position(r) == scan_bytes(b@, i as int),
        r matches Some(e) ==> i < e <= b@.len(),
{
    let k = digits_end_exec(b, i);
    if !(i < k && k - i <= MAX_DIGITS && k < b.len() && b[k] == 58) {
        return None;
    }
    let n = digits_value_exec(b, i, k);
    if n > (b.len() - k - 1) as u64 {
        return None;
    }
    Some(k + 1 + n as usize)
}

fn scan_int_exec(b: &[u8], i: usize) -> (r: Option<usize>)
    requires
        i < b@.len(),
    ensures
        position(r) == scan_int(b@, i as int),
        r matches Some(e) ==> i < e <= b@.len(),
{
    let n = b.len();
    let neg = i + 1 < n && b[i + 1] == 45;
    let s = if neg { i + 2 } else { i + 1 };
    let k = digits_end_exec(b, s);
    if !(s < k && k - s <= MAX_DIGITS && k < b.len() && b[k] == 101) {
        return None;
    }
    let v = digits_value_exec(b, s, k);
    let ok = if neg { v <= MAX_MAGNITUDE + 1 } else { v <= MAX_MAGNITUDE };
    if ok {
        Some(k + 1)
    } else {
        None
    }
}

/// Finds where the value that starts at `i` ends.
pub fn scan_value(b: &[u8], i: usize, depth: usize) -> (r: Option<usize>)
    requires
        depth <= MAX_DEPTH,
    ensures
        position(r) == scan(b@, i as int, depth as int),
        r matches Some(e) ==> i < e <= b@.len(),
    decreases b@.len() - i, 0int,
{
    if i >= b.len() {
        return None;
    }
    let c = b[i];
    if c == 105 {
        scan_int_exec(b, i)
    } else if c >= 48 && c <= 57 {
        scan_bytes_exec(b, i)
    } else if c == 108 && depth < MAX_DEPTH {
        scan_items_exec(b, i + 1, false, depth + 1)
    } else if c == 100 && depth < MAX_DEPTH {
        scan_items_exec(b, i + 1, true, depth + 1)
    } else {
        None
    }
}

fn scan_items_exec(b: &[u8], i: usize, dict: bool, depth: usize) -> (r: Option<usize>)
    requires
        depth <= MAX_DEPTH,
    ensures
        position(r) == scan_items(b@, i as int, dict, depth as int),
        r matches Some(e) ==> i < e <= b@.len(),
    decreases b@.len() - i, 1int,
{
    let n = b.len();
    let mut pos = i;
    while pos < n
        invariant
            n == b@.len(),
            i <= pos,
            depth <= MAX_DEPTH,
            scan_items(b@, i as int, dict, depth as int) == scan_items(b@, pos as int, dict, depth as int),
        decreases n - pos,
    {
        if b[pos] == 101 {
            return Some(pos + 1);
        }
        let start = if dict {
            match scan_bytes_exec(b, pos) {
                Some(k) => k,
                None => return None,
            }
        } else {
            pos
        };
        match scan_value(b, start, depth) {
            Some(e) => {
                pos = e;
            },
            None => return None,
        }
    }
    None
}

/// Where the value under `key` stands among the entries of a dictionary
/// whose items start at `i`: the last entry with that key, as decoding keeps
/// the last one.
pub open spec fn key_span(b: Seq<u8>, i: int, key: Seq<u8>) -> Option<(int, int)>
    decreases b.len() - i,
{
    if i < 0 || i >= b.len() || b[i] == 101 {
        None
    } else {
        match scan_bytes(b, i) {
            Some(k) => if i < k <= b.len() {
                match scan(b, k, 1) {
                    Some(e) => if k < e <= b.len() {
                        match key_span(b, e, key) {
                            Some(sp) => Some(sp),
                            None => if b.subrange(digits_end(b, i) + 1, k) == key {
                                Some((k, e))
                            } else {
                                None
                            },
                        }
                    } else {
                        None
                    },
                    None => None,
                }
            } else {
                None
            },
            None => None,
        }
    }
}

/// The bytes, as they stand in `b`, of the value under `key` in the
/// dictionary that `b` holds.
pub open spec fn field_bytes(b: Seq<u8>, key: Seq<u8>) -> Option<Seq<u8>> {
    if b.len() > 0 && b[0] == 100 {
        match key_span(b, 1, key) {
            Some((st, e)) => Some(b.subrange(st, e)),
            None => None,
        }
    } else {
        None
    }
}

/// The later of two findings: `rest` when it found something, else `found`.
pub open spec fn later(found: Option<(int, int)>, rest: Option<(int, int)>) -> Option<(int, int)> {
    match rest {
        Some(sp) => Some(sp),
        None => found,
    }
}

/// Whether `b[start..end]` holds the bytes of `key`.
fn range_eq(b: &[u8], start: usize, end: usize, key: &[u8]) -> (r: bool)
    requires
        start <= end <= b@.len(),
    ensures
        r == (b@.subrange(start as int, end as int) == key@),
{
    let part = vstd::slice::slice_subrange(b, start, end);
    bytes_eq(part, key)
}

/// Finds the bytes of the value under `key` in the dictionary that `b`
/// holds.
pub fn find_field_bytes<'a>(b: &'a [u8], key: &[u8]) -> (r: Option<&'a [u8]>)
    ensures
        match r {
            Some(x) => field_bytes(b@, key@) == Some(x@),
            None => field_bytes(b@, key@) is None,
        },
{
    let n = b.len();
    if n == 0 || b[0] != 100 {
        return None;
    }
    let mut found: Option<(usize, usize)> = None;
    let mut pos: usize = 1;
    while pos < n
        invariant
            n == b@.len(),
            1 <= pos,
            found matches Some((st, e)) ==> st <= e <= n,
            key_span(b@, 1, key@) == later(
                match found {
                    Some((st, e)) => Some((st as int, e as int)),
                    None => None,
                },
                key_span(b@, pos as int, key@),
            ),
        ensures
            found matches Some((st, e)) ==> st <= e <= n,
            key_span(b@, 1, key@) == match found {
                Some((st, e)) => Some((st as int, e as int)),
                None => None,
            },
        decreases n - pos,
    {
        if b[pos] == 101 {
            break;
        }
        let k = match scan_bytes_exec(b, pos) {
            Some(k) => k,
            None => break,
        };
        let e = match scan_value(b, k, 1) {
            Some(e) => e,
            None => break,
        };
        let c = digits_end_exec(b, pos);
        proof {
            lemma_digits_value_bound(b@, pos as int, c as int);
        }
        assert(c + 1 <= k);
        if range_eq(b, c + 1, k, key) {
            found = Some((k, e));
        }
        pos = e;
    }
    match found {
        Some((st, e)) => Some(vstd::slice::slice_subrange(b, st, e)),
        None => None,
    }
}

/// Whether the bytes hold exactly one complete value of the tree format.
pub fn is_well_formed(b: &[u8]) -> (r: bool)
    ensures
        r == well_formed(b@),
{
    match scan_value(b, 0, 0) {
        Some(e) => e == b.len(),
        None => false,
    }
}

/// Relies on `bencode::from_buffer`: parses a whole buffer into a tree, or
/// reports that the buffer is not a single well-formed value. The parser
/// panics when the input ends inside a list or dictionary, and counts its
/// position in 32 bits, so it is only called on structurally complete input
/// shorter than that count allows.
#[verifier::external_body]
fn parse_tree(bytes: &[u8]) -> (r: Option<Value>)
    requires
        well_formed(bytes@),
        bytes@.len() < u32::MAX,
    ensures
        r == decoded(bytes@),
{
    match bencode::from_buffer(bytes) {
        Ok(b) => Some(from_outside(&b)),
        Err(_) => None,
    }
}

/// The tree that a whole buffer holds: `None` unless it is exactly one
/// complete value that the decoder accepts.
pub open spec fn parsed(bytes: Seq<u8>) -> Option<Value> {
    if well_formed(bytes) && bytes.len() < u32::MAX { decoded(bytes) } else { None }
}

/// Decodes a whole buffer into a tree; `None` when it is not exactly one
/// complete, well-formed value.
pub fn decode_tree(bytes: &[u8]) -> (r: Option<Value>)
    ensures
        r == parsed(bytes@),
{
    if bytes.len() < 4294967295 && is_well_formed(bytes) {
        parse_tree(bytes)
    } else {
        None
    }
}

#[verifier::external_type_specification]
#[verifier::external_body]
pub struct ExBencode(bencode::Bencode);

/// Converts a tree of the `bencode` crate, variant for variant.
#[verifier::external_body]
fn from_outside(b: &bencode::Bencode) -> Value {
    match b {
        bencode::Bencode::Empty => Value::Empty,
        bencode::Bencode::Number(n) => Value::Int(*n),
        bencode::Bencode::ByteString(s) => Value::Bytes(s.clone()),
        bencode::Bencode::List(l) => Value::List(l.iter().map(from_outside).collect()),
        bencode::Bencode::Dict(d) => Value::Dict(
            d.iter().map(|(k, v)| (k.as_slice().to_vec(), from_outside(v))).collect(),
        ),
    }
}

} // verus!
