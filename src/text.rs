//! Text and byte helpers: hexadecimal, percent-encoding, decimal numbers and
//! substring replacement, all over sequences of characters.
use vstd::prelude::*;

verus! {

/// Lowercase hexadecimal digit for a value below 16.
pub open spec fn hex_digit(d: int) -> char {
    if d < 10 { (d + 48) as char } else { (d + 87) as char }
}

/// Uppercase hexadecimal digit for a value below 16.
pub open spec fn hex_digit_upper(d: int) -> char {
    if d < 10 { (d + 48) as char } else { (d + 55) as char }
}

/// Two lowercase hex digits per byte, most significant first.
pub open spec fn hex_of(b: Seq<u8>) -> Seq<char>
    decreases b.len(),
{
    if b.len() == 0 {
        Seq::empty()
    } else {
        hex_of(b.drop_last()) + seq![hex_digit(b.last() as int / 16), hex_digit(b.last() as int % 16)]
    }
}

/// Bytes left as they are in a percent-encoded query component.
pub open spec fn unreserved(c: u8) -> bool {
    (65 <= c <= 90) || (97 <= c <= 122) || (48 <= c <= 57) || c == 46 || c == 45 || c == 95
        || c == 126
}

/// Percent-encoding of raw bytes: unreserved bytes stand for themselves, every
/// other byte becomes `%` and two uppercase hex digits.
pub open spec fn percent_of(b: Seq<u8>) -> Seq<char>
    decreases b.len(),
{
    if b.len() == 0 {
        Seq::empty()
    } else if unreserved(b.last()) {
        percent_of(b.drop_last()).push(b.last() as char)
    } else {
        percent_of(b.drop_last()) + seq![
            '%',
            hex_digit_upper(b.last() as int / 16),
            hex_digit_upper(b.last() as int % 16),
        ]
    }
}

/// Decimal digits of a natural number, without leading zeros.
pub open spec fn decimal_of(n: nat) -> Seq<char>
    decreases n,
{
    if n < 10 {
        seq![hex_digit(n as int)]
    } else {
        decimal_of(n / 10).push(hex_digit((n % 10) as int))
    }
}

/// Decimal digits of `n`, left-padded with zeros to at least `width` digits.
pub open spec fn padded_decimal(n: nat, width: nat) -> Seq<char> {
    let d = decimal_of(n);
    if d.len() >= width {
        d
    } else {
        Seq::new((width - d.len()) as nat, |i: int| '0') + d
    }
}

/// Every occurrence of `pat` in `s`, scanned left to right without overlap,
/// replaced by `rep`.
pub open spec fn replace_all(s: Seq<char>, pat: Seq<char>, rep: Seq<char>) -> Seq<char>
    recommends
        pat.len() > 0,
    decreases s.len(),
{
    if s.len() == 0 || pat.len() == 0 {
        s
    } else if pat.is_prefix_of(s) {
        rep + replace_all(s.skip(pat.len() as int), pat, rep)
    } else {
        seq![s[0]] + replace_all(s.drop_first(), pat, rep)
    }
}

/// Relies on `String::from_utf8`: succeeds exactly on valid UTF-8, and the
/// string then holds the decoded characters.
#[verifier::external_body]
pub(crate) fn utf8_text(b: &[u8]) -> (r: Option<String>)
    ensures
        r is Some <==> vstd::utf8::valid_utf8(b@),
        r matches Some(s) ==> s@ == vstd::utf8::decode_utf8(b@),
{
    String::from_utf8(b.to_vec()).ok()
}

/// Relies on `str::chars`: the characters of a string, in order.
#[verifier::external_body]
pub(crate) fn chars_of(s: &str) -> (r: Vec<char>)
    ensures
        r@ == s@,
{
    s.chars().collect()
}

/// Relies on `String::from_iter`: the string made of the given characters.
#[verifier::external_body]
pub(crate) fn string_of(c: &Vec<char>) -> (r: String)
    ensures
        r@ == c@,
{
    c.iter().collect()
}

fn hex_char(d: u8, upper: bool) -> (c: char)
    requires
        d < 16,
    ensures
        !upper ==> c == hex_digit(d as int),
        upper ==> c == hex_digit_upper(d as int),
{
    if d < 10 {
        (d + 48) as char
    } else if upper {
        (d + 55) as char
    } else {
        (d + 87) as char
    }
}

/// Lowercase hexadecimal text of a byte sequence.
pub fn to_hex(b: &[u8]) -> (r: String)
    requires
        2 * b@.len() <= usize::MAX,
    ensures
        r@ == hex_of(b@),
        r@.len() == 2 * b@.len(),
{
    let mut out: Vec<char> = Vec::new();
    let mut i: usize = 0;
    while i < b.len()
        invariant
            i <= b@.len(),
            out@ == hex_of(b@.take(i as int)),
        decreases b.len() - i,
    {
        assert(b@.take(i + 1).drop_last() =~= b@.take(i as int));
        out.push(hex_char(b[i] / 16, false));
        out.push(hex_char(b[i] % 16, false));
        i += 1;
    }
    assert(b@.take(b.len() as int) =~= b@);
    proof {
        lemma_hex_len(b@);
    }
    string_of(&out)
}

/// The hex text of `b` is twice as long as `b` and holds only `0-9a-f`.
pub proof fn lemma_hex_len(b: Seq<u8>)
    ensures
        hex_of(b).len() == 2 * b.len(),
        forall|i: int|
            0 <= i < hex_of(b).len() ==> {
                let c = #[trigger] hex_of(b)[i];
                ('0' <= c <= '9') || ('a' <= c <= 'f')
            },
    decreases b.len(),
{
    if b.len() > 0 {
        lemma_hex_len(b.drop_last());
    }
}

/// Percent-encoding of raw bytes for a query string (see `percent_of`).
pub fn percent_encode(b: &[u8]) -> (r: String)
    ensures
        r@ == percent_of(b@),
{
    let mut out: Vec<char> = Vec::new();
    let mut i: usize = 0;
    while i < b.len()
        invariant
            i <= b@.len(),
            out@ == percent_of(b@.take(i as int)),
        decreases b.len() - i,
    {
        assert(b@.take(i + 1).drop_last() =~= b@.take(i as int));
        let c = b[i];
        if (65 <= c && c <= 90) || (97 <= c && c <= 122) || (48 <= c && c <= 57) || c == 46
            || c == 45 || c == 95 || c == 126 {
            out.push(c as char);
        } else {
            out.push('%');
            out.push(hex_char(c / 16, true));
            out.push(hex_char(c % 16, true));
        }
        i += 1;
    }
    assert(b@.take(b.len() as int) =~= b@);
    string_of(&out)
}

/// Appends the decimal digits of `n` to `out`.
pub fn push_decimal(out: &mut Vec<char>, n: u64)
    ensures
        final(out)@ == old(out)@ + decimal_of(n as nat),
    decreases n,
{
    if n < 10 {
        out.push(hex_char(n as u8, false));
    } else {
        push_decimal(out, n / 10);
        out.push(hex_char((n % 10) as u8, false));
    }
}

/// Decimal text of `n`.
pub fn decimal(n: u64) -> (r: String)
    ensures
        r@ == decimal_of(n as nat),
{
    let mut out: Vec<char> = Vec::new();
    push_decimal(&mut out, n);
    assert(out@ =~= decimal_of(n as nat));
    string_of(&out)
}

/// Appends the characters of `s` to `out`.
pub fn push_str(out: &mut Vec<char>, s: &str)
    ensures
        final(out)@ == old(out)@ + s@,
{
    let mut c = chars_of(s);
    out.append(&mut c);
}

/// Whether `pat` occurs in `s` at position `i`.
fn occurs_at(s: &Vec<char>, i: usize, pat: &Vec<char>) -> (r: bool)
    requires
        i <= s@.len(),
    ensures
        r == pat@.is_prefix_of(s@.skip(i as int)),
{
    let n = s.len();
    if pat.len() > n - i {
        return false;
    }
    let mut k: usize = 0;
    while k < pat.len()
        invariant
            n == s@.len(),
            i <= s@.len(),
            pat@.len() <= s@.len() - i,
            k <= pat@.len(),
            forall|j: int| 0 <= j < k ==> pat@[j] == s@[i + j],
        decreases pat.len() - k,
    {
        if pat[k] != s[i + k] {
            assert(s@.skip(i as int).subrange(0, pat@.len() as int)[k as int] == s@[i + k]);
            return false;
        }
        k += 1;
    }
    assert(pat@ =~= s@.skip(i as int).subrange(0, pat@.len() as int));
    true
}

/// `s` with every occurrence of `pat` replaced by `rep` (see `replace_all`).
pub fn replace(s: &str, pat: &str, rep: &str) -> (r: String)
    requires
        pat@.len() > 0,
    ensures
        r@ == replace_all(s@, pat@, rep@),
{
    let sc = chars_of(s);
    let pc = chars_of(pat);
    let mut out: Vec<char> = Vec::new();
    let mut i: usize = 0;
    assert(sc@.skip(0) =~= sc@);
    while i < sc.len()
        invariant
            sc@ == s@,
            pc@ == pat@,
            pat@.len() > 0,
            i <= sc@.len(),
            out@ + replace_all(sc@.skip(i as int), pat@, rep@) == replace_all(s@, pat@, rep@),
        decreases sc.len() - i,
    {
        let ghost rest = sc@.skip(i as int);
        if occurs_at(&sc, i, &pc) {
            let ghost before = out@;
            assert(pat@.len() <= rest.len());
            assert(rest.skip(pat@.len() as int) =~= sc@.skip(i + pat@.len()));
            push_str(&mut out, rep);
            assert(before + replace_all(rest, pat@, rep@) =~= out@ + replace_all(
                sc@.skip(i + pat@.len()),
                pat@,
                rep@,
            ));
            i = i + pc.len();
        } else {
            assert(rest.drop_first() =~= sc@.skip(i + 1));
            let ghost before = out@;
            out.push(sc[i]);
            assert(before + replace_all(rest, pat@, rep@) =~= out@ + replace_all(
                sc@.skip(i + 1),
                pat@,
                rep@,
            ));
            i += 1;
        }
    }
    assert(sc@.skip(i as int) =~= Seq::<char>::empty());
    assert(out@ + Seq::<char>::empty() =~= out@);
    string_of(&out)
}

/// Appends the decimal digits of `n`, left-padded with zeros to `width`.
pub fn push_padded_decimal(out: &mut Vec<char>, n: u64, width: usize)
    ensures
        final(out)@ == old(out)@ + padded_decimal(n as nat, width as nat),
{
    let mut digits: Vec<char> = Vec::new();
    push_decimal(&mut digits, n);
    assert(digits@ =~= decimal_of(n as nat));
    let ghost start = out@;
    if digits.len() < width {
        let pad = width - digits.len();
        let mut k: usize = 0;
        while k < pad
            invariant
                k <= pad,
                out@ == start + Seq::new(k as nat, |i: int| '0'),
            decreases pad - k,
        {
            out.push('0');
            k += 1;
            assert(out@ =~= start + Seq::new(k as nat, |i: int| '0'));
        }
    }
    out.append(&mut digits);
    assert(out@ =~= start + padded_decimal(n as nat, width as nat));
}

} // verus!
