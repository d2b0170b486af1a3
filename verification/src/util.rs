//! Field-access errors and the byte/integer codec used by compact
//! peer-list decoding.

use vstd::prelude::*;
use vstd::slice::slice_index_get;
use vstd::slice::slice_to_vec;
use vstd::string::StrSliceExecFns;
use vstd::string::StringExecFns;
use vstd::string::StringSliceAdditionalSpecFns;
use vstd::utf8::decode_utf8;
use vstd::utf8::valid_utf8;
use vstd::utf8::encode_utf8;
use crate::bencoding::Bnode;
use crate::bencoding::Bval;
use crate::bencoding::dict_lookup;
use crate::bencoding::dv_entries;
use crate::bencoding::dict_get;

verus! {

/// Errors surfaced when reading fields out of a decoded bencode
/// dictionary, or when decoding a document.
#[derive(Debug, Clone, Copy, PartialEq, Eq, Structural)]
pub enum Error {
    /// A node expected to be a dictionary was some other bencode type.
    DictMatchErr,
    /// A required key was absent from a decoded dictionary.
    FieldNotFound,
    /// Malformed bencode, or a field value of the wrong bencode type.
    DecodeErr,
}

/// The unsigned 32-bit value that a 4-byte big-endian sequence denotes.
pub open spec fn be32_of(b: Seq<u8>) -> int
    recommends
        b.len() == 4,
{
    b[0] * 0x100_0000 + b[1] * 0x1_0000 + b[2] * 0x100 + b[3]
}

/// The 4-byte big-endian encoding of an unsigned 32-bit value.
pub open spec fn be_bytes_of(v: u32) -> Seq<u8> {
    seq![
        (v / 0x100_0000) as u8,
        ((v / 0x1_0000) % 0x100) as u8,
        ((v / 0x100) % 0x100) as u8,
        (v % 0x100) as u8,
    ]
}

/// Interprets a 4-byte sequence as a big-endian unsigned 32-bit integer.
pub fn bytes_to_u32(bytes: &[u8]) -> (r: u32)
    requires
        bytes@.len() == 4,
    ensures
        r as int == be32_of(bytes@),
{
    let b0 = *slice_index_get(bytes, 0) as u32;
    let b1 = *slice_index_get(bytes, 1) as u32;
    let b2 = *slice_index_get(bytes, 2) as u32;
    let b3 = *slice_index_get(bytes, 3) as u32;
    b0 * 0x100_0000 + b1 * 0x1_0000 + b2 * 0x100 + b3
}

/// Produces the 4-byte big-endian encoding of an unsigned 32-bit integer.
pub fn u32_to_bytes(integer: u32) -> (r: Vec<u8>)
    ensures
        r@ == be_bytes_of(integer),
        r@.len() == 4,
{
    let first = integer / 0x100_0000;
    let second = (integer / 0x1_0000) % 0x100;
    let third = (integer / 0x100) % 0x100;
    let fourth = integer % 0x100;
    let r = vec![first as u8, second as u8, third as u8, fourth as u8];
    proof {
        assert(r@ =~= be_bytes_of(integer));
    }
    r
}

/// Law: decoding 4 bytes as a big-endian integer and re-encoding that
/// integer yields the original bytes.
pub proof fn lemma_bytes_u32_round_trip(b: Seq<u8>)
    requires
        b.len() == 4,
    ensures
        0 <= be32_of(b) <= u32::MAX,
        be_bytes_of(be32_of(b) as u32) == b,
{
    let b0 = b[0] as int;
    let b1 = b[1] as int;
    let b2 = b[2] as int;
    let b3 = b[3] as int;
    let v = be32_of(b);
    assert(v == b0 * 0x100_0000 + b1 * 0x1_0000 + b2 * 0x100 + b3);
    assert(0 <= v <= u32::MAX) by (nonlinear_arith)
        requires
            v == b0 * 0x100_0000 + b1 * 0x1_0000 + b2 * 0x100 + b3,
            0 <= b0 < 256 && 0 <= b1 < 256 && 0 <= b2 < 256 && 0 <= b3 < 256,
    ;
    let w = v as u32;
    assert(w / 0x100_0000 == b0 && (w / 0x1_0000) % 0x100 == b1 && (w / 0x100) % 0x100 == b2
        && w % 0x100 == b3) by (nonlinear_arith)
        requires
            w == b0 * 0x100_0000 + b1 * 0x1_0000 + b2 * 0x100 + b3,
            0 <= b0 < 256 && 0 <= b1 < 256 && 0 <= b2 < 256 && 0 <= b3 < 256,
    ;
    assert(be_bytes_of(w) =~= b);
}

/// Law: encoding an unsigned 32-bit integer as 4 big-endian bytes and
/// decoding them yields the original integer.
pub proof fn lemma_u32_bytes_round_trip(v: u32)
    ensures
        be32_of(be_bytes_of(v)) == v,
{
    let s = be_bytes_of(v);
    assert(s[0] == (v / 0x100_0000) as u8 && s[1] == ((v / 0x1_0000) % 0x100) as u8 && s[2] == ((
    v / 0x100) % 0x100) as u8 && s[3] == (v % 0x100) as u8);
    assert((v / 0x100_0000) * 0x100_0000 + ((v / 0x1_0000) % 0x100) * 0x1_0000 + ((v / 0x100)
        % 0x100) * 0x100 + (v % 0x100) == v) by (bit_vector);
}

/// The character of the decimal digit `d`.
pub open spec fn digit_char(d: int) -> char
    recommends
        0 <= d <= 9,
{
    ((48 + d) as u8) as char
}

/// The decimal representation of a natural number.
pub open spec fn dec_of(n: nat) -> Seq<char>
    decreases n,
{
    if n < 10 {
        seq![digit_char(n as int)]
    } else {
        dec_of(n / 10) + seq![digit_char((n % 10) as int)]
    }
}

/// The decimal representation of an integer, with a sign when negative.
pub open spec fn dec_int_of(n: int) -> Seq<char> {
    if n < 0 {
        seq!['-'] + dec_of((-n) as nat)
    } else {
        dec_of(n as nat)
    }
}

/// The one-character string of the decimal digit `d`.
fn digit_str(d: u8) -> (r: &'static str)
    requires
        d < 10,
    ensures
        r@ == seq![digit_char(d as int)],
{
    let r = match d {
        0 => "0",
        1 => "1",
        2 => "2",
        3 => "3",
        4 => "4",
        5 => "5",
        6 => "6",
        7 => "7",
        8 => "8",
        _ => "9",
    };
    proof {
        reveal_strlit("0");
        reveal_strlit("1");
        reveal_strlit("2");
        reveal_strlit("3");
        reveal_strlit("4");
        reveal_strlit("5");
        reveal_strlit("6");
        reveal_strlit("7");
        reveal_strlit("8");
        reveal_strlit("9");
        assert(r@ =~= seq![digit_char(d as int)]);
    }
    r
}

/// Writes an unsigned 64-bit integer in decimal.
pub fn u64_to_dec(n: u64) -> (r: String)
    ensures
        r@ == dec_of(n as nat),
    decreases n,
{
    let last = digit_str((n % 10) as u8);
    if n < 10 {
        last.to_owned()
    } else {
        let mut front = u64_to_dec(n / 10);
        front.append(last);
        front
    }
}

/// Writes a signed 64-bit integer in decimal.
pub fn i64_to_dec(v: i64) -> (r: String)
    ensures
        r@ == dec_int_of(v as int),
{
    if v >= 0 {
        u64_to_dec(v as u64)
    } else {
        let mag: u64 = ((-(v + 1)) as u64) + 1;
        proof {
            reveal_strlit("-");
        }
        let mut r = "-".to_owned();
        let m = u64_to_dec(mag);
        r.append(m.as_str());
        proof {
            assert(r@ =~= dec_int_of(v as int));
        }
        r
    }
}

/// `c` may appear unquoted in the plain textual form: a letter, a digit,
/// `.`, `:` or `/`.
pub open spec fn is_plain_char(c: char) -> bool {
    (48 <= c as u32 && c as u32 <= 57) || (65 <= c as u32 && c as u32 <= 90) || (97 <= c as u32
        && c as u32 <= 122) || c == '.' || c == ':' || c == '/'
}

/// End of the maximal run of plain characters in `t` starting at `i`.
pub open spec fn plain_run_end(t: Seq<char>, i: int) -> int
    decreases t.len() - i,
{
    if i < 0 || i >= t.len() {
        i
    } else if is_plain_char(t[i]) {
        plain_run_end(t, i + 1)
    } else {
        i
    }
}

/// A quoted group of plain characters starts at `i`: a `"`, a nonempty
/// run of plain characters, and a closing `"`.
pub open spec fn quote_match_at(t: Seq<char>, i: int) -> bool {
    &&& 0 <= i
    &&& i + 1 < t.len()
    &&& t[i] == '"'
    &&& is_plain_char(t[i + 1])
    &&& plain_run_end(t, i + 1) < t.len()
    &&& t[plain_run_end(t, i + 1)] == '"'
}

/// The first position at or after `i` where a quoted group starts.
pub open spec fn first_quote_match(t: Seq<char>, i: int) -> Option<int>
    decreases t.len() - i,
{
    if i < 0 || i >= t.len() {
        None
    } else if quote_match_at(t, i) {
        Some(i)
    } else {
        first_quote_match(t, i + 1)
    }
}

/// What `parse_string` returns: the contents of the first quoted group of
/// plain characters, or the whole text when no such group occurs.
pub open spec fn parse_string_spec(t: Seq<char>) -> Seq<char> {
    match first_quote_match(t, 0) {
        Some(i) => t.subrange(i + 1, plain_run_end(t, i + 1)),
        None => t,
    }
}

/// Decides whether `c` is a plain character.
fn is_plain(c: char) -> (r: bool)
    ensures
        r == is_plain_char(c),
{
    let u = c as u32;
    (48 <= u && u <= 57) || (65 <= u && u <= 90) || (97 <= u && u <= 122) || c == '.' || c == ':'
        || c == '/'
}

/// Scans the maximal run of plain characters from `i` on.
fn plain_scan(s: &str, i: usize) -> (j: usize)
    requires
        i <= s@.len(),
    ensures
        j as int == plain_run_end(s@, i as int),
        i <= j <= s@.len(),
{
    let n = s.unicode_len();
    let mut j: usize = i;
    loop
        invariant
            i <= j <= n == s@.len(),
            plain_run_end(s@, i as int) == plain_run_end(s@, j as int),
        ensures
            i <= j <= s@.len(),
            j as int == plain_run_end(s@, i as int),
        decreases n - j,
    {
        if j == n {
            break ;
        }
        if !is_plain(s.get_char(j)) {
            break ;
        }
        j = j + 1;
    }
    j
}

/// Takes a string which is denoted within quotation marks and returns
/// that string, or the original string if no quoted group is found.
pub fn parse_string(s: &str) -> (r: String)
    ensures
        r@ == parse_string_spec(s@),
{
    let n = s.unicode_len();
    let mut i: usize = 0;
    while i < n
        invariant
            i <= n == s@.len(),
            first_quote_match(s@, 0) == first_quote_match(s@, i as int),
        decreases n - i,
    {
        let mut hit = false;
        let mut j: usize = 0;
        if i + 1 < n {
            if s.get_char(i) == '"' {
                if is_plain(s.get_char(i + 1)) {
                    j = plain_scan(s, i + 1);
                    if j < n && s.get_char(j) == '"' {
                        hit = true;
                    }
                }
            }
        }
        if hit {
            proof {
                assert(quote_match_at(s@, i as int));
            }
            return s.substring_char(i + 1, j).to_owned();
        }
        proof {
            assert(!quote_match_at(s@, i as int));
        }
        i = i + 1;
    }
    s.to_owned()
}

/// Relies on String::from_utf8: it succeeds exactly on valid UTF-8, and
/// the returned string encodes back to the given bytes.
#[verifier::external_body]
pub(crate) fn bytes_to_string(b: &[u8]) -> (r: Option<String>)
    ensures
        r is Some <==> valid_utf8(b@),
        match r {
            Some(t) => encode_utf8(t@) == b@,
            None => true,
        },
{
    match String::from_utf8(b.to_vec()) {
        Ok(t) => Some(t),
        Err(_) => None,
    }
}

/// The library's textual form of a decoded node: integers in decimal and
/// UTF-8 byte strings within quotation marks. Lists, dictionaries and
/// byte strings that are not UTF-8 have none.
pub open spec fn render_node(v: Bnode) -> Option<Seq<char>> {
    match v {
        Bnode::Int(n) => Some(dec_int_of(n)),
        Bnode::Bytes(b) => if valid_utf8(b) {
            Some(seq!['"'] + decode_utf8(b) + seq!['"'])
        } else {
            None
        },
        _ => None,
    }
}

/// Finds the value of `field` in decoded dictionary entries and returns
/// its raw bytes; `FieldNotFound` when the key is absent, and a decoding
/// error when the value is not a byte string.
pub fn decode_field_as_bytes(map: &Vec<(Vec<u8>, Bval)>, field: &str) -> (res: Result<
    Vec<u8>,
    Error,
>)
    ensures
        match res {
            Ok(b) => dict_lookup(dv_entries(map@), field.spec_bytes()) == Some(Bnode::Bytes(b@)),
            Err(e) => match dict_lookup(dv_entries(map@), field.spec_bytes()) {
                None => e == Error::FieldNotFound,
                Some(node) => e == Error::DecodeErr && !(node is Bytes),
            },
        },
{
    match dict_get(map, field.as_bytes()) {
        None => Err(Error::FieldNotFound),
        Some(v) => match v {
            Bval::Bytes(b) => Ok(slice_to_vec(b.as_slice())),
            _ => Err(Error::DecodeErr),
        },
    }
}

/// Finds the value of `field` in decoded dictionary entries and returns
/// its textual form, unquoted by `parse_string`; `FieldNotFound` when the
/// key is absent, and a decoding error when the value has no textual
/// form.
pub fn decode_field_as_string(map: &Vec<(Vec<u8>, Bval)>, field: &str) -> (res: Result<
    String,
    Error,
>)
    ensures
        ({
            let looked = dict_lookup(dv_entries(map@), field.spec_bytes());
            match looked {
                None => res == Err::<String, Error>(Error::FieldNotFound),
                Some(node) => match render_node(node) {
                    Some(t) => res is Ok && res->Ok_0@ == parse_string_spec(t),
                    None => res == Err::<String, Error>(Error::DecodeErr),
                },
            }
        }),
{
    broadcast use vstd::utf8::encode_utf8_decode_utf8;

    match dict_get(map, field.as_bytes()) {
        None => Err(Error::FieldNotFound),
        Some(v) => match v {
            Bval::Int(n) => {
                let t = i64_to_dec(*n);
                Ok(parse_string(t.as_str()))
            },
            Bval::Bytes(b) => match bytes_to_string(b.as_slice()) {
                None => Err(Error::DecodeErr),
                Some(t) => {
                    proof {
                        reveal_strlit("\"");
                    }
                    let mut q = "\"".to_owned();
                    q.append(t.as_str());
                    q.append("\"");
                    proof {
                        assert(q@ =~= seq!['"'] + decode_utf8(b@) + seq!['"']);
                    }
                    Ok(parse_string(q.as_str()))
                },
            },
            _ => Err(Error::DecodeErr),
        },
    }
}

} // verus!
