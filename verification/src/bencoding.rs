//! The bencode serialization format: a tagged tree over integers, byte
//! strings, lists and dictionaries, a mathematical parsing function that
//! defines the format, and a verified decoder.
//!
//! Integers must fit a signed 64-bit word; a byte string's length must fit
//! the machine's word. Documents beyond those machine limits are rejected.

use vstd::prelude::*;
use vstd::slice::slice_index_get;
use vstd::slice::slice_subrange;
use vstd::slice::slice_to_vec;
use crate::util::Error;

verus! {

/// The mathematical model of a decoded bencode node.
pub enum Bnode {
    Int(int),
    Bytes(Seq<u8>),
    List(Seq<Bnode>),
    Dict(Seq<(Seq<u8>, Bnode)>),
}

/// A decoded bencode value.
pub enum Bval {
    Int(i64),
    Bytes(Vec<u8>),
    List(Vec<Bval>),
    Dict(Vec<(Vec<u8>, Bval)>),
}

/// The models of a sequence of decoded values.
pub open spec fn dv_seq(q: Seq<Bval>) -> Seq<Bnode>
    decreases q,
{
    Seq::new(q.len(), |k: int| if 0 <= k < q.len() { q[k].dv() } else { Bnode::Int(0) })
}

/// The models of a sequence of decoded dictionary entries.
pub open spec fn dv_entries(q: Seq<(Vec<u8>, Bval)>) -> Seq<(Seq<u8>, Bnode)>
    decreases q,
{
    Seq::new(
        q.len(),
        |k: int|
            if 0 <= k < q.len() {
                (q[k].0@, q[k].1.dv())
            } else {
                (Seq::<u8>::empty(), Bnode::Int(0))
            },
    )
}

impl Bval {
    /// The mathematical value of this node.
    pub open spec fn dv(self) -> Bnode
        decreases self,
    {
        match self {
            Bval::Int(n) => Bnode::Int(n as int),
            Bval::Bytes(b) => Bnode::Bytes(b@),
            Bval::List(vs) => Bnode::List(dv_seq(vs@)),
            Bval::Dict(es) => Bnode::Dict(dv_entries(es@)),
        }
    }
}

/// `b` is an ASCII decimal digit.
pub open spec fn is_digit(b: u8) -> bool {
    48 <= b <= 57
}

/// End of the maximal run of decimal digits in `s` starting at `i`.
pub open spec fn digit_run_end(s: Seq<u8>, i: int) -> int
    decreases s.len() - i,
{
    if i < 0 || i >= s.len() {
        i
    } else if is_digit(s[i]) {
        digit_run_end(s, i + 1)
    } else {
        i
    }
}

/// The value of the decimal digits `s[i..j]`.
pub open spec fn digits_val(s: Seq<u8>, i: int, j: int) -> int
    decreases j - i,
{
    if j <= i {
        0
    } else {
        digits_val(s, i, j - 1) * 10 + (s[j - 1] - 48)
    }
}

/// Parses the byte string `<length>:<contents>` at `i`: the contents and
/// the position after them, or `None` if none starts there.
pub open spec fn bparse_bytes(s: Seq<u8>, i: int) -> Option<(Seq<u8>, int)> {
    if 0 <= i < s.len() && is_digit(s[i]) {
        let j = digit_run_end(s, i);
        let n = digits_val(s, i, j);
        if j < s.len() && s[j] == 58 && j + 1 + n <= s.len() {
            Some((s.subrange(j + 1, j + 1 + n), j + 1 + n))
        } else {
            None
        }
    } else {
        None
    }
}

/// Parses the integer `i<digits>e` at `i` (optionally `i-<digits>e`): its
/// value and the position after the closing `e`.
pub open spec fn bparse_int(s: Seq<u8>, i: int) -> Option<(int, int)> {
    if 0 <= i < s.len() && s[i] == 105 {
        let neg = i + 1 < s.len() && s[i + 1] == 45;
        let d0 = if neg {
            i + 2
        } else {
            i + 1
        };
        let j = digit_run_end(s, d0);
        if j > d0 && j < s.len() && s[j] == 101 && digits_val(s, d0, j) <= i64::MAX {
            Some(
                (
                    if neg {
                        -digits_val(s, d0, j)
                    } else {
                        digits_val(s, d0, j)
                    },
                    j + 1,
                ),
            )
        } else {
            None
        }
    } else {
        None
    }
}

/// Parses the bencode value at `i`: its model and the position after it.
/// This function defines the format.
pub open spec fn bparse(s: Seq<u8>, i: int) -> Option<(Bnode, int)>
    decreases s.len() - i, 0int,
{
    if i < 0 || i >= s.len() {
        None
    } else if s[i] == 105 {
        match bparse_int(s, i) {
            Some((v, j)) => Some((Bnode::Int(v), j)),
            None => None,
        }
    } else if is_digit(s[i]) {
        match bparse_bytes(s, i) {
            Some((b, j)) => Some((Bnode::Bytes(b), j)),
            None => None,
        }
    } else if s[i] == 108 {
        match bparse_items(s, i + 1) {
            Some((vs, j)) => Some((Bnode::List(vs), j)),
            None => None,
        }
    } else if s[i] == 100 {
        match bparse_entries(s, i + 1) {
            Some((es, j)) => Some((Bnode::Dict(es), j)),
            None => None,
        }
    } else {
        None
    }
}

/// Parses list items at `i` up to and including the closing `e`.
pub open spec fn bparse_items(s: Seq<u8>, i: int) -> Option<(Seq<Bnode>, int)>
    decreases s.len() - i, 1int,
{
    if i < 0 || i >= s.len() {
        None
    } else if s[i] == 101 {
        Some((Seq::empty(), i + 1))
    } else {
        match bparse(s, i) {
            Some((v, j)) => if i < j <= s.len() {
                match bparse_items(s, j) {
                    Some((rest, k)) => Some((seq![v] + rest, k)),
                    None => None,
                }
            } else {
                None
            },
            None => None,
        }
    }
}

/// Parses dictionary entries at `i` up to and including the closing `e`.
pub open spec fn bparse_entries(s: Seq<u8>, i: int) -> Option<(Seq<(Seq<u8>, Bnode)>, int)>
    decreases s.len() - i, 1int,
{
    if i < 0 || i >= s.len() {
        None
    } else if s[i] == 101 {
        Some((Seq::empty(), i + 1))
    } else {
        match bparse_bytes(s, i) {
            Some((key, q)) => if i < q <= s.len() {
                match bparse(s, q) {
                    Some((v, r)) => if q < r <= s.len() {
                        match bparse_entries(s, r) {
                            Some((rest, k)) => Some((seq![(key, v)] + rest, k)),
                            None => None,
                        }
                    } else {
                        None
                    },
                    None => None,
                }
            } else {
                None
            },
            None => None,
        }
    }
}

/// The model of a whole document: one bencode value spanning all of `s`.
pub open spec fn bdoc(s: Seq<u8>) -> Option<Bnode> {
    match bparse(s, 0) {
        Some((v, j)) => if j == s.len() {
            Some(v)
        } else {
            None
        },
        None => None,
    }
}

proof fn lemma_digits_val_nonneg(s: Seq<u8>, i: int, j: int)
    requires
        forall|k: int| i <= k < j ==> is_digit(s[k]),
    ensures
        digits_val(s, i, j) >= 0,
    decreases j - i,
{
    if j > i {
        lemma_digits_val_nonneg(s, i, j - 1);
    }
}

/// Reading further digits never shrinks the value.
proof fn lemma_digits_val_mono(s: Seq<u8>, i: int, m: int, j: int)
    requires
        i <= m <= j,
        forall|k: int| i <= k < j ==> is_digit(s[k]),
    ensures
        digits_val(s, i, j) >= digits_val(s, i, m),
    decreases j - m,
{
    if j > m {
        lemma_digits_val_mono(s, i, m, j - 1);
        lemma_digits_val_nonneg(s, i, j - 1);
    }
}

/// Scans the maximal digit run from `i` on.
fn scan_digits(s: &[u8], i: usize) -> (j: usize)
    requires
        i <= s@.len(),
    ensures
        j as int == digit_run_end(s@, i as int),
        i <= j <= s@.len(),
        forall|k: int| i <= k < j ==> is_digit(s@[k]),
{
    let mut j: usize = i;
    loop
        invariant
            i <= j <= s@.len(),
            digit_run_end(s@, i as int) == digit_run_end(s@, j as int),
            forall|k: int| i <= k < j ==> is_digit(s@[k]),
        ensures
            i <= j <= s@.len(),
            j as int == digit_run_end(s@, i as int),
            forall|k: int| i <= k < j ==> is_digit(s@[k]),
        decreases s@.len() - j,
    {
        if j == s.len() {
            break ;
        }
        let b = *slice_index_get(s, j);
        if !(48 <= b && b <= 57) {
            break ;
        }
        j = j + 1;
    }
    j
}

/// Computes the value of the digits `s[i..j]`, unless it exceeds `cap`.
fn digits_value_capped(s: &[u8], i: usize, j: usize, cap: u64) -> (res: Option<u64>)
    requires
        i <= j <= s@.len(),
        forall|k: int| i <= k < j ==> is_digit(s@[k]),
    ensures
        match res {
            Some(v) => v as int == digits_val(s@, i as int, j as int) && v <= cap,
            None => digits_val(s@, i as int, j as int) > cap,
        },
{
    let mut acc: u64 = 0;
    let mut k: usize = i;
    while k < j
        invariant
            i <= k <= j <= s@.len(),
            forall|m: int| i <= m < j ==> is_digit(s@[m]),
            acc as int == digits_val(s@, i as int, k as int),
            acc <= cap,
        decreases j - k,
    {
        let d = (*slice_index_get(s, k) - 48) as u64;
        proof {
            assert(digits_val(s@, i as int, k + 1) == digits_val(s@, i as int, k as int) * 10 + (
            s@[k as int] - 48));
            lemma_digits_val_mono(s@, i as int, k + 1, j as int);
        }
        if acc > cap / 10 {
            proof {
                assert(acc * 10 + d > cap);
            }
            return None;
        }
        let acc10 = acc * 10;
        if d > cap - acc10 {
            return None;
        }
        acc = acc10 + d;
        k = k + 1;
    }
    Some(acc)
}

/// Decodes the byte string `<length>:<contents>` at `i`.
pub fn parse_bytes_at(s: &[u8], i: usize) -> (res: Result<(Vec<u8>, usize), Error>)
    requires
        i <= s@.len(),
    ensures
        match res {
            Ok(p) => bparse_bytes(s@, i as int) == Some((p.0@, p.1 as int)) && i < p.1 <= s@.len(),
            Err(e) => bparse_bytes(s@, i as int) is None && e == Error::DecodeErr,
        },
{
    if i == s.len() {
        return Err(Error::DecodeErr);
    }
    let b0 = *slice_index_get(s, i);
    if !(48 <= b0 && b0 <= 57) {
        return Err(Error::DecodeErr);
    }
    let j = scan_digits(s, i);
    if j == s.len() {
        return Err(Error::DecodeErr);
    }
    if *slice_index_get(s, j) != 58 {
        return Err(Error::DecodeErr);
    }
    let cap = (s.len() - j - 1) as u64;
    match digits_value_capped(s, i, j, cap) {
        None => Err(Error::DecodeErr),
        Some(n64) => {
            let n = n64 as usize;
            let end = j + 1 + n;
            let b = slice_to_vec(slice_subrange(s, j + 1, end));
            Ok((b, end))
        },
    }
}

/// Decodes the integer `i<digits>e` at `i`.
pub fn parse_int_at(s: &[u8], i: usize) -> (res: Result<(i64, usize), Error>)
    requires
        i <= s@.len(),
    ensures
        match res {
            Ok(p) => bparse_int(s@, i as int) == Some((p.0 as int, p.1 as int)) && i < p.1
                <= s@.len(),
            Err(e) => bparse_int(s@, i as int) is None && e == Error::DecodeErr,
        },
{
    if i == s.len() {
        return Err(Error::DecodeErr);
    }
    if *slice_index_get(s, i) != 105 {
        return Err(Error::DecodeErr);
    }
    let mut neg = false;
    if i + 1 < s.len() {
        if *slice_index_get(s, i + 1) == 45 {
            neg = true;
        }
    }
    let d0 = if neg {
        i + 2
    } else {
        i + 1
    };
    let j = scan_digits(s, d0);
    if j == d0 {
        return Err(Error::DecodeErr);
    }
    if j == s.len() {
        return Err(Error::DecodeErr);
    }
    if *slice_index_get(s, j) != 101 {
        return Err(Error::DecodeErr);
    }
    match digits_value_capped(s, d0, j, i64::MAX as u64) {
        None => Err(Error::DecodeErr),
        Some(mag) => {
            let v: i64 = if neg {
                -(mag as i64)
            } else {
                mag as i64
            };
            Ok((v, j + 1))
        },
    }
}

/// Decodes the bencode value at `i`, returning its tree and the position
/// after it.
pub fn parse_value(s: &[u8], i: usize) -> (res: Result<(Bval, usize), Error>)
    requires
        i <= s@.len(),
    ensures
        match res {
            Ok(p) => bparse(s@, i as int) == Some((p.0.dv(), p.1 as int)) && i < p.1 <= s@.len(),
            Err(e) => bparse(s@, i as int) is None && e == Error::DecodeErr,
        },
    decreases s@.len() - i, 0int,
{
    if i == s.len() {
        return Err(Error::DecodeErr);
    }
    let c = *slice_index_get(s, i);
    if c == 105 {
        match parse_int_at(s, i) {
            Ok((v, j)) => Ok((Bval::Int(v), j)),
            Err(e) => Err(e),
        }
    } else if 48 <= c && c <= 57 {
        match parse_bytes_at(s, i) {
            Ok((b, j)) => Ok((Bval::Bytes(b), j)),
            Err(e) => Err(e),
        }
    } else if c == 108 {
        match parse_items(s, i + 1) {
            Ok((vs, j)) => Ok((Bval::List(vs), j)),
            Err(e) => Err(e),
        }
    } else if c == 100 {
        match parse_entries(s, i + 1) {
            Ok((es, j)) => Ok((Bval::Dict(es), j)),
            Err(e) => Err(e),
        }
    } else {
        Err(Error::DecodeErr)
    }
}

/// Decodes list items at `i` up to and including the closing `e`.
pub fn parse_items(s: &[u8], i: usize) -> (res: Result<(Vec<Bval>, usize), Error>)
    requires
        i <= s@.len(),
    ensures
        match res {
            Ok(p) => bparse_items(s@, i as int) == Some((dv_seq(p.0@), p.1 as int)) && i < p.1
                <= s@.len(),
            Err(e) => bparse_items(s@, i as int) is None && e == Error::DecodeErr,
        },
    decreases s@.len() - i, 1int,
{
    if i == s.len() {
        return Err(Error::DecodeErr);
    }
    if *slice_index_get(s, i) == 101 {
        let vs: Vec<Bval> = Vec::new();
        proof {
            assert(dv_seq(vs@) =~= Seq::<Bnode>::empty());
        }
        return Ok((vs, i + 1));
    }
    match parse_value(s, i) {
        Err(e) => Err(e),
        Ok((v, j)) => match parse_items(s, j) {
            Err(e) => Err(e),
            Ok((mut rest, k)) => {
                let ghost rest0 = rest@;
                rest.insert(0, v);
                proof {
                    assert(dv_seq(rest@) =~= seq![v.dv()] + dv_seq(rest0));
                }
                Ok((rest, k))
            },
        },
    }
}

/// Decodes dictionary entries at `i` up to and including the closing `e`.
pub fn parse_entries(s: &[u8], i: usize) -> (res: Result<(Vec<(Vec<u8>, Bval)>, usize), Error>)
    requires
        i <= s@.len(),
    ensures
        match res {
            Ok(p) => bparse_entries(s@, i as int) == Some((dv_entries(p.0@), p.1 as int)) && i < p.1
                <= s@.len(),
            Err(e) => bparse_entries(s@, i as int) is None && e == Error::DecodeErr,
        },
    decreases s@.len() - i, 1int,
{
    if i == s.len() {
        return Err(Error::DecodeErr);
    }
    if *slice_index_get(s, i) == 101 {
        let es: Vec<(Vec<u8>, Bval)> = Vec::new();
        proof {
            assert(dv_entries(es@) =~= Seq::<(Seq<u8>, Bnode)>::empty());
        }
        return Ok((es, i + 1));
    }
    match parse_bytes_at(s, i) {
        Err(e) => Err(e),
        Ok((key, q)) => match parse_value(s, q) {
            Err(e) => Err(e),
            Ok((v, r)) => match parse_entries(s, r) {
                Err(e) => Err(e),
                Ok((mut rest, k)) => {
                    let ghost rest0 = rest@;
                    let ghost gkey = key@;
                    rest.insert(0, (key, v));
                    proof {
                        assert(dv_entries(rest@) =~= seq![(gkey, v.dv())] + dv_entries(rest0));
                    }
                    Ok((rest, k))
                },
            },
        },
    }
}

/// Byte span of the value of `key` among dictionary entries from `i` on:
/// the start and end offsets of the value as encoded in `s`.
pub open spec fn entries_span(s: Seq<u8>, i: int, key: Seq<u8>) -> Option<(int, int)>
    decreases s.len() - i,
{
    if i < 0 || i >= s.len() {
        None
    } else if s[i] == 101 {
        None
    } else {
        match bparse_bytes(s, i) {
            Some((k, q)) => if i < q <= s.len() {
                match bparse(s, q) {
                    Some((v, r)) => if q < r <= s.len() {
                        if k == key {
                            Some((q, r))
                        } else {
                            entries_span(s, r, key)
                        }
                    } else {
                        None
                    },
                    None => None,
                }
            } else {
                None
            },
            None => None,
        }
    }
}

/// Byte span of the value of `key` in a top-level dictionary document:
/// where in `s` the value's own encoding starts and ends.
pub open spec fn field_span(s: Seq<u8>, key: Seq<u8>) -> Option<(int, int)> {
    if s.len() > 0 && s[0] == 100 {
        entries_span(s, 1, key)
    } else {
        None
    }
}

/// Compares two byte slices for equality.
fn bytes_eq(a: &[u8], b: &[u8]) -> (r: bool)
    ensures
        r == (a@ == b@),
{
    if a.len() != b.len() {
        proof {
            assert(a@ != b@);
        }
        return false;
    }
    let mut k: usize = 0;
    while k < a.len()
        invariant
            k <= a@.len() == b@.len(),
            forall|m: int| 0 <= m < k ==> a@[m] == b@[m],
        decreases a@.len() - k,
    {
        if *slice_index_get(a, k) != *slice_index_get(b, k) {
            proof {
                assert(a@ != b@);
            }
            return false;
        }
        k = k + 1;
    }
    proof {
        assert(a@ =~= b@);
    }
    true
}

/// Finds the byte span of the value of `key` in a top-level dictionary
/// document.
pub fn find_field_span(s: &[u8], key: &[u8]) -> (res: Option<(usize, usize)>)
    ensures
        match res {
            Some(p) => field_span(s@, key@) == Some((p.0 as int, p.1 as int)) && p.0 < p.1
                <= s@.len(),
            None => field_span(s@, key@) is None,
        },
{
    if s.len() == 0 {
        return None;
    }
    if *slice_index_get(s, 0) != 100 {
        return None;
    }
    let mut i: usize = 1;
    while i < s.len()
        invariant
            1 <= i <= s@.len(),
            s@.len() > 0 && s@[0] == 100,
            entries_span(s@, 1, key@) == entries_span(s@, i as int, key@),
        decreases s@.len() - i,
    {
        if *slice_index_get(s, i) == 101 {
            return None;
        }
        match parse_bytes_at(s, i) {
            Err(_) => {
                return None;
            },
            Ok((k, q)) => match parse_value(s, q) {
                Err(_) => {
                    return None;
                },
                Ok((_, r)) => {
                    if bytes_eq(k.as_slice(), key) {
                        return Some((q, r));
                    }
                    i = r;
                },
            },
        }
    }
    None
}

/// Looks `key` up among dictionary entries, first match first.
pub open spec fn dict_lookup(es: Seq<(Seq<u8>, Bnode)>, key: Seq<u8>) -> Option<Bnode>
    decreases es.len(),
{
    if es.len() == 0 {
        None
    } else if es[0].0 == key {
        Some(es[0].1)
    } else {
        dict_lookup(es.drop_first(), key)
    }
}

/// Looks `key` up in decoded dictionary entries.
pub fn dict_get<'a>(es: &'a Vec<(Vec<u8>, Bval)>, key: &[u8]) -> (res: Option<&'a Bval>)
    ensures
        match res {
            Some(v) => dict_lookup(dv_entries(es@), key@) == Some(v.dv()),
            None => dict_lookup(dv_entries(es@), key@) is None,
        },
{
    let n = es.len();
    let mut k: usize = 0;
    proof {
        assert(dv_entries(es@).skip(0) =~= dv_entries(es@));
    }
    while k < n
        invariant
            k <= n == es@.len(),
            dict_lookup(dv_entries(es@), key@) == dict_lookup(
                dv_entries(es@).skip(k as int),
                key@,
            ),
        decreases n - k,
    {
        let pair = &es[k];
        proof {
            assert(dv_entries(es@).skip(k as int)[0] == (es@[k as int].0@, es@[k as int].1.dv()));
            assert(dv_entries(es@).skip(k as int).drop_first() =~= dv_entries(es@).skip(
                k as int + 1,
            ));
        }
        if bytes_eq(pair.0.as_slice(), key) {
            return Some(&pair.1);
        }
        k = k + 1;
    }
    proof {
        assert(dv_entries(es@).skip(n as int) =~= Seq::<(Seq<u8>, Bnode)>::empty());
    }
    None
}

proof fn lemma_entries_span_lookup(s: Seq<u8>, i: int, key: Seq<u8>)
    requires
        bparse_entries(s, i) is Some,
        entries_span(s, i, key) is Some,
    ensures
        ({
            let (q, r) = entries_span(s, i, key)->Some_0;
            &&& bparse(s, q) is Some
            &&& bparse(s, q)->Some_0.1 == r
            &&& dict_lookup(bparse_entries(s, i)->Some_0.0, key) == Some(
                bparse(s, q)->Some_0.0,
            )
        }),
    decreases s.len() - i,
{
    let (k0, q0) = bparse_bytes(s, i)->Some_0;
    let (v, r0) = bparse(s, q0)->Some_0;
    let (rest, _) = bparse_entries(s, r0)->Some_0;
    assert(bparse_entries(s, i)->Some_0.0 == seq![(k0, v)] + rest);
    assert((seq![(k0, v)] + rest)[0] == (k0, v));
    if k0 == key {
    } else {
        assert((seq![(k0, v)] + rest).drop_first() =~= rest);
        lemma_entries_span_lookup(s, r0, key);
    }
}

/// Law: the byte span that `field_span` finds is exactly the encoding of
/// the value that looking `key` up in the decoded dictionary yields.
pub proof fn lemma_field_span_is_value(s: Seq<u8>, key: Seq<u8>)
    requires
        bdoc(s) is Some,
        bdoc(s)->Some_0 is Dict,
        field_span(s, key) is Some,
    ensures
        ({
            let (q, r) = field_span(s, key)->Some_0;
            &&& bparse(s, q) is Some
            &&& bparse(s, q)->Some_0.1 == r
            &&& dict_lookup(bdoc(s)->Some_0->Dict_0, key) == Some(bparse(s, q)->Some_0.0)
        }),
{
    lemma_entries_span_lookup(s, 1, key);
}

/// Decodes a whole document: one bencode value spanning all of `s`.
pub fn decode(s: &[u8]) -> (res: Result<Bval, Error>)
    ensures
        match res {
            Ok(v) => bdoc(s@) == Some(v.dv()),
            Err(e) => bdoc(s@) is None && e == Error::DecodeErr,
        },
{
    match parse_value(s, 0) {
        Ok((v, j)) => if j == s.len() {
            Ok(v)
        } else {
            Err(Error::DecodeErr)
        },
        Err(e) => Err(e),
    }
}

} // verus!
