//! The announce request: serializing announce parameters into a query
//! string and building the announce URL from a metainfo model.

use vstd::prelude::*;
use vstd::string::StrSliceExecFns;
use vstd::string::StringExecFns;
use vstd::string::StringSliceAdditionalSpecFns;
use crate::metainfo::MetaInfo;
use crate::util::dec_of;
use crate::util::u64_to_dec;

verus! {

/// Errors of the announce exchange.
#[derive(Debug, Clone, Copy, PartialEq, Eq, Structural)]
pub enum TrackerError {
    /// The announce transport exchange failed.
    RetrievePeerError,
}

/// The query string that an ordered sequence of key/value pairs denotes:
/// `key=value` pairs joined by `&`, in the given order, with no escaping.
pub open spec fn query_of(ps: Seq<(Seq<char>, Seq<char>)>) -> Seq<char>
    decreases ps.len(),
{
    if ps.len() == 0 {
        Seq::empty()
    } else if ps.len() == 1 {
        ps[0].0 + seq!['='] + ps[0].1
    } else {
        ps[0].0 + seq!['='] + ps[0].1 + seq!['&'] + query_of(ps.drop_first())
    }
}

/// The character sequences of a sequence of string pairs.
pub open spec fn pairs_view(ps: Seq<(&str, &str)>) -> Seq<(Seq<char>, Seq<char>)> {
    Seq::new(ps.len(), |k: int| (ps[k].0@, ps[k].1@))
}

/// The query string of `parameters[k..]`.
fn params_from(parameters: &Vec<(&str, &str)>, k: usize) -> (r: String)
    requires
        k <= parameters@.len(),
    ensures
        r@ == query_of(pairs_view(parameters@).skip(k as int)),
    decreases parameters@.len() - k,
{
    proof {
        reveal_strlit("=");
        reveal_strlit("&");
    }
    if k == parameters.len() {
        proof {
            assert(pairs_view(parameters@).skip(k as int) =~= Seq::<(Seq<char>, Seq<char>)>::empty());
        }
        String::new()
    } else {
        let pair = parameters[k];
        let mut h = pair.0.to_owned();
        h.append("=");
        h.append(pair.1);
        if k + 1 == parameters.len() {
            proof {
                assert(pairs_view(parameters@).skip(k as int).len() == 1);
                assert(pairs_view(parameters@).skip(k as int)[0] == (parameters@[k as int].0@,
                parameters@[k as int].1@));
            }
            h
        } else {
            let rest = params_from(parameters, k + 1);
            h.append("&");
            h.append(rest.as_str());
            proof {
                let full = pairs_view(parameters@).skip(k as int);
                assert(full[0] == (parameters@[k as int].0@, parameters@[k as int].1@));
                assert(full.drop_first() =~= pairs_view(parameters@).skip(k as int + 1));
                assert(h@ =~= query_of(full));
            }
            h
        }
    }
}

/// Encodes parameters into a query string: `key=value` pairs joined by
/// `&`, preserving the given order exactly, with no added escaping.
pub fn parameterize(parameters: Vec<(&str, &str)>) -> (r: String)
    ensures
        r@ == query_of(pairs_view(parameters@)),
{
    let r = params_from(&parameters, 0);
    proof {
        assert(pairs_view(parameters@).skip(0) =~= pairs_view(parameters@));
    }
    r
}

/// `b` needs no percent escape: a letter, a digit, `-`, `.`, `_` or `~`.
pub open spec fn pct_unreserved(b: u8) -> bool {
    (48 <= b <= 57) || (65 <= b <= 90) || (97 <= b <= 122) || b == 45 || b == 46 || b == 95 || b
        == 126
}

/// The character of the hexadecimal digit `d`, in upper case.
pub open spec fn hex_char(d: u8) -> char
    recommends
        d < 16,
{
    if d < 10 {
        ((48 + d) as u8) as char
    } else {
        ((55 + d) as u8) as char
    }
}

/// The percent-encoding of one byte.
pub open spec fn pct_char_seq(b: u8) -> Seq<char> {
    if pct_unreserved(b) {
        seq![b as char]
    } else {
        seq!['%', hex_char(b / 16), hex_char(b % 16)]
    }
}

/// The percent-encoding of a byte sequence.
pub open spec fn pct_of(bs: Seq<u8>) -> Seq<char>
    decreases bs.len(),
{
    if bs.len() == 0 {
        Seq::empty()
    } else {
        pct_char_seq(bs[0]) + pct_of(bs.drop_first())
    }
}

/// Relies on urlencoding::encode_binary: every byte except an unreserved
/// one becomes `%` and two upper-case hexadecimal digits.
#[verifier::external_body]
fn pct_encode_bytes(b: &[u8]) -> (r: String)
    ensures
        r@ == pct_of(b@),
{
    urlencoding::encode_binary(b).into_owned()
}

/// Relies on urlencoding::encode: percent-encodes the string's UTF-8
/// bytes, byte for byte as encode_binary does.
#[verifier::external_body]
fn pct_encode_str(s: &str) -> (r: String)
    ensures
        r@ == pct_of(s.spec_bytes()),
{
    urlencoding::encode(s).into_owned()
}

/// The standard announce parameter set for a metainfo model: digest and
/// peer identifier percent-encoded, a fresh exchange started with
/// nothing transferred yet.
pub open spec fn announce_params(m: MetaInfo, peer_id: &str, port: &str) -> Seq<
    (Seq<char>, Seq<char>),
> {
    seq![
        ("info_hash"@, pct_of(m.info_hash@)),
        ("peer_id"@, pct_of(peer_id.spec_bytes())),
        ("port"@, port@),
        ("uploaded"@, dec_of(0)),
        ("downloaded"@, dec_of(0)),
        ("left"@, dec_of(m.info.length as nat)),
        ("compact"@, dec_of(1)),
        ("event"@, "started"@),
    ]
}

/// The announce URL: the tracker endpoint, `?`, and the announce
/// parameters as a query string.
pub open spec fn announce_url_spec(m: MetaInfo, peer_id: &str, port: &str) -> Seq<char> {
    m.announce@ + seq!['?'] + query_of(announce_params(m, peer_id, port))
}

/// Builds the announce URL for a metainfo model: appends the standard
/// announce parameter set to the tracker endpoint.
pub fn announce_url(m: &MetaInfo, peer_id: &str, port: &str) -> (r: String)
    ensures
        r@ == announce_url_spec(*m, peer_id, port),
{
    proof {
        reveal_strlit("?");
    }
    let ih = pct_encode_bytes(m.info_hash.as_slice());
    let pid = pct_encode_str(peer_id);
    let zero = u64_to_dec(0);
    let left = u64_to_dec(m.info.length);
    let one = u64_to_dec(1);
    let mut params: Vec<(&str, &str)> = Vec::new();
    params.push(("info_hash", ih.as_str()));
    params.push(("peer_id", pid.as_str()));
    params.push(("port", port));
    params.push(("uploaded", zero.as_str()));
    params.push(("downloaded", zero.as_str()));
    params.push(("left", left.as_str()));
    params.push(("compact", one.as_str()));
    params.push(("event", "started"));
    proof {
        assert(pairs_view(params@) =~= announce_params(*m, peer_id, port));
    }
    let q = parameterize(params);
    let mut url = m.announce.as_str().to_owned();
    url.append("?");
    url.append(q.as_str());
    proof {
        assert(url@ =~= announce_url_spec(*m, peer_id, port));
    }
    url
}

} // verus!
