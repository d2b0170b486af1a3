//! The tracker response: a bencoded dictionary decoded into an announce
//! interval and a peer list, compact or dictionary-encoded, or a
//! tracker-reported failure surfaced verbatim.

use vstd::prelude::*;
use vstd::slice::slice_index_get;
use vstd::slice::slice_subrange;
use vstd::string::StringSliceAdditionalSpecFns;
use vstd::utf8::decode_utf8;
use vstd::utf8::valid_utf8;
use crate::bencoding::Bnode;
use crate::bencoding::Bval;
use crate::bencoding::bdoc;
use crate::bencoding::decode;
use crate::bencoding::dict_get;
use crate::bencoding::dict_lookup;
use crate::bencoding::dv_entries;
use crate::bencoding::dv_seq;
use crate::util::Error;
use crate::util::be32_of;
use crate::util::bytes_to_u32;
use crate::util::bytes_to_string;
use crate::util::decode_field_as_string;
use crate::util::parse_string_spec;
use crate::util::render_node;

verus! {

/// A participating peer returned by the tracker.
#[derive(Debug)]
#[allow(inconsistent_fields)]
pub enum Peer {
    /// From the compact form: 4 address bytes as one big-endian word,
    /// and a port.
    Compact { ip: u32, port: u16 },
    /// From the dictionary form: identifier, address text and port.
    Full { peer_id: String, ip: String, port: u16 },
}

/// The mathematical model of a peer.
#[allow(inconsistent_fields)]
pub ghost enum PeerModel {
    Compact { ip: int, port: int },
    Full { peer_id: Seq<char>, ip: Seq<char>, port: int },
}

impl Peer {
    /// The model of this peer.
    pub open spec fn pm(self) -> PeerModel {
        match self {
            Peer::Compact { ip, port } => PeerModel::Compact { ip: ip as int, port: port as int },
            Peer::Full { peer_id, ip, port } => PeerModel::Full {
                peer_id: peer_id@,
                ip: ip@,
                port: port as int,
            },
        }
    }
}

/// The models of a sequence of peers.
pub open spec fn peers_pm(q: Seq<Peer>) -> Seq<PeerModel> {
    Seq::new(q.len(), |k: int| if 0 <= k < q.len() { q[k].pm() } else { PeerModel::Compact { ip: 0, port: 0 } })
}

/// A decoded tracker response: seconds until the next announce, and the
/// peers in the order received, duplicates kept.
#[derive(Debug)]
pub struct TrackerResponse {
    /// Seconds until the next announce.
    pub interval: u64,
    /// The peers, in the order the tracker sent them.
    pub peers: Vec<Peer>,
}

/// Errors of tracker response parsing.
#[derive(Debug)]
pub enum ResponseError {
    /// The tracker reported a failure; its reason, verbatim.
    Failure(String),
    /// The compact peer list's length is not a whole number of peers.
    BadPeerData,
    /// The response dictionary is malformed: a missing or mistyped field,
    /// or no bencode dictionary at all.
    Field(Error),
}

/// The mathematical model of a parsing outcome.
pub ghost enum RespModel {
    Peers { interval: int, peers: Seq<PeerModel> },
    Failure(Seq<char>),
    BadPeerData,
    Field(Error),
}

/// The model of an exec parsing outcome.
pub open spec fn resp_model(res: Result<TrackerResponse, ResponseError>) -> RespModel {
    match res {
        Ok(t) => RespModel::Peers { interval: t.interval as int, peers: peers_pm(t.peers@) },
        Err(ResponseError::Failure(t)) => RespModel::Failure(t@),
        Err(ResponseError::BadPeerData) => RespModel::BadPeerData,
        Err(ResponseError::Field(e)) => RespModel::Field(e),
    }
}

/// The peers that a compact peer list denotes: 6 bytes per peer, 4
/// address bytes and a big-endian 2-byte port, in input order.
pub open spec fn compact_peers(b: Seq<u8>) -> Seq<PeerModel>
    recommends
        b.len() % 6 == 0,
{
    Seq::new(
        b.len() / 6,
        |k: int| PeerModel::Compact {
            ip: be32_of(b.subrange(6 * k, 6 * k + 4)),
            port: b[6 * k + 4] * 256 + b[6 * k + 5],
        },
    )
}

/// The peer that a dictionary-form entry denotes: `peer id` and `ip`
/// through the field accessor's textual form, and an integer `port`.
pub open spec fn peer_from_dict(item: Bnode) -> Result<PeerModel, Error> {
    match item {
        Bnode::Dict(es) => match dict_lookup(es, "peer id".spec_bytes()) {
            None => Err(Error::FieldNotFound),
            Some(pidn) => match render_node(pidn) {
                None => Err(Error::DecodeErr),
                Some(pidt) => match dict_lookup(es, "ip".spec_bytes()) {
                    None => Err(Error::FieldNotFound),
                    Some(ipn) => match render_node(ipn) {
                        None => Err(Error::DecodeErr),
                        Some(ipt) => match dict_lookup(es, "port".spec_bytes()) {
                            None => Err(Error::FieldNotFound),
                            Some(pn) => match pn {
                                Bnode::Int(n) => if 0 <= n <= 65535 {
                                    Ok(
                                        PeerModel::Full {
                                            peer_id: parse_string_spec(pidt),
                                            ip: parse_string_spec(ipt),
                                            port: n,
                                        },
                                    )
                                } else {
                                    Err(Error::DecodeErr)
                                },
                                _ => Err(Error::DecodeErr),
                            },
                        },
                    },
                },
            },
        },
        _ => Err(Error::DictMatchErr),
    }
}

/// The peers that a dictionary-form list denotes, in input order, or the
/// first entry's error.
pub open spec fn peers_from_list(items: Seq<Bnode>) -> Result<Seq<PeerModel>, Error>
    decreases items.len(),
{
    if items.len() == 0 {
        Ok(Seq::empty())
    } else {
        match peer_from_dict(items[0]) {
            Ok(p) => match peers_from_list(items.drop_first()) {
                Ok(rest) => Ok(seq![p] + rest),
                Err(e) => Err(e),
            },
            Err(e) => Err(e),
        }
    }
}

/// What parsing a tracker response body yields: a reported failure
/// verbatim, or the interval and the peer list, compact or
/// dictionary-encoded, or the error each malformed body earns.
pub open spec fn parse_response_spec(s: Seq<u8>) -> RespModel {
    match bdoc(s) {
        None => RespModel::Field(Error::DecodeErr),
        Some(top) => match top {
            Bnode::Dict(es) => match dict_lookup(es, "failure reason".spec_bytes()) {
                Some(fnode) => match fnode {
                    Bnode::Bytes(fb) => if valid_utf8(fb) {
                        RespModel::Failure(decode_utf8(fb))
                    } else {
                        RespModel::Field(Error::DecodeErr)
                    },
                    _ => RespModel::Field(Error::DecodeErr),
                },
                None => match dict_lookup(es, "interval".spec_bytes()) {
                    None => RespModel::Field(Error::FieldNotFound),
                    Some(inode) => match inode {
                        Bnode::Int(iv) => if 0 <= iv {
                            match dict_lookup(es, "peers".spec_bytes()) {
                                None => RespModel::Field(Error::FieldNotFound),
                                Some(pnode) => match pnode {
                                    Bnode::Bytes(pb) => if pb.len() % 6 == 0 {
                                        RespModel::Peers { interval: iv, peers: compact_peers(pb) }
                                    } else {
                                        RespModel::BadPeerData
                                    },
                                    Bnode::List(items) => match peers_from_list(items) {
                                        Ok(ps) => RespModel::Peers { interval: iv, peers: ps },
                                        Err(e) => RespModel::Field(e),
                                    },
                                    _ => RespModel::Field(Error::DecodeErr),
                                },
                            }
                        } else {
                            RespModel::Field(Error::DecodeErr)
                        },
                        _ => RespModel::Field(Error::DecodeErr),
                    },
                },
            },
            _ => RespModel::Field(Error::DictMatchErr),
        },
    }
}

/// Decodes one dictionary-form peer entry.
fn peer_of(v: &Bval) -> (res: Result<Peer, Error>)
    ensures
        match res {
            Ok(p) => peer_from_dict(v.dv()) == Ok::<PeerModel, Error>(p.pm()),
            Err(e) => peer_from_dict(v.dv()) == Err::<PeerModel, Error>(e),
        },
{
    let es = match v {
        Bval::Dict(es) => es,
        _ => {
            return Err(Error::DictMatchErr);
        },
    };
    let peer_id = match decode_field_as_string(es, "peer id") {
        Ok(t) => t,
        Err(e) => {
            return Err(e);
        },
    };
    let ip = match decode_field_as_string(es, "ip") {
        Ok(t) => t,
        Err(e) => {
            return Err(e);
        },
    };
    let port = match dict_get(es, "port".as_bytes()) {
        None => {
            return Err(Error::FieldNotFound);
        },
        Some(pv) => match pv {
            Bval::Int(n) => {
                if 0 <= *n && *n <= 65535 {
                    *n as u16
                } else {
                    return Err(Error::DecodeErr);
                }
            },
            _ => {
                return Err(Error::DecodeErr);
            },
        },
    };
    Ok(Peer::Full { peer_id, ip, port })
}

/// Decodes the dictionary-form peers `items[k..]`.
fn peers_from_items(items: &Vec<Bval>, k: usize) -> (res: Result<Vec<Peer>, Error>)
    requires
        k <= items@.len(),
    ensures
        match res {
            Ok(v) => peers_from_list(dv_seq(items@).skip(k as int)) == Ok::<Seq<PeerModel>, Error>(
                peers_pm(v@),
            ),
            Err(e) => peers_from_list(dv_seq(items@).skip(k as int)) == Err::<
                Seq<PeerModel>,
                Error,
            >(e),
        },
    decreases items@.len() - k,
{
    if k == items.len() {
        let v: Vec<Peer> = Vec::new();
        proof {
            assert(dv_seq(items@).skip(k as int) =~= Seq::<Bnode>::empty());
            assert(peers_pm(v@) =~= Seq::<PeerModel>::empty());
        }
        return Ok(v);
    }
    proof {
        assert(dv_seq(items@).skip(k as int)[0] == items@[k as int].dv());
        assert(dv_seq(items@).skip(k as int).drop_first() =~= dv_seq(items@).skip(k as int + 1));
    }
    let p = match peer_of(&items[k]) {
        Ok(p) => p,
        Err(e) => {
            return Err(e);
        },
    };
    match peers_from_items(items, k + 1) {
        Err(e) => Err(e),
        Ok(mut rest) => {
            let ghost rest0 = rest@;
            rest.insert(0, p);
            proof {
                assert(peers_pm(rest@) =~= seq![p.pm()] + peers_pm(rest0));
            }
            Ok(rest)
        },
    }
}

/// Decodes a compact peer list: `b.len()` is a whole number of 6-byte
/// peers.
fn compact_from_bytes(b: &Vec<u8>) -> (v: Vec<Peer>)
    requires
        b@.len() % 6 == 0,
    ensures
        peers_pm(v@) == compact_peers(b@),
{
    let n = b.len() / 6;
    let mut v: Vec<Peer> = Vec::new();
    let mut k: usize = 0;
    while k < n
        invariant
            k <= n == b@.len() / 6,
            b@.len() % 6 == 0,
            b@.len() <= usize::MAX,
            v@.len() == k,
            forall|m: int| 0 <= m < k ==> peers_pm(v@)[m] == compact_peers(b@)[m],
        decreases n - k,
    {
        proof {
            assert(b@.len() == 6 * (b@.len() / 6) + b@.len() % 6) by (nonlinear_arith);
            assert(6 * (k as int) + 6 <= b@.len());
        }
        let base = 6 * k;
        let ip = bytes_to_u32(slice_subrange(b.as_slice(), base, base + 4));
        let hi = *slice_index_get(b.as_slice(), base + 4);
        let lo = *slice_index_get(b.as_slice(), base + 5);
        let port: u16 = (hi as u16) * 256 + (lo as u16);
        let ghost vold = v@;
        v.push(Peer::Compact { ip, port });
        proof {
            assert(forall|m: int| 0 <= m < k ==> peers_pm(v@)[m] == peers_pm(vold)[m]);
            assert(peers_pm(v@)[k as int] == compact_peers(b@)[k as int]);
        }
        k = k + 1;
    }
    proof {
        assert(peers_pm(v@) =~= compact_peers(b@));
    }
    v
}

/// Parses a tracker response body: surfaces a reported `failure reason`
/// verbatim, and otherwise yields the announce interval and the peer
/// list in the order received, compact or dictionary-encoded.
pub fn parse_response(s: &[u8]) -> (res: Result<TrackerResponse, ResponseError>)
    ensures
        resp_model(res) == parse_response_spec(s@),
{
    broadcast use vstd::utf8::encode_utf8_decode_utf8;

    let top = match decode(s) {
        Ok(v) => v,
        Err(e) => {
            return Err(ResponseError::Field(e));
        },
    };
    let es = match &top {
        Bval::Dict(es) => es,
        _ => {
            return Err(ResponseError::Field(Error::DictMatchErr));
        },
    };
    match dict_get(es, "failure reason".as_bytes()) {
        Some(fv) => match fv {
            Bval::Bytes(fb) => match bytes_to_string(fb.as_slice()) {
                Some(t) => {
                    return Err(ResponseError::Failure(t));
                },
                None => {
                    return Err(ResponseError::Field(Error::DecodeErr));
                },
            },
            _ => {
                return Err(ResponseError::Field(Error::DecodeErr));
            },
        },
        None => {},
    }
    let interval = match dict_get(es, "interval".as_bytes()) {
        None => {
            return Err(ResponseError::Field(Error::FieldNotFound));
        },
        Some(iv) => match iv {
            Bval::Int(n) => {
                if *n < 0 {
                    return Err(ResponseError::Field(Error::DecodeErr));
                }
                *n as u64
            },
            _ => {
                return Err(ResponseError::Field(Error::DecodeErr));
            },
        },
    };
    match dict_get(es, "peers".as_bytes()) {
        None => Err(ResponseError::Field(Error::FieldNotFound)),
        Some(pv) => match pv {
            Bval::Bytes(pb) => {
                if pb.len() % 6 != 0 {
                    return Err(ResponseError::BadPeerData);
                }
                let peers = compact_from_bytes(pb);
                Ok(TrackerResponse { interval, peers })
            },
            Bval::List(items) => {
                proof {
                    assert(dv_seq(items@).skip(0) =~= dv_seq(items@));
                }
                match peers_from_items(items, 0) {
                    Err(e) => Err(ResponseError::Field(e)),
                    Ok(peers) => Ok(TrackerResponse { interval, peers }),
                }
            },
            _ => Err(ResponseError::Field(Error::DecodeErr)),
        },
    }
}

/// Law: a compact peer list of `n` whole peers yields exactly `n` peers,
/// the `k`th drawn from bytes `6k..6k+6`, in input order.
pub proof fn lemma_compact_peers_count(b: Seq<u8>)
    requires
        b.len() % 6 == 0,
    ensures
        compact_peers(b).len() == b.len() / 6,
        forall|k: int|
            0 <= k < b.len() / 6 ==> compact_peers(b)[k] == (PeerModel::Compact {
                ip: be32_of(b.subrange(6 * k, 6 * k + 4)),
                port: b[6 * k + 4] * 256 + b[6 * k + 5],
            }),
{
}

} // verus!
