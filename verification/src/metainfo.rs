//! The metainfo model: a torrent document decoded into announce URL,
//! content description and content digest.
//!
//! The digest is computed over the exact byte span of the `info`
//! dictionary as it appears in the original document, never over a
//! re-serialization of the parsed structure.

use vstd::prelude::*;
use vstd::slice::slice_subrange;
use vstd::string::StringSliceAdditionalSpecFns;
use sha1::Digest;
use crate::bencoding::Bnode;
use crate::bencoding::Bval;
use crate::bencoding::bdoc;
use crate::bencoding::bparse;
use crate::bencoding::decode;
use crate::bencoding::dict_get;
use crate::bencoding::dict_lookup;
use crate::bencoding::dv_entries;
use crate::bencoding::field_span;
use crate::bencoding::find_field_span;
use crate::util::Error;
use crate::util::parse_string_spec;
use crate::util::render_node;
use crate::util::decode_field_as_bytes;
use crate::util::decode_field_as_string;

verus! {

/// The name of the content digest of a byte sequence, as the outside
/// hash routine computes it.
pub uninterp spec fn sha1_of(bs: Seq<u8>) -> Seq<u8>;

/// Relies on sha1::Sha1 through the Digest trait: the digest depends on
/// the input bytes alone and is 20 bytes long.
#[verifier::external_body]
fn sha1_digest(b: &[u8]) -> (r: Vec<u8>)
    ensures
        r@ == sha1_of(b@),
        r@.len() == 20,
{
    sha1::Sha1::digest(b).to_vec()
}

/// The content description inside a metainfo document.
pub struct Info {
    /// Total byte length of the shared content.
    pub length: u64,
    /// Suggested file or directory name.
    pub name: String,
    /// Byte length of each fixed-size content chunk.
    pub piece_length: u64,
    /// Concatenated 20-byte digests, one per chunk.
    pub pieces: Vec<u8>,
}

/// A decoded metainfo document: announce URL, content description, and
/// the digest over the exact bytes of the `info` dictionary.
pub struct MetaInfo {
    /// URL of the tracker endpoint.
    pub announce: String,
    /// The content description.
    pub info: Info,
    /// 20-byte digest of the `info` dictionary's encoded bytes.
    pub info_hash: Vec<u8>,
}

/// The mathematical model of a decoded metainfo document.
pub ghost struct MetaModel {
    pub announce: Seq<char>,
    pub length: int,
    pub name: Seq<char>,
    pub piece_length: int,
    pub pieces: Seq<u8>,
    /// The exact bytes of the `info` dictionary as encoded in the document.
    pub info_bytes: Seq<u8>,
}

/// What decoding a metainfo document yields: its model, or the error
/// that each malformed document earns.
pub open spec fn from_bytes_spec(s: Seq<u8>) -> Result<MetaModel, Error> {
    match bdoc(s) {
        None => Err(Error::DecodeErr),
        Some(top) => match top {
            Bnode::Dict(es) => match dict_lookup(es, "announce".spec_bytes()) {
                None => Err(Error::FieldNotFound),
                Some(anode) => match render_node(anode) {
                    None => Err(Error::DecodeErr),
                    Some(atext) => match dict_lookup(es, "info".spec_bytes()) {
                        None => Err(Error::FieldNotFound),
                        Some(inode) => match inode {
                            Bnode::Dict(ies) => match field_span(s, "info".spec_bytes()) {
                                None => Err(Error::FieldNotFound),
                                Some((q, r)) => from_info_spec(s, ies, q, r, atext),
                            },
                            _ => Err(Error::DictMatchErr),
                        },
                    },
                },
            },
            _ => Err(Error::DictMatchErr),
        },
    }
}

/// The model of the `info` dictionary's fields, given its entries and
/// its byte span in the document.
pub open spec fn from_info_spec(
    s: Seq<u8>,
    ies: Seq<(Seq<u8>, Bnode)>,
    q: int,
    r: int,
    atext: Seq<char>,
) -> Result<MetaModel, Error> {
    match dict_lookup(ies, "length".spec_bytes()) {
        None => Err(Error::FieldNotFound),
        Some(lnode) => match lnode {
            Bnode::Int(n) => if 0 <= n <= u64::MAX {
                match dict_lookup(ies, "name".spec_bytes()) {
                    None => Err(Error::FieldNotFound),
                    Some(nnode) => match render_node(nnode) {
                        None => Err(Error::DecodeErr),
                        Some(ntext) => match dict_lookup(ies, "piece length".spec_bytes()) {
                            None => Err(Error::FieldNotFound),
                            Some(pnode) => match pnode {
                                Bnode::Int(pl) => if 0 <= pl <= u64::MAX {
                                    match dict_lookup(ies, "pieces".spec_bytes()) {
                                        None => Err(Error::FieldNotFound),
                                        Some(bnode) => match bnode {
                                            Bnode::Bytes(pb) => if pb.len() % 20 == 0 {
                                                Ok(
                                                    MetaModel {
                                                        announce: parse_string_spec(atext),
                                                        length: n,
                                                        name: parse_string_spec(ntext),
                                                        piece_length: pl,
                                                        pieces: pb,
                                                        info_bytes: s.subrange(q, r),
                                                    },
                                                )
                                            } else {
                                                Err(Error::DecodeErr)
                                            },
                                            _ => Err(Error::DecodeErr),
                                        },
                                    }
                                } else {
                                    Err(Error::DecodeErr)
                                },
                                _ => Err(Error::DecodeErr),
                            },
                        },
                    },
                }
            } else {
                Err(Error::DecodeErr)
            },
            _ => Err(Error::DecodeErr),
        },
    }
}

impl MetaInfo {
    /// This value carries the model that decoding `s` yields.
    pub open spec fn matches(self, s: Seq<u8>) -> bool {
        &&& from_bytes_spec(s) is Ok
        &&& {
            let mm = from_bytes_spec(s)->Ok_0;
            &&& self.announce@ == mm.announce
            &&& self.info.length == mm.length
            &&& self.info.name@ == mm.name
            &&& self.info.piece_length == mm.piece_length
            &&& self.info.pieces@ == mm.pieces
            &&& self.info_hash@ == sha1_of(mm.info_bytes)
        }
    }

    /// Structural soundness: a 20-byte digest and whole 20-byte piece
    /// digests.
    pub open spec fn wf(self) -> bool {
        &&& self.info_hash@.len() == 20
        &&& self.info.pieces@.len() % 20 == 0
    }
}

/// Decodes a whole metainfo document: one bencoded dictionary holding
/// `announce` and the `info` dictionary, whose exact encoded bytes are
/// digested into `info_hash`.
pub fn from_bytes(s: &[u8]) -> (res: Result<MetaInfo, Error>)
    ensures
        match res {
            Ok(m) => m.matches(s@) && m.wf(),
            Err(e) => from_bytes_spec(s@) == Err::<MetaModel, Error>(e),
        },
{
    let top = match decode(s) {
        Ok(v) => v,
        Err(e) => {
            return Err(e);
        },
    };
    let es = match &top {
        Bval::Dict(es) => es,
        _ => {
            return Err(Error::DictMatchErr);
        },
    };
    let announce = match decode_field_as_string(es, "announce") {
        Ok(t) => t,
        Err(e) => {
            return Err(e);
        },
    };
    let inode = match dict_get(es, "info".as_bytes()) {
        Some(v) => v,
        None => {
            return Err(Error::FieldNotFound);
        },
    };
    let ies = match inode {
        Bval::Dict(ies) => ies,
        _ => {
            return Err(Error::DictMatchErr);
        },
    };
    let (q, r) = match find_field_span(s, "info".as_bytes()) {
        Some(p) => p,
        None => {
            return Err(Error::FieldNotFound);
        },
    };
    let length = match dict_get(ies, "length".as_bytes()) {
        None => {
            return Err(Error::FieldNotFound);
        },
        Some(v) => match v {
            Bval::Int(n) => {
                if *n < 0 {
                    return Err(Error::DecodeErr);
                }
                *n as u64
            },
            _ => {
                return Err(Error::DecodeErr);
            },
        },
    };
    let name = match decode_field_as_string(ies, "name") {
        Ok(t) => t,
        Err(e) => {
            return Err(e);
        },
    };
    let piece_length = match dict_get(ies, "piece length".as_bytes()) {
        None => {
            return Err(Error::FieldNotFound);
        },
        Some(v) => match v {
            Bval::Int(n) => {
                if *n < 0 {
                    return Err(Error::DecodeErr);
                }
                *n as u64
            },
            _ => {
                return Err(Error::DecodeErr);
            },
        },
    };
    let pieces = match decode_field_as_bytes(ies, "pieces") {
        Ok(b) => b,
        Err(e) => {
            return Err(e);
        },
    };
    if pieces.len() % 20 != 0 {
        return Err(Error::DecodeErr);
    }
    let info_hash = sha1_digest(slice_subrange(s, q, r));
    Ok(
        MetaInfo {
            announce,
            info: Info { length, name, piece_length, pieces },
            info_hash,
        },
    )
}

/// Law: the digested bytes are exactly the encoding of the `info` value:
/// the byte span that the digest covers re-parses to the very node that
/// looking `info` up in the decoded top-level dictionary yields.
pub proof fn lemma_digest_covers_info_value(s: Seq<u8>)
    requires
        from_bytes_spec(s) is Ok,
    ensures
        ({
            let mm = from_bytes_spec(s)->Ok_0;
            let es = bdoc(s)->Some_0->Dict_0;
            let (q, r) = field_span(s, "info".spec_bytes())->Some_0;
            &&& mm.info_bytes == s.subrange(q, r)
            &&& bparse(s, q) is Some
            &&& bparse(s, q)->Some_0.1 == r
            &&& dict_lookup(es, "info".spec_bytes()) == Some(bparse(s, q)->Some_0.0)
        }),
{
    crate::bencoding::lemma_field_span_is_value(s, "info".spec_bytes());
}

/// Law: the digest is reproducible. Any two decodings of the same
/// document agree on every field, the digest included.
pub proof fn lemma_from_bytes_deterministic(s: Seq<u8>, m1: MetaInfo, m2: MetaInfo)
    requires
        m1.matches(s),
        m2.matches(s),
    ensures
        m1.announce@ == m2.announce@,
        m1.info.length == m2.info.length,
        m1.info.name@ == m2.info.name@,
        m1.info.piece_length == m2.info.piece_length,
        m1.info.pieces@ == m2.info.pieces@,
        m1.info_hash@ == m2.info_hash@,
{
}

} // verus!
