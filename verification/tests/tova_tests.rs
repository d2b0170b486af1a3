use sha1::Digest;
use sha1::Sha1;
use tova::bencoding::{decode, Bval};
use tova::metainfo::from_bytes;
use tova::tracker::{announce_url, parameterize};
use tova::tracker_response::{parse_response, Peer, ResponseError};
use tova::util::{
    bytes_to_u32, decode_field_as_bytes, decode_field_as_string, parse_string, u32_to_bytes, Error,
};

#[test]
fn sample_params_test() {
    let params: Vec<(&str, &str)> = vec![("peer_id", "l33t"), ("port", "8080")];
    assert_eq!("peer_id=l33t&port=8080".to_string(), parameterize(params));
}

#[test]
fn parameterize_preserves_order() {
    let params: Vec<(&str, &str)> = vec![("b", "2"), ("a", "1"), ("c", "3")];
    assert_eq!("b=2&a=1&c=3".to_string(), parameterize(params));
    let empty: Vec<(&str, &str)> = vec![];
    assert_eq!("".to_string(), parameterize(empty));
}

#[test]
fn codec_known_value() {
    assert_eq!(16909060, bytes_to_u32(&[1, 2, 3, 4]));
    assert_eq!(vec![1, 2, 3, 4], u32_to_bytes(16909060));
}

#[test]
fn codec_round_trip_bytes() {
    for b in [
        [0u8, 0, 0, 0],
        [255, 255, 255, 255],
        [1, 2, 3, 4],
        [0xDE, 0xAD, 0xBE, 0xEF],
    ] {
        assert_eq!(b.to_vec(), u32_to_bytes(bytes_to_u32(&b)));
    }
}

#[test]
fn codec_round_trip_u32() {
    for v in [0u32, 1, 255, 256, 65536, 0xDEAD_BEEF, u32::MAX] {
        assert_eq!(v, bytes_to_u32(&u32_to_bytes(v)));
    }
}

#[test]
fn parse_string_unquotes() {
    assert_eq!("pieces".to_string(), parse_string("s\"pieces\""));
    assert_eq!("cd".to_string(), parse_string("ab\"cd\"ef"));
    assert_eq!(
        "http://tracker.example.com/announce".to_string(),
        parse_string("\"http://tracker.example.com/announce\"")
    );
}

#[test]
fn parse_string_falls_back() {
    assert_eq!("hello".to_string(), parse_string("hello"));
    assert_eq!("i42e".to_string(), parse_string("i42e"));
    // a space interrupts the plain run, so the quoted group does not match
    assert_eq!("\"bad request\"".to_string(), parse_string("\"bad request\""));
}

#[test]
fn decode_values() {
    match decode(b"i42e") {
        Ok(Bval::Int(n)) => assert_eq!(42, n),
        _ => panic!("expected an integer"),
    }
    match decode(b"i-42e") {
        Ok(Bval::Int(n)) => assert_eq!(-42, n),
        _ => panic!("expected an integer"),
    }
    match decode(b"i9223372036854775807e") {
        Ok(Bval::Int(n)) => assert_eq!(i64::MAX, n),
        _ => panic!("expected an integer"),
    }
    assert!(decode(b"i9223372036854775808e").is_err());
    match decode(b"4:spam") {
        Ok(Bval::Bytes(b)) => assert_eq!(b"spam".to_vec(), b),
        _ => panic!("expected bytes"),
    }
    match decode(b"l4:spami7ee") {
        Ok(Bval::List(vs)) => assert_eq!(2, vs.len()),
        _ => panic!("expected a list"),
    }
}

#[test]
fn decode_rejects_malformed() {
    assert!(decode(b"").is_err());
    assert!(decode(b"i42").is_err());
    assert!(decode(b"5:spam").is_err());
    assert!(decode(b"d3:foo").is_err());
    // trailing bytes after the document
    assert!(decode(b"i42ee").is_err());
}

#[test]
fn field_accessors() {
    let doc = b"d3:foo3:bar3:numi7ee";
    let es = match decode(doc) {
        Ok(Bval::Dict(es)) => es,
        _ => panic!("expected a dictionary"),
    };
    assert_eq!(Ok(b"bar".to_vec()), decode_field_as_bytes(&es, "foo"));
    assert_eq!(Err(Error::FieldNotFound), decode_field_as_bytes(&es, "missing"));
    assert_eq!(Err(Error::DecodeErr), decode_field_as_bytes(&es, "num"));
    assert_eq!(Ok("bar".to_string()), decode_field_as_string(&es, "foo"));
    assert_eq!(Ok("7".to_string()), decode_field_as_string(&es, "num"));
    assert_eq!(Err(Error::FieldNotFound), decode_field_as_string(&es, "missing"));
}

fn fixture() -> (Vec<u8>, usize, usize) {
    let mut doc = Vec::new();
    doc.extend_from_slice(b"d8:announce35:http://tracker.example.com/announce4:info");
    let info_start = doc.len();
    doc.extend_from_slice(b"d6:lengthi1000e4:name8:test.txt12:piece lengthi500e6:pieces40:");
    doc.extend_from_slice(&[7u8; 40]);
    doc.extend_from_slice(b"e");
    let info_end = doc.len();
    doc.extend_from_slice(b"e");
    (doc, info_start, info_end)
}

#[test]
fn from_bytes_decodes_fixture() {
    let (doc, _, _) = fixture();
    let m = from_bytes(&doc).unwrap();
    assert_eq!("http://tracker.example.com/announce", m.announce.as_str());
    assert_eq!(1000, m.info.length);
    assert_eq!("test.txt", m.info.name.as_str());
    assert_eq!(500, m.info.piece_length);
    assert_eq!(vec![7u8; 40], m.info.pieces);
    assert_eq!(20, m.info_hash.len());
}

#[test]
fn info_hash_is_digest_of_exact_span() {
    let (doc, info_start, info_end) = fixture();
    let m = from_bytes(&doc).unwrap();
    let expected = Sha1::digest(&doc[info_start..info_end]).to_vec();
    assert_eq!(expected, m.info_hash);
    // the digest is over the span, not over the whole document
    assert_ne!(Sha1::digest(&doc).to_vec(), m.info_hash);
}

#[test]
fn from_bytes_is_deterministic() {
    let (doc, _, _) = fixture();
    let m1 = from_bytes(&doc).unwrap();
    let m2 = from_bytes(&doc).unwrap();
    assert_eq!(m1.info_hash, m2.info_hash);
    assert_eq!(m1.announce, m2.announce);
}

#[test]
fn from_bytes_missing_announce_is_field_not_found() {
    let mut doc = Vec::new();
    doc.extend_from_slice(b"d4:infod6:lengthi1000e4:name8:test.txt12:piece lengthi500e6:pieces40:");
    doc.extend_from_slice(&[7u8; 40]);
    doc.extend_from_slice(b"ee");
    assert_eq!(Err(Error::FieldNotFound), from_bytes(&doc).map(|_| ()));
}

#[test]
fn from_bytes_error_taxonomy() {
    // not a dictionary at the top level
    assert_eq!(Err(Error::DictMatchErr), from_bytes(b"i5e").map(|_| ()));
    // not bencode at all
    assert_eq!(Err(Error::DecodeErr), from_bytes(b"garbage").map(|_| ()));
    // pieces not a whole number of 20-byte digests
    let mut doc = Vec::new();
    doc.extend_from_slice(
        b"d8:announce35:http://tracker.example.com/announce4:infod6:lengthi1000e4:name8:test.txt12:piece lengthi500e6:pieces10:",
    );
    doc.extend_from_slice(&[7u8; 10]);
    doc.extend_from_slice(b"ee");
    assert_eq!(Err(Error::DecodeErr), from_bytes(&doc).map(|_| ()));
}

fn pct_reference(bytes: &[u8]) -> String {
    let mut out = String::new();
    for &b in bytes {
        let unreserved = b.is_ascii_alphanumeric() || b == b'-' || b == b'.' || b == b'_' || b == b'~';
        if unreserved {
            out.push(b as char);
        } else {
            out.push('%');
            out.push_str(&format!("{:02X}", b));
        }
    }
    out
}

#[test]
fn announce_url_has_standard_parameters() {
    let (doc, _, _) = fixture();
    let m = from_bytes(&doc).unwrap();
    let url = announce_url(&m, "tovatovatovatovatova", "8080");
    let expected = format!(
        "http://tracker.example.com/announce?info_hash={}&peer_id=tovatovatovatovatova&port=8080&uploaded=0&downloaded=0&left=1000&compact=1&event=started",
        pct_reference(&m.info_hash)
    );
    assert_eq!(expected, url);
    assert!(url.contains("&left=1000"));
    assert!(url.contains("&compact=1"));
}

#[test]
fn percent_encoding_matches_collaborator() {
    let (doc, _, _) = fixture();
    let m = from_bytes(&doc).unwrap();
    let url = announce_url(&m, "tovatovatovatovatova", "8080");
    let via_crate = format!(
        "http://tracker.example.com/announce?info_hash={}&peer_id=",
        urlencoding::encode_binary(&m.info_hash)
    );
    assert!(url.starts_with(&via_crate));
}

#[test]
fn compact_peers_two_entries_in_order() {
    let mut body = Vec::new();
    body.extend_from_slice(b"d8:intervali1800e5:peers12:");
    body.extend_from_slice(&[10, 0, 0, 1, 0x1A, 0xE1]);
    body.extend_from_slice(&[192, 168, 1, 2, 0x00, 0x50]);
    body.extend_from_slice(b"e");
    let r = parse_response(&body).unwrap();
    assert_eq!(1800, r.interval);
    assert_eq!(2, r.peers.len());
    match &r.peers[0] {
        Peer::Compact { ip, port } => {
            assert_eq!(0x0A000001, *ip);
            assert_eq!(6881, *port);
        }
        _ => panic!("expected a compact peer"),
    }
    match &r.peers[1] {
        Peer::Compact { ip, port } => {
            assert_eq!(0xC0A80102, *ip);
            assert_eq!(80, *port);
        }
        _ => panic!("expected a compact peer"),
    }
}

#[test]
fn compact_peers_odd_length_fails() {
    let mut body = Vec::new();
    body.extend_from_slice(b"d8:intervali1800e5:peers11:");
    body.extend_from_slice(&[10, 0, 0, 1, 0x1A, 0xE1, 192, 168, 1, 2, 0x00]);
    body.extend_from_slice(b"e");
    match parse_response(&body) {
        Err(ResponseError::BadPeerData) => {}
        _ => panic!("expected a protocol error for one-and-a-half peers"),
    }
}

#[test]
fn failure_reason_surfaces_verbatim() {
    let body = b"d14:failure reason11:bad requeste";
    match parse_response(body) {
        Err(ResponseError::Failure(t)) => assert_eq!("bad request", t.as_str()),
        _ => panic!("expected the tracker-reported failure"),
    }
}

#[test]
fn dictionary_form_peers() {
    let body = b"d8:intervali900e5:peersld7:peer id4:abcd2:ip9:127.0.0.14:porti6881eeee";
    let r = parse_response(body).unwrap();
    assert_eq!(900, r.interval);
    assert_eq!(1, r.peers.len());
    match &r.peers[0] {
        Peer::Full { peer_id, ip, port } => {
            assert_eq!("abcd", peer_id.as_str());
            assert_eq!("127.0.0.1", ip.as_str());
            assert_eq!(6881, *port);
        }
        _ => panic!("expected a dictionary-form peer"),
    }
}

#[test]
fn response_error_taxonomy() {
    // missing interval
    match parse_response(b"d5:peers0:e") {
        Err(ResponseError::Field(Error::FieldNotFound)) => {}
        _ => panic!("expected a missing-field error"),
    }
    // missing peers
    match parse_response(b"d8:intervali900ee") {
        Err(ResponseError::Field(Error::FieldNotFound)) => {}
        _ => panic!("expected a missing-field error"),
    }
    // negative interval
    match parse_response(b"d8:intervali-5e5:peers0:e") {
        Err(ResponseError::Field(Error::DecodeErr)) => {}
        _ => panic!("expected a decode error"),
    }
    // not a dictionary
    match parse_response(b"i5e") {
        Err(ResponseError::Field(Error::DictMatchErr)) => {}
        _ => panic!("expected a dictionary-match error"),
    }
    // not bencode
    match parse_response(b"nonsense") {
        Err(ResponseError::Field(Error::DecodeErr)) => {}
        _ => panic!("expected a decode error"),
    }
}

#[test]
fn empty_compact_peer_list() {
    let r = parse_response(b"d8:intervali1800e5:peers0:e").unwrap();
    assert_eq!(0, r.peers.len());
}
