//! Client-side metadata and announce phase of a peer-to-peer
//! file-distribution protocol: a bencode decoder, a metainfo model with its
//! content digest, an announce-request builder, and a tracker-response
//! parser.

pub mod bencoding;
pub mod metainfo;
pub mod tracker;
pub mod tracker_response;
pub mod util;
