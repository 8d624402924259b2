//! Torrent summary: the typed document, the info-hash and the size.
//!
//! The info-hash identifies a torrent across clients and trackers: it
//! is the SHA-1 digest of the re-encoded `info` entry of the original
//! top-level dictionary — taken from the generic decoded value, not
//! from the typed model, so the digested bytes are exactly the bytes
//! that were read.

use vstd::prelude::*;

use sha1::Digest;

use crate::bencode::{enc, BValue, Value, view_dict};
use crate::decode::{dec_at, DecodeError};
use crate::metainfo::{dget, dict_get, key_info, kb_info, parse_spec, Metainfo, MetainfoError,
    MetainfoSpec};

verus! {

/// SHA-1 digest of a byte sequence.  The digest is a fixed function of
/// the bytes alone; its 20-byte result is not further specified here.
pub uninterp spec fn sha1_of(data: Seq<u8>) -> Seq<u8>;

/// Relies on `sha1::Sha1` through `digest::Digest::digest`: the SHA-1
/// digest of the input bytes, always 20 bytes, a function of the input
/// alone.
#[verifier::external_body]
pub(crate) fn sha1_digest(data: &Vec<u8>) -> (r: Vec<u8>)
    ensures
        r@ == sha1_of(data@),
        r@.len() == 20,
{
    let d = sha1::Sha1::digest(data.as_slice());
    d.as_slice().to_vec()
}

/// Model of a summary.
pub struct TorrentSummarySpec {
    pub metainfo: MetainfoSpec,
    pub infohash: Seq<u8>,
    pub size: int,
}

/// Read-only summary of one metainfo file.
pub struct TorrentSummary {
    pub metainfo: Metainfo,
    pub infohash: Vec<u8>,
    pub size: u64,
}

impl TorrentSummary {
    /// Model of this summary.
    pub open spec fn view(self) -> TorrentSummarySpec {
        TorrentSummarySpec {
            metainfo: self.metainfo@,
            infohash: self.infohash@,
            size: self.size as int,
        }
    }
}

/// The `info` entry of the buffer's top-level dictionary, if the
/// buffer decodes to a dictionary that has one.
pub open spec fn info_value_of(s: Seq<u8>) -> Option<BValue> {
    match dec_at(s, 0) {
        Some((BValue::Dict(top), _)) => dget(top, key_info()),
        _ => None,
    }
}

/// The summary a buffer denotes: its typed document, the SHA-1 digest
/// of the re-encoded `info` entry, and the buffer's byte length.
pub open spec fn summary_spec(s: Seq<u8>) -> Option<TorrentSummarySpec> {
    match dec_at(s, 0) {
        Some((BValue::Dict(top), _)) => match (dget(top, key_info()), parse_spec(
            BValue::Dict(top),
        )) {
            (Some(info), Some(m)) => Some(
                TorrentSummarySpec {
                    metainfo: m,
                    infohash: sha1_of(enc(info)),
                    size: s.len() as int,
                },
            ),
            _ => None,
        },
        _ => None,
    }
}

/// Why a buffer yields no summary.
#[derive(Debug, Clone, Copy, PartialEq, Eq, Structural)]
pub enum SummaryError {
    /// The buffer is not well-formed bencode.
    Decode(DecodeError),
    /// The buffer decodes, but not to a valid metainfo document.
    Invalid(MetainfoError),
    /// The top-level dictionary has no `info` entry.
    MissingInfo,
}

impl TorrentSummary {
    /// Builds the summary of a metainfo buffer: decode, type the
    /// document, re-encode the original `info` entry and digest it.
    /// Succeeds exactly on the buffers that `summary_spec` accepts.
    pub fn from_bytes(bytes: &Vec<u8>) -> (r: Result<TorrentSummary, SummaryError>)
        ensures
            (match r {
                Ok(ts) => summary_spec(bytes@) == Some(ts@),
                Err(_) => summary_spec(bytes@) is None,
            }),
    {
        let value = match Value::decode(bytes.as_slice()) {
            Ok(v) => v,
            Err(e) => {
                return Err(SummaryError::Decode(e));
            },
        };
        let metainfo = match Metainfo::parse(&value) {
            Ok(m) => m,
            Err(e) => {
                return Err(SummaryError::Invalid(e));
            },
        };
        let top = match &value {
            Value::Dict(top) => top,
            _ => {
                return Err(SummaryError::Invalid(MetainfoError::NotADictionary));
            },
        };
        let ki = kb_info();
        let info_val = match dict_get(top, &ki) {
            Some(iv) => iv,
            None => {
                return Err(SummaryError::MissingInfo);
            },
        };
        let info_bytes = info_val.encode();
        let infohash = sha1_digest(&info_bytes);
        Ok(TorrentSummary { metainfo, infohash, size: bytes.len() as u64 })
    }
}

/// The info-hash depends on the `info` entry alone: buffers whose
/// top-level dictionaries store the same `info` value (anything else —
/// `comment`, `announce`, byte layout outside `info` — may differ) get
/// the same info-hash.
pub proof fn lemma_hash_depends_only_on_info(b1: Seq<u8>, b2: Seq<u8>)
    requires
        summary_spec(b1) is Some,
        summary_spec(b2) is Some,
        info_value_of(b1) == info_value_of(b2),
    ensures
        summary_spec(b1).unwrap().infohash == summary_spec(b2).unwrap().infohash,
{
}

/// Hash stability: `from_bytes` pins its result to `summary_spec`, a
/// function of the buffer alone, so any two summaries read from the
/// same bytes coincide — the info-hash in particular.
pub proof fn lemma_hash_stable(b: Seq<u8>, s1: TorrentSummarySpec, s2: TorrentSummarySpec)
    requires
        summary_spec(b) == Some(s1),
        summary_spec(b) == Some(s2),
    ensures
        s1 == s2,
        s1.infohash == s2.infohash,
{
}

} // verus!
