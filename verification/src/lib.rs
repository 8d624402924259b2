//! Verified core of a BitTorrent metainfo inspector.
//!
//! The library decodes a bencoded metainfo document, extracts a typed
//! model from it, computes the info-hash of the `info` sub-dictionary,
//! and turns the result into an ordered sequence of labeled rows that a
//! renderer serializes as either an aligned table or tab-delimited text.
//!
//! The central laws are proved where their subjects live: decoding
//! inverts encoding (`roundtrip`), parsing inverts serialization and a
//! summary built in memory agrees with one re-read from its bytes
//! (`serialize`), the info-hash depends on the `info` entry alone
//! (`summary`), and the row list — tracker deduplication, piece and
//! file counts, the private flag — is fixed by `rows`.

pub mod bencode;
pub mod decode;
pub mod roundtrip;
pub mod metainfo;
pub mod summary;
pub mod text;
pub mod rows;
pub mod render;
pub mod serialize;

pub use bencode::Value;
pub use metainfo::Metainfo;
pub use summary::TorrentSummary;
