//! Typed view over a decoded metainfo document.
//!
//! `parse_spec` says exactly which generic bencode values are valid
//! metainfo documents and what typed document each one denotes; the
//! executable parser returns exactly that.  A document needs a
//! top-level dictionary with `announce` and `info`; `info` holds
//! `name`, a positive `piece length`, `pieces`, and exactly one of
//! `length` (single-file mode) or `files` (multi-file mode) — both or
//! neither is rejected.

use vstd::prelude::*;

use crate::bencode::{BValue, Value, view_dict, view_list, lemma_view_dict, lemma_view_list};

verus! {

/// One file of a multi-file torrent: path components and a byte length.
#[derive(Debug)]
pub struct FileEntry {
    pub path: Vec<Vec<u8>>,
    pub length: u64,
}

/// Content layout: one file with a length, or an ordered file list.
#[derive(Debug)]
pub enum Mode {
    Single { length: u64 },
    Multiple { files: Vec<FileEntry> },
}

/// The `info` sub-dictionary, typed.
#[derive(Debug)]
pub struct Info {
    pub name: Vec<u8>,
    pub piece_length: u64,
    pub pieces: Vec<u8>,
    pub private: Option<i64>,
    pub source: Option<Vec<u8>>,
    pub mode: Mode,
}

/// A parsed metainfo document.
#[derive(Debug)]
pub struct Metainfo {
    pub announce: Vec<u8>,
    pub announce_list: Option<Vec<Vec<Vec<u8>>>>,
    pub comment: Option<Vec<u8>>,
    pub creation_date: Option<u64>,
    pub info: Info,
}

/// Model of a file entry.
pub struct FileEntrySpec {
    pub path: Seq<Seq<u8>>,
    pub length: int,
}

/// Model of the content layout.
pub enum ModeSpec {
    Single { length: int },
    Multiple { files: Seq<FileEntrySpec> },
}

/// Model of the `info` sub-dictionary.
pub struct InfoSpec {
    pub name: Seq<u8>,
    pub piece_length: int,
    pub pieces: Seq<u8>,
    pub private: Option<int>,
    pub source: Option<Seq<u8>>,
    pub mode: ModeSpec,
}

/// Model of a metainfo document.
pub struct MetainfoSpec {
    pub announce: Seq<u8>,
    pub announce_list: Option<Seq<Seq<Seq<u8>>>>,
    pub comment: Option<Seq<u8>>,
    pub creation_date: Option<int>,
    pub info: InfoSpec,
}

/// Models of a sequence of byte-string vectors, element by element.
pub open spec fn urls_view(u: Seq<Vec<u8>>) -> Seq<Seq<u8>> {
    Seq::new(u.len(), |j: int| u[j]@)
}

/// Models of a sequence of tiers, tier by tier.
pub open spec fn tiers_view(t: Seq<Vec<Vec<u8>>>) -> Seq<Seq<Seq<u8>>> {
    Seq::new(t.len(), |i: int| urls_view(t[i]@))
}

/// Models of a sequence of file entries.
pub open spec fn files_view(f: Seq<FileEntry>) -> Seq<FileEntrySpec> {
    Seq::new(f.len(), |i: int| f[i]@)
}

impl FileEntry {
    /// Model of this entry.
    pub open spec fn view(self) -> FileEntrySpec {
        FileEntrySpec { path: urls_view(self.path@), length: self.length as int }
    }
}

impl Mode {
    /// Model of this layout.
    pub open spec fn view(self) -> ModeSpec {
        match self {
            Mode::Single { length } => ModeSpec::Single { length: length as int },
            Mode::Multiple { files } => ModeSpec::Multiple { files: files_view(files@) },
        }
    }
}

impl Info {
    /// Model of this `info` dictionary.
    pub open spec fn view(self) -> InfoSpec {
        InfoSpec {
            name: self.name@,
            piece_length: self.piece_length as int,
            pieces: self.pieces@,
            private: match self.private {
                Some(p) => Some(p as int),
                None => None,
            },
            source: match self.source {
                Some(sb) => Some(sb@),
                None => None,
            },
            mode: self.mode@,
        }
    }
}

impl Metainfo {
    /// Model of this document.
    pub open spec fn view(self) -> MetainfoSpec {
        MetainfoSpec {
            announce: self.announce@,
            announce_list: match self.announce_list {
                Some(ts) => Some(tiers_view(ts@)),
                None => None,
            },
            comment: match self.comment {
                Some(c) => Some(c@),
                None => None,
            },
            creation_date: match self.creation_date {
                Some(t) => Some(t as int),
                None => None,
            },
            info: self.info@,
        }
    }
}

/// The dictionary key `announce`.
pub open spec fn key_announce() -> Seq<u8> {
    seq![97u8, 110u8, 110u8, 111u8, 117u8, 110u8, 99u8, 101u8]
}

/// The dictionary key `announce-list`.
pub open spec fn key_announce_list() -> Seq<u8> {
    seq![97u8, 110u8, 110u8, 111u8, 117u8, 110u8, 99u8, 101u8, 45u8, 108u8, 105u8, 115u8, 116u8]
}

/// The dictionary key `comment`.
pub open spec fn key_comment() -> Seq<u8> {
    seq![99u8, 111u8, 109u8, 109u8, 101u8, 110u8, 116u8]
}

/// The dictionary key `creation date`.
pub open spec fn key_creation_date() -> Seq<u8> {
    seq![99u8, 114u8, 101u8, 97u8, 116u8, 105u8, 111u8, 110u8, 32u8, 100u8, 97u8, 116u8, 101u8]
}

/// The dictionary key `info`.
pub open spec fn key_info() -> Seq<u8> {
    seq![105u8, 110u8, 102u8, 111u8]
}

/// The dictionary key `name`.
pub open spec fn key_name() -> Seq<u8> {
    seq![110u8, 97u8, 109u8, 101u8]
}

/// The dictionary key `piece length`.
pub open spec fn key_piece_length() -> Seq<u8> {
    seq![112u8, 105u8, 101u8, 99u8, 101u8, 32u8, 108u8, 101u8, 110u8, 103u8, 116u8, 104u8]
}

/// The dictionary key `pieces`.
pub open spec fn key_pieces() -> Seq<u8> {
    seq![112u8, 105u8, 101u8, 99u8, 101u8, 115u8]
}

/// The dictionary key `private`.
pub open spec fn key_private() -> Seq<u8> {
    seq![112u8, 114u8, 105u8, 118u8, 97u8, 116u8, 101u8]
}

/// The dictionary key `source`.
pub open spec fn key_source() -> Seq<u8> {
    seq![115u8, 111u8, 117u8, 114u8, 99u8, 101u8]
}

/// The dictionary key `length`.
pub open spec fn key_length() -> Seq<u8> {
    seq![108u8, 101u8, 110u8, 103u8, 116u8, 104u8]
}

/// The dictionary key `files`.
pub open spec fn key_files() -> Seq<u8> {
    seq![102u8, 105u8, 108u8, 101u8, 115u8]
}

/// The dictionary key `path`.
pub open spec fn key_path() -> Seq<u8> {
    seq![112u8, 97u8, 116u8, 104u8]
}

/// First value stored under key `k`, if any.
pub open spec fn dget(d: Seq<(Seq<u8>, BValue)>, k: Seq<u8>) -> Option<BValue>
    decreases d.len(),
{
    if d.len() == 0 {
        None
    } else if d[0].0 == k {
        Some(d[0].1)
    } else {
        dget(d.drop_first(), k)
    }
}

/// URLs (or path components) of a tier: every element must be a
/// byte-string.
pub open spec fn parse_urls(us: Seq<BValue>) -> Option<Seq<Seq<u8>>>
    decreases us.len(),
{
    if us.len() == 0 {
        Some(Seq::empty())
    } else {
        match parse_urls(us.drop_last()) {
            None => None,
            Some(r) => match us.last() {
                BValue::Bytes(b) => Some(r.push(b)),
                _ => None,
            },
        }
    }
}

/// Tracker tiers: every element must be a list of byte-strings.
pub open spec fn parse_tiers(ts: Seq<BValue>) -> Option<Seq<Seq<Seq<u8>>>>
    decreases ts.len(),
{
    if ts.len() == 0 {
        Some(Seq::empty())
    } else {
        match parse_tiers(ts.drop_last()) {
            None => None,
            Some(r) => match ts.last() {
                BValue::List(us) => match parse_urls(us) {
                    Some(t) => Some(r.push(t)),
                    None => None,
                },
                _ => None,
            },
        }
    }
}

/// One entry of `files`: a dictionary with `path` (list of
/// byte-strings) and a non-negative `length`.
pub open spec fn parse_file(fd: Seq<(Seq<u8>, BValue)>) -> Option<FileEntrySpec> {
    match (dget(fd, key_path()), dget(fd, key_length())) {
        (Some(BValue::List(ps)), Some(BValue::Int(l))) => if l >= 0 {
            match parse_urls(ps) {
                Some(path) => Some(FileEntrySpec { path, length: l }),
                None => None,
            }
        } else {
            None
        },
        _ => None,
    }
}

/// The `files` list: every element must be a valid file entry.
pub open spec fn parse_files(fs: Seq<BValue>) -> Option<Seq<FileEntrySpec>>
    decreases fs.len(),
{
    if fs.len() == 0 {
        Some(Seq::empty())
    } else {
        match parse_files(fs.drop_last()) {
            None => None,
            Some(r) => match fs.last() {
                BValue::Dict(fd) => match parse_file(fd) {
                    Some(f) => Some(r.push(f)),
                    None => None,
                },
                _ => None,
            },
        }
    }
}

/// The `info` dictionary.  Exactly one of `length` and `files` must be
/// present: their presence selects single-file or multi-file mode, and
/// both present or both absent is invalid.
pub open spec fn parse_info(inf: Seq<(Seq<u8>, BValue)>) -> Option<InfoSpec> {
    match dget(inf, key_name()) {
        Some(BValue::Bytes(name)) => match dget(inf, key_piece_length()) {
            Some(BValue::Int(pl)) => if pl <= 0 {
                None
            } else {
                match dget(inf, key_pieces()) {
                    Some(BValue::Bytes(pieces)) => {
                        let private = match dget(inf, key_private()) {
                            None => Some(None::<int>),
                            Some(BValue::Int(p)) => Some(Some(p)),
                            Some(_) => None,
                        };
                        let source = match dget(inf, key_source()) {
                            None => Some(None::<Seq<u8>>),
                            Some(BValue::Bytes(sb)) => Some(Some(sb)),
                            Some(_) => None,
                        };
                        match (private, source) {
                            (Some(private), Some(source)) => match (
                                dget(inf, key_length()),
                                dget(inf, key_files()),
                            ) {
                                (Some(BValue::Int(l)), None) => if l >= 0 {
                                    Some(
                                        InfoSpec {
                                            name,
                                            piece_length: pl,
                                            pieces,
                                            private,
                                            source,
                                            mode: ModeSpec::Single { length: l },
                                        },
                                    )
                                } else {
                                    None
                                },
                                (None, Some(BValue::List(fs))) => match parse_files(fs) {
                                    Some(files) => Some(
                                        InfoSpec {
                                            name,
                                            piece_length: pl,
                                            pieces,
                                            private,
                                            source,
                                            mode: ModeSpec::Multiple { files },
                                        },
                                    ),
                                    None => None,
                                },
                                _ => None,
                            },
                            _ => None,
                        }
                    },
                    _ => None,
                }
            },
            _ => None,
        },
        _ => None,
    }
}

/// The whole document: which generic values are valid metainfo
/// documents, and the typed document each one denotes.
pub open spec fn parse_spec(v: BValue) -> Option<MetainfoSpec> {
    match v {
        BValue::Dict(top) => match dget(top, key_announce()) {
            Some(BValue::Bytes(announce)) => {
                let announce_list = match dget(top, key_announce_list()) {
                    None => Some(None::<Seq<Seq<Seq<u8>>>>),
                    Some(BValue::List(ts)) => match parse_tiers(ts) {
                        Some(t) => Some(Some(t)),
                        None => None,
                    },
                    Some(_) => None,
                };
                let comment = match dget(top, key_comment()) {
                    None => Some(None::<Seq<u8>>),
                    Some(BValue::Bytes(c)) => Some(Some(c)),
                    Some(_) => None,
                };
                let creation_date = match dget(top, key_creation_date()) {
                    None => Some(None::<int>),
                    Some(BValue::Int(t)) => if t >= 0 {
                        Some(Some(t))
                    } else {
                        None
                    },
                    Some(_) => None,
                };
                match (announce_list, comment, creation_date) {
                    (Some(announce_list), Some(comment), Some(creation_date)) => match dget(
                        top,
                        key_info(),
                    ) {
                        Some(BValue::Dict(inf)) => match parse_info(inf) {
                            Some(info) => Some(
                                MetainfoSpec { announce, announce_list, comment, creation_date, info },
                            ),
                            None => None,
                        },
                        _ => None,
                    },
                    _ => None,
                }
            },
            _ => None,
        },
        _ => None,
    }
}

/// Why a well-formed bencode value is not a metainfo document.
#[derive(Debug, Clone, Copy, PartialEq, Eq, Structural)]
pub enum MetainfoError {
    /// The top-level value is not a dictionary.
    NotADictionary,
    /// A required field is absent.
    MissingField,
    /// A field holds a value of the wrong shape.
    WrongFieldType,
    /// `piece length` is zero or negative.
    NonPositivePieceLength,
    /// A file length is negative.
    NegativeLength,
    /// `creation date` is negative.
    NegativeDate,
    /// `length` and `files` are both present or both absent.
    ModeConflict,
}

/// `announce` as bytes.
pub(crate) fn kb_announce() -> (r: Vec<u8>)
    ensures
        r@ == key_announce(),
{
    let r: Vec<u8> = vec![97u8, 110u8, 110u8, 111u8, 117u8, 110u8, 99u8, 101u8];
    proof {
        assert(r@ =~= key_announce());
    }
    r
}

/// `announce-list` as bytes.
pub(crate) fn kb_announce_list() -> (r: Vec<u8>)
    ensures
        r@ == key_announce_list(),
{
    let r: Vec<u8> = vec![
        97u8, 110u8, 110u8, 111u8, 117u8, 110u8, 99u8, 101u8, 45u8, 108u8, 105u8, 115u8, 116u8,
    ];
    proof {
        assert(r@ =~= key_announce_list());
    }
    r
}

/// `comment` as bytes.
pub(crate) fn kb_comment() -> (r: Vec<u8>)
    ensures
        r@ == key_comment(),
{
    let r: Vec<u8> = vec![99u8, 111u8, 109u8, 109u8, 101u8, 110u8, 116u8];
    proof {
        assert(r@ =~= key_comment());
    }
    r
}

/// `creation date` as bytes.
pub(crate) fn kb_creation_date() -> (r: Vec<u8>)
    ensures
        r@ == key_creation_date(),
{
    let r: Vec<u8> = vec![
        99u8, 114u8, 101u8, 97u8, 116u8, 105u8, 111u8, 110u8, 32u8, 100u8, 97u8, 116u8, 101u8,
    ];
    proof {
        assert(r@ =~= key_creation_date());
    }
    r
}

/// `info` as bytes.
pub fn kb_info() -> (r: Vec<u8>)
    ensures
        r@ == key_info(),
{
    let r: Vec<u8> = vec![105u8, 110u8, 102u8, 111u8];
    proof {
        assert(r@ =~= key_info());
    }
    r
}

/// `name` as bytes.
pub(crate) fn kb_name() -> (r: Vec<u8>)
    ensures
        r@ == key_name(),
{
    let r: Vec<u8> = vec![110u8, 97u8, 109u8, 101u8];
    proof {
        assert(r@ =~= key_name());
    }
    r
}

/// `piece length` as bytes.
pub(crate) fn kb_piece_length() -> (r: Vec<u8>)
    ensures
        r@ == key_piece_length(),
{
    let r: Vec<u8> = vec![
        112u8, 105u8, 101u8, 99u8, 101u8, 32u8, 108u8, 101u8, 110u8, 103u8, 116u8, 104u8,
    ];
    proof {
        assert(r@ =~= key_piece_length());
    }
    r
}

/// `pieces` as bytes.
pub(crate) fn kb_pieces() -> (r: Vec<u8>)
    ensures
        r@ == key_pieces(),
{
    let r: Vec<u8> = vec![112u8, 105u8, 101u8, 99u8, 101u8, 115u8];
    proof {
        assert(r@ =~= key_pieces());
    }
    r
}

/// `private` as bytes.
pub(crate) fn kb_private() -> (r: Vec<u8>)
    ensures
        r@ == key_private(),
{
    let r: Vec<u8> = vec![112u8, 114u8, 105u8, 118u8, 97u8, 116u8, 101u8];
    proof {
        assert(r@ =~= key_private());
    }
    r
}

/// `source` as bytes.
pub(crate) fn kb_source() -> (r: Vec<u8>)
    ensures
        r@ == key_source(),
{
    let r: Vec<u8> = vec![115u8, 111u8, 117u8, 114u8, 99u8, 101u8];
    proof {
        assert(r@ =~= key_source());
    }
    r
}

/// `length` as bytes.
pub(crate) fn kb_length() -> (r: Vec<u8>)
    ensures
        r@ == key_length(),
{
    let r: Vec<u8> = vec![108u8, 101u8, 110u8, 103u8, 116u8, 104u8];
    proof {
        assert(r@ =~= key_length());
    }
    r
}

/// `files` as bytes.
pub(crate) fn kb_files() -> (r: Vec<u8>)
    ensures
        r@ == key_files(),
{
    let r: Vec<u8> = vec![102u8, 105u8, 108u8, 101u8, 115u8];
    proof {
        assert(r@ =~= key_files());
    }
    r
}

/// `path` as bytes.
pub(crate) fn kb_path() -> (r: Vec<u8>)
    ensures
        r@ == key_path(),
{
    let r: Vec<u8> = vec![112u8, 97u8, 116u8, 104u8];
    proof {
        assert(r@ =~= key_path());
    }
    r
}

/// If a prefix of the element sequence is invalid, the whole is.
proof fn lemma_parse_urls_prefix_none(us: Seq<BValue>, k: int)
    requires
        0 <= k <= us.len(),
        parse_urls(us.take(k)) is None,
    ensures
        parse_urls(us) is None,
    decreases us.len() - k,
{
    if k == us.len() {
        assert(us.take(k) =~= us);
    } else {
        assert(us.take(k + 1).drop_last() =~= us.take(k));
        lemma_parse_urls_prefix_none(us, k + 1);
    }
}

/// If a prefix of the tier sequence is invalid, the whole is.
proof fn lemma_parse_tiers_prefix_none(ts: Seq<BValue>, k: int)
    requires
        0 <= k <= ts.len(),
        parse_tiers(ts.take(k)) is None,
    ensures
        parse_tiers(ts) is None,
    decreases ts.len() - k,
{
    if k == ts.len() {
        assert(ts.take(k) =~= ts);
    } else {
        assert(ts.take(k + 1).drop_last() =~= ts.take(k));
        lemma_parse_tiers_prefix_none(ts, k + 1);
    }
}

/// If a prefix of the file list is invalid, the whole is.
proof fn lemma_parse_files_prefix_none(fs: Seq<BValue>, k: int)
    requires
        0 <= k <= fs.len(),
        parse_files(fs.take(k)) is None,
    ensures
        parse_files(fs) is None,
    decreases fs.len() - k,
{
    if k == fs.len() {
        assert(fs.take(k) =~= fs);
    } else {
        assert(fs.take(k + 1).drop_last() =~= fs.take(k));
        lemma_parse_files_prefix_none(fs, k + 1);
    }
}

/// Copy of a byte vector.
pub fn copy_bytes(b: &Vec<u8>) -> (r: Vec<u8>)
    ensures
        r@ == b@,
{
    let mut r: Vec<u8> = Vec::new();
    let mut k: usize = 0;
    while k < b.len()
        invariant
            k <= b@.len(),
            r@ == b@.take(k as int),
        decreases b@.len() - k,
    {
        r.push(b[k]);
        proof {
            assert(b@.take(k + 1 as int) =~= b@.take(k as int).push(b@[k as int]));
        }
        k = k + 1;
    }
    proof {
        assert(b@.take(b@.len() as int) =~= b@);
    }
    r
}

/// Byte-wise equality of two byte vectors.
pub fn bytes_eq(a: &Vec<u8>, b: &Vec<u8>) -> (r: bool)
    ensures
        r <==> a@ == b@,
{
    if a.len() != b.len() {
        proof {
            assert(a@ != b@);
        }
        return false;
    }
    let mut k: usize = 0;
    while k < a.len()
        invariant
            k <= a@.len(),
            a@.len() == b@.len(),
            forall|t: int| 0 <= t < k ==> a@[t] == b@[t],
        decreases a@.len() - k,
    {
        if a[k] != b[k] {
            proof {
                assert(a@[k as int] != b@[k as int]);
            }
            return false;
        }
        k = k + 1;
    }
    proof {
        assert(a@ =~= b@);
    }
    true
}

/// First entry of the dictionary whose key is `k`, if any.
pub fn dict_get<'a>(d: &'a Vec<(Vec<u8>, Value)>, k: &Vec<u8>) -> (r: Option<&'a Value>)
    ensures
        (match r {
            Some(v) => dget(view_dict(d@), k@) == Some(v@),
            None => dget(view_dict(d@), k@) is None,
        }),
{
    proof {
        lemma_view_dict(d@);
    }
    let ghost full = view_dict(d@);
    proof {
        assert(full.skip(0) =~= full);
    }
    let mut i: usize = 0;
    while i < d.len()
        invariant
            i <= d@.len(),
            full == view_dict(d@),
            full.len() == d@.len(),
            forall|j: int| 0 <= j < d@.len() ==> full[j] == (d@[j].0@, d@[j].1@),
            dget(full, k@) == dget(full.skip(i as int), k@),
        decreases d@.len() - i,
    {
        proof {
            assert(full.skip(i as int)[0] == full[i as int]);
            assert(full.skip(i as int).drop_first() =~= full.skip(i + 1 as int));
        }
        if bytes_eq(&d[i].0, k) {
            return Some(&d[i].1);
        }
        i = i + 1;
    }
    proof {
        assert(full.skip(d@.len() as int) =~= Seq::<(Seq<u8>, BValue)>::empty());
    }
    None
}

/// Collects a list of byte-strings (tracker URLs of one tier, or the
/// path components of one file).
fn parse_urls_exec(us: &Vec<Value>) -> (r: Result<Vec<Vec<u8>>, MetainfoError>)
    ensures
        (match r {
            Ok(u) => parse_urls(view_list(us@)) == Some(urls_view(u@)),
            Err(_) => parse_urls(view_list(us@)) is None,
        }),
{
    proof {
        lemma_view_list(us@);
    }
    let ghost full = view_list(us@);
    let mut out: Vec<Vec<u8>> = Vec::new();
    let mut i: usize = 0;
    while i < us.len()
        invariant
            i <= us@.len(),
            full == view_list(us@),
            full.len() == us@.len(),
            forall|j: int| 0 <= j < us@.len() ==> full[j] == us@[j]@,
            out@.len() == i,
            parse_urls(full.take(i as int)) == Some(urls_view(out@)),
        decreases us@.len() - i,
    {
        proof {
            assert(full.take(i + 1 as int).drop_last() =~= full.take(i as int));
            assert(full.take(i + 1 as int).last() == full[i as int]);
        }
        match &us[i] {
            Value::Bytes(b) => {
                let c = copy_bytes(b);
                out.push(c);
                proof {
                    assert(out@.drop_last() =~= out@.take(i as int));
                    assert(urls_view(out@) =~= urls_view(out@.drop_last()).push(b@));
                    assert(urls_view(out@.drop_last()) =~= urls_view(out@).drop_last());
                }
            },
            _ => {
                proof {
                    assert(parse_urls(full.take(i + 1 as int)) is None);
                    lemma_parse_urls_prefix_none(full, i + 1 as int);
                }
                return Err(MetainfoError::WrongFieldType);
            },
        }
        i = i + 1;
    }
    proof {
        assert(full.take(us@.len() as int) =~= full);
    }
    Ok(out)
}

/// Collects the tracker tiers of `announce-list`.
fn parse_tiers_exec(ts: &Vec<Value>) -> (r: Result<Vec<Vec<Vec<u8>>>, MetainfoError>)
    ensures
        (match r {
            Ok(t) => parse_tiers(view_list(ts@)) == Some(tiers_view(t@)),
            Err(_) => parse_tiers(view_list(ts@)) is None,
        }),
{
    proof {
        lemma_view_list(ts@);
    }
    let ghost full = view_list(ts@);
    let mut out: Vec<Vec<Vec<u8>>> = Vec::new();
    let mut i: usize = 0;
    while i < ts.len()
        invariant
            i <= ts@.len(),
            full == view_list(ts@),
            full.len() == ts@.len(),
            forall|j: int| 0 <= j < ts@.len() ==> full[j] == ts@[j]@,
            out@.len() == i,
            parse_tiers(full.take(i as int)) == Some(tiers_view(out@)),
        decreases ts@.len() - i,
    {
        proof {
            assert(full.take(i + 1 as int).drop_last() =~= full.take(i as int));
            assert(full.take(i + 1 as int).last() == full[i as int]);
        }
        match &ts[i] {
            Value::List(us) => {
                match parse_urls_exec(us) {
                    Ok(u) => {
                        let ghost uv = urls_view(u@);
                        out.push(u);
                        proof {
                            assert(out@.drop_last() =~= out@.take(i as int));
                            assert(tiers_view(out@) =~= tiers_view(out@.drop_last()).push(uv));
                        }
                    },
                    Err(e) => {
                        proof {
                            assert(parse_tiers(full.take(i + 1 as int)) is None);
                            lemma_parse_tiers_prefix_none(full, i + 1 as int);
                        }
                        return Err(e);
                    },
                }
            },
            _ => {
                proof {
                    assert(parse_tiers(full.take(i + 1 as int)) is None);
                    lemma_parse_tiers_prefix_none(full, i + 1 as int);
                }
                return Err(MetainfoError::WrongFieldType);
            },
        }
        i = i + 1;
    }
    proof {
        assert(full.take(ts@.len() as int) =~= full);
    }
    Ok(out)
}

/// Reads one entry of `files`.
fn parse_file_exec(fd: &Vec<(Vec<u8>, Value)>) -> (r: Result<FileEntry, MetainfoError>)
    ensures
        (match r {
            Ok(f) => parse_file(view_dict(fd@)) == Some(f@),
            Err(_) => parse_file(view_dict(fd@)) is None,
        }),
{
    let kp = kb_path();
    let kl = kb_length();
    let path = match dict_get(fd, &kp) {
        Some(pv) => match pv {
            Value::List(ps) => match parse_urls_exec(ps) {
                Ok(p) => p,
                Err(e) => {
                    return Err(e);
                },
            },
            _ => {
                return Err(MetainfoError::WrongFieldType);
            },
        },
        None => {
            return Err(MetainfoError::MissingField);
        },
    };
    let length: u64 = match dict_get(fd, &kl) {
        Some(lv) => match lv {
            Value::Int(l) => if *l >= 0 {
                *l as u64
            } else {
                return Err(MetainfoError::NegativeLength);
            },
            _ => {
                return Err(MetainfoError::WrongFieldType);
            },
        },
        None => {
            return Err(MetainfoError::MissingField);
        },
    };
    Ok(FileEntry { path, length })
}

/// Collects the `files` list.
fn parse_files_exec(fs: &Vec<Value>) -> (r: Result<Vec<FileEntry>, MetainfoError>)
    ensures
        (match r {
            Ok(f) => parse_files(view_list(fs@)) == Some(files_view(f@)),
            Err(_) => parse_files(view_list(fs@)) is None,
        }),
{
    proof {
        lemma_view_list(fs@);
    }
    let ghost full = view_list(fs@);
    let mut out: Vec<FileEntry> = Vec::new();
    let mut i: usize = 0;
    while i < fs.len()
        invariant
            i <= fs@.len(),
            full == view_list(fs@),
            full.len() == fs@.len(),
            forall|j: int| 0 <= j < fs@.len() ==> full[j] == fs@[j]@,
            out@.len() == i,
            parse_files(full.take(i as int)) == Some(files_view(out@)),
        decreases fs@.len() - i,
    {
        proof {
            assert(full.take(i + 1 as int).drop_last() =~= full.take(i as int));
            assert(full.take(i + 1 as int).last() == full[i as int]);
        }
        match &fs[i] {
            Value::Dict(fd) => {
                match parse_file_exec(fd) {
                    Ok(f) => {
                        let ghost fv = f@;
                        out.push(f);
                        proof {
                            assert(out@.drop_last() =~= out@.take(i as int));
                            assert(files_view(out@) =~= files_view(out@.drop_last()).push(fv));
                        }
                    },
                    Err(e) => {
                        proof {
                            assert(parse_files(full.take(i + 1 as int)) is None);
                            lemma_parse_files_prefix_none(full, i + 1 as int);
                        }
                        return Err(e);
                    },
                }
            },
            _ => {
                proof {
                    assert(parse_files(full.take(i + 1 as int)) is None);
                    lemma_parse_files_prefix_none(full, i + 1 as int);
                }
                return Err(MetainfoError::WrongFieldType);
            },
        }
        i = i + 1;
    }
    proof {
        assert(full.take(fs@.len() as int) =~= full);
    }
    Ok(out)
}

/// Reads the typed `info` dictionary.
fn parse_info_exec(inf: &Vec<(Vec<u8>, Value)>) -> (r: Result<Info, MetainfoError>)
    ensures
        (match r {
            Ok(info) => parse_info(view_dict(inf@)) == Some(info@),
            Err(_) => parse_info(view_dict(inf@)) is None,
        }),
{
    let kn = kb_name();
    let name = match dict_get(inf, &kn) {
        Some(nv) => match nv {
            Value::Bytes(b) => copy_bytes(b),
            _ => {
                return Err(MetainfoError::WrongFieldType);
            },
        },
        None => {
            return Err(MetainfoError::MissingField);
        },
    };
    let kpl = kb_piece_length();
    let piece_length: u64 = match dict_get(inf, &kpl) {
        Some(pv) => match pv {
            Value::Int(pl) => if *pl <= 0 {
                return Err(MetainfoError::NonPositivePieceLength);
            } else {
                *pl as u64
            },
            _ => {
                return Err(MetainfoError::WrongFieldType);
            },
        },
        None => {
            return Err(MetainfoError::MissingField);
        },
    };
    let kps = kb_pieces();
    let pieces = match dict_get(inf, &kps) {
        Some(pv) => match pv {
            Value::Bytes(b) => copy_bytes(b),
            _ => {
                return Err(MetainfoError::WrongFieldType);
            },
        },
        None => {
            return Err(MetainfoError::MissingField);
        },
    };
    let kpr = kb_private();
    let private: Option<i64> = match dict_get(inf, &kpr) {
        None => None,
        Some(pv) => match pv {
            Value::Int(p) => Some(*p),
            _ => {
                return Err(MetainfoError::WrongFieldType);
            },
        },
    };
    let kso = kb_source();
    let source: Option<Vec<u8>> = match dict_get(inf, &kso) {
        None => None,
        Some(sv) => match sv {
            Value::Bytes(b) => Some(copy_bytes(b)),
            _ => {
                return Err(MetainfoError::WrongFieldType);
            },
        },
    };
    let kle = kb_length();
    let kfi = kb_files();
    let length_entry = dict_get(inf, &kle);
    let files_entry = dict_get(inf, &kfi);
    let mode: Mode = match (length_entry, files_entry) {
        (Some(lv), None) => match lv {
            Value::Int(l) => if *l >= 0 {
                Mode::Single { length: *l as u64 }
            } else {
                return Err(MetainfoError::NegativeLength);
            },
            _ => {
                return Err(MetainfoError::WrongFieldType);
            },
        },
        (None, Some(fv)) => match fv {
            Value::List(fs) => match parse_files_exec(fs) {
                Ok(files) => Mode::Multiple { files },
                Err(e) => {
                    return Err(e);
                },
            },
            _ => {
                return Err(MetainfoError::WrongFieldType);
            },
        },
        _ => {
            return Err(MetainfoError::ModeConflict);
        },
    };
    Ok(Info { name, piece_length, pieces, private, source, mode })
}

impl Metainfo {
    /// Extracts the typed document from a generic bencode value.
    /// Succeeds exactly on the values that `parse_spec` accepts, and
    /// then returns the document `parse_spec` denotes.
    pub fn parse(v: &Value) -> (r: Result<Metainfo, MetainfoError>)
        ensures
            (match r {
                Ok(m) => parse_spec(v@) == Some(m@),
                Err(_) => parse_spec(v@) is None,
            }),
    {
        let top = match v {
            Value::Dict(top) => top,
            _ => {
                return Err(MetainfoError::NotADictionary);
            },
        };
        let ka = kb_announce();
        let announce = match dict_get(top, &ka) {
            Some(av) => match av {
                Value::Bytes(b) => copy_bytes(b),
                _ => {
                    return Err(MetainfoError::WrongFieldType);
                },
            },
            None => {
                return Err(MetainfoError::MissingField);
            },
        };
        let kal = kb_announce_list();
        let announce_list: Option<Vec<Vec<Vec<u8>>>> = match dict_get(top, &kal) {
            None => None,
            Some(alv) => match alv {
                Value::List(ts) => match parse_tiers_exec(ts) {
                    Ok(t) => Some(t),
                    Err(e) => {
                        return Err(e);
                    },
                },
                _ => {
                    return Err(MetainfoError::WrongFieldType);
                },
            },
        };
        let kc = kb_comment();
        let comment: Option<Vec<u8>> = match dict_get(top, &kc) {
            None => None,
            Some(cv) => match cv {
                Value::Bytes(b) => Some(copy_bytes(b)),
                _ => {
                    return Err(MetainfoError::WrongFieldType);
                },
            },
        };
        let kcd = kb_creation_date();
        let creation_date: Option<u64> = match dict_get(top, &kcd) {
            None => None,
            Some(tv) => match tv {
                Value::Int(t) => if *t >= 0 {
                    Some(*t as u64)
                } else {
                    return Err(MetainfoError::NegativeDate);
                },
                _ => {
                    return Err(MetainfoError::WrongFieldType);
                },
            },
        };
        let ki = kb_info();
        let info = match dict_get(top, &ki) {
            Some(iv) => match iv {
                Value::Dict(inf) => match parse_info_exec(inf) {
                    Ok(info) => info,
                    Err(e) => {
                        return Err(e);
                    },
                },
                _ => {
                    return Err(MetainfoError::WrongFieldType);
                },
            },
            None => {
                return Err(MetainfoError::MissingField);
            },
        };
        Ok(Metainfo { announce, announce_list, comment, creation_date, info })
    }
}

/// Mode exclusivity: an `info` dictionary with both `length` and
/// `files`, or with neither, denotes no document — parsing rejects it.
pub proof fn lemma_mode_exclusivity(inf: Seq<(Seq<u8>, BValue)>)
    requires
        (dget(inf, key_length()) is Some && dget(inf, key_files()) is Some) || (dget(
            inf,
            key_length(),
        ) is None && dget(inf, key_files()) is None),
    ensures
        parse_info(inf) is None,
{
}

} // verus!
