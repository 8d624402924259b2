//! Building the generic value tree of a typed document, and the
//! summary of an in-memory document.
//!
//! `value_spec` fixes the tree: a top-level dictionary with keys in
//! sorted order (`announce`, `announce-list`, `comment`,
//! `creation date`, `info`), the optional ones present exactly when
//! the document carries them, and the same for the `info` and file
//! dictionaries.  A summary built from a document hashes the same
//! bytes that `from_bytes` would hash after re-reading the serialized
//! form: the proof below ties the two paths together.

use vstd::prelude::*;

use crate::bencode::{enc, wf, wf_dict, wf_list, BValue, Value, view_dict, view_list,
    lemma_view_dict, lemma_view_list};
use crate::metainfo::{copy_bytes, dget, files_view, kb_announce, kb_announce_list, kb_comment,
    kb_creation_date, kb_files, kb_info, kb_length, kb_name, kb_path, kb_piece_length, kb_pieces,
    kb_private, kb_source, key_announce, key_announce_list, key_comment, key_creation_date,
    key_files, key_info, key_length, key_name, key_path, key_piece_length, key_pieces, key_private,
    key_source, parse_file, parse_files, parse_info, parse_spec, parse_tiers, parse_urls, tiers_view, urls_view, FileEntry, FileEntrySpec, InfoSpec, Metainfo,
    MetainfoSpec, Mode, ModeSpec};
use crate::roundtrip::lemma_round_trip;
use crate::summary::{info_value_of, sha1_digest, sha1_of, TorrentSummary};

verus! {

/// A list of byte-strings as a generic value body.
pub open spec fn urls_body(us: Seq<Seq<u8>>) -> Seq<BValue> {
    Seq::new(us.len(), |i: int| BValue::Bytes(us[i]))
}

/// The tiers of an announce-list as a generic value body.
pub open spec fn tiers_body(ts: Seq<Seq<Seq<u8>>>) -> Seq<BValue> {
    Seq::new(ts.len(), |i: int| BValue::List(urls_body(ts[i])))
}

/// One file entry as a generic dictionary: `length`, then `path`.
pub open spec fn file_value(f: FileEntrySpec) -> BValue {
    BValue::Dict(
        seq![
            (key_length(), BValue::Int(f.length)),
            (key_path(), BValue::List(urls_body(f.path))),
        ],
    )
}

/// The `files` list as a generic value body.
pub open spec fn files_body(fs: Seq<FileEntrySpec>) -> Seq<BValue> {
    Seq::new(fs.len(), |i: int| file_value(fs[i]))
}

/// The `info` dictionary as a generic value, keys in sorted order:
/// `files` or `length` first, then `name`, `piece length`, `pieces`,
/// and the optional `private` and `source`.
pub open spec fn info_entries(i: InfoSpec) -> Seq<(Seq<u8>, BValue)> {
    let e = match i.mode {
        ModeSpec::Multiple { files } => seq![(key_files(), BValue::List(files_body(files)))],
        ModeSpec::Single { length } => seq![(key_length(), BValue::Int(length))],
    };
    let e = e.push((key_name(), BValue::Bytes(i.name)));
    let e = e.push((key_piece_length(), BValue::Int(i.piece_length)));
    let e = e.push((key_pieces(), BValue::Bytes(i.pieces)));
    let e = match i.private {
        Some(p) => e.push((key_private(), BValue::Int(p))),
        None => e,
    };
    match i.source {
        Some(sb) => e.push((key_source(), BValue::Bytes(sb))),
        None => e,
    }
}

/// The `info` dictionary as a generic value.
pub open spec fn info_value_spec(i: InfoSpec) -> BValue {
    BValue::Dict(info_entries(i))
}

/// The top-level dictionary entries, keys in sorted order; `info`
/// stands last.
pub open spec fn top_entries(m: MetainfoSpec) -> Seq<(Seq<u8>, BValue)> {
    let e = seq![(key_announce(), BValue::Bytes(m.announce))];
    let e = match m.announce_list {
        Some(ts) => e.push((key_announce_list(), BValue::List(tiers_body(ts)))),
        None => e,
    };
    let e = match m.comment {
        Some(c) => e.push((key_comment(), BValue::Bytes(c))),
        None => e,
    };
    let e = match m.creation_date {
        Some(t) => e.push((key_creation_date(), BValue::Int(t))),
        None => e,
    };
    e.push((key_info(), info_value_spec(m.info)))
}

/// The whole document as a generic value.
pub open spec fn value_spec(m: MetainfoSpec) -> BValue {
    BValue::Dict(top_entries(m))
}

/// Every integer the tree will carry fits the 64-bit signed range
/// that bencode integers use.
pub open spec fn valid_spec(m: MetainfoSpec) -> bool {
    &&& 0 <= m.info.piece_length <= i64::MAX
    &&& (match m.creation_date {
        Some(t) => 0 <= t <= i64::MAX,
        None => true,
    })
    &&& (match m.info.private {
        Some(p) => i64::MIN <= p <= i64::MAX,
        None => true,
    })
    &&& (match m.info.mode {
        ModeSpec::Single { length } => 0 <= length <= i64::MAX,
        ModeSpec::Multiple { files } => forall|i: int|
            0 <= i < files.len() ==> 0 <= (#[trigger] files[i]).length <= i64::MAX,
    })
}

/// A sequence of well-formed values is a well-formed list body.
proof fn lemma_wf_list_all(l: Seq<BValue>)
    requires
        forall|i: int| 0 <= i < l.len() ==> wf(#[trigger] l[i]),
    ensures
        wf_list(l),
    decreases l.len(),
{
    if l.len() > 0 {
        lemma_wf_list_all(l.drop_first());
    }
}

/// Appending an entry with a well-formed value keeps a dictionary
/// body well formed.
proof fn lemma_wf_dict_push(d: Seq<(Seq<u8>, BValue)>, e: (Seq<u8>, BValue))
    requires
        wf_dict(d),
        wf(e.1),
    ensures
        wf_dict(d.push(e)),
    decreases d.len(),
{
    if d.len() == 0 {
        assert(d.push(e)[0] == e);
        assert(d.push(e).drop_first() =~= d);
    } else {
        assert(d.push(e)[0] == d[0]);
        assert(d.push(e).drop_first() =~= d.drop_first().push(e));
        lemma_wf_dict_push(d.drop_first(), e);
    }
}

/// One file entry of a valid document is well formed.
proof fn lemma_file_wf(f: FileEntrySpec)
    requires
        0 <= f.length <= i64::MAX,
    ensures
        wf(file_value(f)),
{
    let ub = urls_body(f.path);
    assert forall|y: int| 0 <= y < ub.len() implies wf(#[trigger] ub[y]) by {
        assert(ub[y] == BValue::Bytes(f.path[y]));
    }
    lemma_wf_list_all(ub);
    let d = file_value(f)->Dict_0;
    assert(d[0].1 == BValue::Int(f.length));
    assert(wf(d[0].1));
    assert(wf(d[1].1));
    assert(d.drop_first().drop_first().len() == 0);
    assert(wf_dict(d.drop_first().drop_first()));
    assert(d.drop_first()[0] == d[1]);
    assert(wf_dict(d.drop_first()));
    assert(wf_dict(d));
}

/// The tree of a valid document is well formed.
pub proof fn lemma_value_wf(m: MetainfoSpec)
    requires
        valid_spec(m),
    ensures
        wf(value_spec(m)),
        wf(info_value_spec(m.info)),
{
    let i = m.info;
    let e1: Seq<(Seq<u8>, BValue)> = match i.mode {
        ModeSpec::Multiple { files } => seq![(key_files(), BValue::List(files_body(files)))],
        ModeSpec::Single { length } => seq![(key_length(), BValue::Int(length))],
    };
    match i.mode {
        ModeSpec::Multiple { files } => {
            let fb = files_body(files);
            assert forall|x: int| 0 <= x < fb.len() implies wf(#[trigger] fb[x]) by {
                assert(fb[x] == file_value(files[x]));
                lemma_file_wf(files[x]);
            }
            lemma_wf_list_all(fb);
            assert(e1[0].1 == BValue::List(fb));
            assert(wf(e1[0].1));
            assert(e1.drop_first().len() == 0);
            assert(wf_dict(e1.drop_first()));
            assert(wf_dict(e1));
        },
        ModeSpec::Single { length } => {
            assert(e1[0].1 == BValue::Int(length));
            assert(wf(e1[0].1));
            assert(e1.drop_first().len() == 0);
            assert(wf_dict(e1.drop_first()));
            assert(wf_dict(e1));
        },
    }
    let e2 = e1.push((key_name(), BValue::Bytes(i.name)));
    lemma_wf_dict_push(e1, (key_name(), BValue::Bytes(i.name)));
    let e3 = e2.push((key_piece_length(), BValue::Int(i.piece_length)));
    lemma_wf_dict_push(e2, (key_piece_length(), BValue::Int(i.piece_length)));
    let e4 = e3.push((key_pieces(), BValue::Bytes(i.pieces)));
    lemma_wf_dict_push(e3, (key_pieces(), BValue::Bytes(i.pieces)));
    let e5: Seq<(Seq<u8>, BValue)> = match i.private {
        Some(p) => e4.push((key_private(), BValue::Int(p))),
        None => e4,
    };
    match i.private {
        Some(p) => {
            lemma_wf_dict_push(e4, (key_private(), BValue::Int(p)));
        },
        None => {
        },
    }
    let e6: Seq<(Seq<u8>, BValue)> = match i.source {
        Some(sb) => e5.push((key_source(), BValue::Bytes(sb))),
        None => e5,
    };
    match i.source {
        Some(sb) => {
            lemma_wf_dict_push(e5, (key_source(), BValue::Bytes(sb)));
        },
        None => {
        },
    }
    assert(e6 == info_entries(i));
    assert(wf(info_value_spec(i)));

    let t1 = seq![(key_announce(), BValue::Bytes(m.announce))];
    assert(t1[0].1 == BValue::Bytes(m.announce));
    assert(wf(t1[0].1));
    assert(t1.drop_first().len() == 0);
    assert(wf_dict(t1.drop_first()));
    assert(wf_dict(t1));
    let t2: Seq<(Seq<u8>, BValue)> = match m.announce_list {
        Some(ts) => t1.push((key_announce_list(), BValue::List(tiers_body(ts)))),
        None => t1,
    };
    match m.announce_list {
        Some(ts) => {
            let tb = tiers_body(ts);
            assert forall|x: int| 0 <= x < tb.len() implies wf(#[trigger] tb[x]) by {
                let ub = urls_body(ts[x]);
                assert forall|y: int| 0 <= y < ub.len() implies wf(#[trigger] ub[y]) by {
                    assert(ub[y] == BValue::Bytes(ts[x][y]));
                }
                lemma_wf_list_all(ub);
                assert(tb[x] == BValue::List(ub));
            }
            lemma_wf_list_all(tb);
            lemma_wf_dict_push(t1, (key_announce_list(), BValue::List(tiers_body(ts))));
        },
        None => {
        },
    }
    let t3: Seq<(Seq<u8>, BValue)> = match m.comment {
        Some(c) => t2.push((key_comment(), BValue::Bytes(c))),
        None => t2,
    };
    match m.comment {
        Some(c) => {
            lemma_wf_dict_push(t2, (key_comment(), BValue::Bytes(c)));
        },
        None => {
        },
    }
    let t4: Seq<(Seq<u8>, BValue)> = match m.creation_date {
        Some(t) => t3.push((key_creation_date(), BValue::Int(t))),
        None => t3,
    };
    match m.creation_date {
        Some(t) => {
            lemma_wf_dict_push(t3, (key_creation_date(), BValue::Int(t)));
        },
        None => {
        },
    }
    let t5 = t4.push((key_info(), info_value_spec(m.info)));
    lemma_wf_dict_push(t4, (key_info(), info_value_spec(m.info)));
    assert(t5 == top_entries(m));
    assert(wf(value_spec(m)));
}

/// In a dictionary whose last entry alone has key `k`, lookup finds
/// that entry.
pub proof fn lemma_dget_last(d: Seq<(Seq<u8>, BValue)>, k: Seq<u8>)
    requires
        d.len() > 0,
        d.last().0 == k,
        forall|i: int| 0 <= i < d.len() - 1 ==> (#[trigger] d[i]).0 != k,
    ensures
        dget(d, k) == Some(d.last().1),
    decreases d.len(),
{
    if d.len() == 1 {
        assert(d[0] == d.last());
    } else {
        assert(d[0].0 != k);
        assert(d.drop_first().last() == d.last());
        lemma_dget_last(d.drop_first(), k);
    }
}

/// The serialized document's top-level dictionary stores the `info`
/// value under `info`.
pub proof fn lemma_top_info(m: MetainfoSpec)
    ensures
        dget(top_entries(m), key_info()) == Some(info_value_spec(m.info)),
{
    let e = top_entries(m);
    assert(key_announce().len() == 8);
    assert(key_announce_list().len() == 13);
    assert(key_comment().len() == 7);
    assert(key_creation_date().len() == 13);
    assert(key_info().len() == 4);
    assert forall|i: int| 0 <= i < e.len() - 1 implies (#[trigger] e[i]).0 != key_info() by {
        assert(e[i].0.len() != 4);
    }
    lemma_dget_last(e, key_info());
}

/// A list of byte-strings as executable values.
fn urls_to_values(u: &Vec<Vec<u8>>) -> (r: Vec<Value>)
    ensures
        view_list(r@) == urls_body(urls_view(u@)),
{
    let mut r: Vec<Value> = Vec::new();
    let mut k: usize = 0;
    while k < u.len()
        invariant
            k <= u@.len(),
            r@.len() == k,
            forall|t: int| 0 <= t < k ==> (#[trigger] r@[t])@ == BValue::Bytes(u@[t]@),
        decreases u@.len() - k,
    {
        let c = copy_bytes(&u[k]);
        r.push(Value::Bytes(c));
        k = k + 1;
    }
    proof {
        lemma_view_list(r@);
        assert(view_list(r@) =~= urls_body(urls_view(u@)));
    }
    r
}

/// The tiers of an announce-list as executable values.
fn tiers_to_values(ts: &Vec<Vec<Vec<u8>>>) -> (r: Vec<Value>)
    ensures
        view_list(r@) == tiers_body(tiers_view(ts@)),
{
    let mut r: Vec<Value> = Vec::new();
    let mut k: usize = 0;
    while k < ts.len()
        invariant
            k <= ts@.len(),
            r@.len() == k,
            forall|t: int|
                0 <= t < k ==> (#[trigger] r@[t])@ == BValue::List(urls_body(urls_view(ts@[t]@))),
        decreases ts@.len() - k,
    {
        let us = urls_to_values(&ts[k]);
        r.push(Value::List(us));
        k = k + 1;
    }
    proof {
        lemma_view_list(r@);
        assert(view_list(r@) =~= tiers_body(tiers_view(ts@)));
    }
    r
}

/// The `files` list as executable values.
fn files_to_values(fs: &Vec<FileEntry>) -> (r: Vec<Value>)
    requires
        forall|i: int| 0 <= i < fs@.len() ==> (#[trigger] fs@[i]).length <= i64::MAX,
    ensures
        view_list(r@) == files_body(files_view(fs@)),
{
    let mut r: Vec<Value> = Vec::new();
    let mut k: usize = 0;
    while k < fs.len()
        invariant
            k <= fs@.len(),
            r@.len() == k,
            forall|i: int| 0 <= i < fs@.len() ==> (#[trigger] fs@[i]).length <= i64::MAX,
            forall|t: int| 0 <= t < k ==> (#[trigger] r@[t])@ == file_value(fs@[t]@),
        decreases fs@.len() - k,
    {
        let mut fd: Vec<(Vec<u8>, Value)> = Vec::new();
        fd.push((kb_length(), Value::Int(fs[k].length as i64)));
        let us = urls_to_values(&fs[k].path);
        fd.push((kb_path(), Value::List(us)));
        proof {
            lemma_view_dict(fd@);
            assert(view_dict(fd@) =~= file_value(fs@[k as int]@)->Dict_0);
        }
        r.push(Value::Dict(fd));
        k = k + 1;
    }
    proof {
        lemma_view_list(r@);
        assert(view_list(r@) =~= files_body(files_view(fs@)));
    }
    r
}

impl Metainfo {
    /// The `info` dictionary of this document as a generic value.
    pub fn info_to_value(&self) -> (v: Value)
        requires
            valid_spec(self@),
        ensures
            v@ == info_value_spec(self@.info),
    {
        let mut d: Vec<(Vec<u8>, Value)> = Vec::new();
        match &self.info.mode {
            Mode::Multiple { files } => {
                proof {
                    assert forall|i: int|
                        0 <= i < files@.len() implies (#[trigger] files@[i]).length
                        <= i64::MAX by {
                        assert(files_view(files@)[i] == files@[i]@);
                    }
                }
                let fv = files_to_values(files);
                d.push((kb_files(), Value::List(fv)));
            },
            Mode::Single { length } => {
                d.push((kb_length(), Value::Int(*length as i64)));
            },
        }
        d.push((kb_name(), Value::Bytes(copy_bytes(&self.info.name))));
        d.push((kb_piece_length(), Value::Int(self.info.piece_length as i64)));
        d.push((kb_pieces(), Value::Bytes(copy_bytes(&self.info.pieces))));
        match &self.info.private {
            Some(p) => {
                d.push((kb_private(), Value::Int(*p)));
            },
            None => {},
        }
        match &self.info.source {
            Some(sb) => {
                d.push((kb_source(), Value::Bytes(copy_bytes(sb))));
            },
            None => {},
        }
        proof {
            lemma_view_dict(d@);
            assert(view_dict(d@) =~= info_entries(self@.info));
        }
        Value::Dict(d)
    }

    /// The whole document as a generic value, `info` last.
    pub fn to_value(&self) -> (v: Value)
        requires
            valid_spec(self@),
        ensures
            v@ == value_spec(self@),
    {
        let info_value = self.info_to_value();
        let mut d: Vec<(Vec<u8>, Value)> = Vec::new();
        d.push((kb_announce(), Value::Bytes(copy_bytes(&self.announce))));
        match &self.announce_list {
            Some(ts) => {
                let tv = tiers_to_values(ts);
                d.push((kb_announce_list(), Value::List(tv)));
            },
            None => {},
        }
        match &self.comment {
            Some(c) => {
                d.push((kb_comment(), Value::Bytes(copy_bytes(c))));
            },
            None => {},
        }
        match &self.creation_date {
            Some(t) => {
                d.push((kb_creation_date(), Value::Int(*t as i64)));
            },
            None => {},
        }
        d.push((kb_info(), info_value));
        proof {
            lemma_view_dict(d@);
            assert(view_dict(d@) =~= top_entries(self@));
        }
        Value::Dict(d)
    }

    /// Canonical serialized bytes of this document.
    pub fn serialize(&self) -> (r: Vec<u8>)
        requires
            valid_spec(self@),
        ensures
            r@ == enc(value_spec(self@)),
    {
        let v = self.to_value();
        v.encode()
    }
}

impl TorrentSummary {
    /// Builds the summary of an in-memory document.  The info-hash is
    /// derived exactly as `from_bytes` derives it from the serialized
    /// form: the SHA-1 digest of the canonical encoding of the `info`
    /// value (`lemma_serialized_info` ties the two paths together).
    pub fn from_metainfo(metainfo: Metainfo) -> (r: TorrentSummary)
        requires
            valid_spec(metainfo@),
        ensures
            r@.metainfo == metainfo@,
            r@.infohash == sha1_of(enc(info_value_spec(metainfo@.info))),
            r@.size == enc(value_spec(metainfo@)).len(),
    {
        let info_value = metainfo.info_to_value();
        let info_bytes = info_value.encode();
        let infohash = sha1_digest(&info_bytes);
        let whole = metainfo.to_value();
        let bytes = whole.encode();
        let size = bytes.len() as u64;
        TorrentSummary { metainfo, infohash, size }
    }
}

/// The serialized form of a valid document decodes back to its value
/// tree, whose `info` entry is the built `info` value: a summary read
/// from those bytes hashes the same bytes as `from_metainfo`.
pub proof fn lemma_serialized_info(m: MetainfoSpec)
    requires
        valid_spec(m),
    ensures
        info_value_of(enc(value_spec(m))) == Some(info_value_spec(m.info)),
{
    lemma_value_wf(m);
    lemma_round_trip(value_spec(m));
    lemma_top_info(m);
}

/// In a dictionary whose entry at `i` alone has key `k` among the
/// first `i + 1`, lookup finds that entry.
pub proof fn lemma_dget_at(d: Seq<(Seq<u8>, BValue)>, k: Seq<u8>, i: int)
    requires
        0 <= i < d.len(),
        d[i].0 == k,
        forall|j: int| 0 <= j < i ==> (#[trigger] d[j]).0 != k,
    ensures
        dget(d, k) == Some(d[i].1),
    decreases i,
{
    if i > 0 {
        assert(d[0].0 != k);
        assert forall|j: int| 0 <= j < i - 1 implies (#[trigger] d.drop_first()[j]).0 != k by {
            assert(d.drop_first()[j] == d[j + 1]);
        }
        assert(d.drop_first()[i - 1] == d[i]);
        lemma_dget_at(d.drop_first(), k, i - 1);
    }
}

/// In a dictionary none of whose keys is `k`, lookup finds nothing.
pub proof fn lemma_dget_absent(d: Seq<(Seq<u8>, BValue)>, k: Seq<u8>)
    requires
        forall|j: int| 0 <= j < d.len() ==> (#[trigger] d[j]).0 != k,
    ensures
        dget(d, k) is None,
    decreases d.len(),
{
    if d.len() > 0 {
        assert forall|j: int|
            0 <= j < d.drop_first().len() implies (#[trigger] d.drop_first()[j]).0 != k by {
            assert(d.drop_first()[j] == d[j + 1]);
        }
        lemma_dget_absent(d.drop_first(), k);
    }
}

/// Parsing the serialized form of a URL list gives the list back.
pub proof fn lemma_parse_urls_body(us: Seq<Seq<u8>>)
    ensures
        parse_urls(urls_body(us)) == Some(us),
    decreases us.len(),
{
    if us.len() == 0 {
        assert(urls_body(us).len() == 0);
        assert(us =~= Seq::<Seq<u8>>::empty());
    } else {
        assert(urls_body(us).drop_last() =~= urls_body(us.drop_last()));
        lemma_parse_urls_body(us.drop_last());
        assert(urls_body(us).last() == BValue::Bytes(us.last()));
        assert(us.drop_last().push(us.last()) =~= us);
    }
}

/// Parsing the serialized form of an announce-list gives it back.
pub proof fn lemma_parse_tiers_body(ts: Seq<Seq<Seq<u8>>>)
    ensures
        parse_tiers(tiers_body(ts)) == Some(ts),
    decreases ts.len(),
{
    if ts.len() == 0 {
        assert(tiers_body(ts).len() == 0);
        assert(ts =~= Seq::<Seq<Seq<u8>>>::empty());
    } else {
        assert(tiers_body(ts).drop_last() =~= tiers_body(ts.drop_last()));
        lemma_parse_tiers_body(ts.drop_last());
        assert(tiers_body(ts).last() == BValue::List(urls_body(ts.last())));
        lemma_parse_urls_body(ts.last());
        assert(ts.drop_last().push(ts.last()) =~= ts);
    }
}

/// Parsing the serialized form of one file entry gives it back.
pub proof fn lemma_parse_file_value(f: FileEntrySpec)
    requires
        f.length >= 0,
    ensures
        file_value(f) matches BValue::Dict(fd) && parse_file(fd) == Some(f),
{
    let fd = file_value(f)->Dict_0;
    assert(key_length().len() == 6);
    assert(key_path().len() == 4);
    assert(fd[0].0 == key_length());
    assert(fd[1].0 == key_path());
    lemma_dget_at(fd, key_length(), 0);
    assert(fd[0].0 != key_path());
    lemma_dget_at(fd, key_path(), 1);
    lemma_parse_urls_body(f.path);
}

/// Parsing the serialized form of a file list gives it back.
pub proof fn lemma_parse_files_body(fs: Seq<FileEntrySpec>)
    requires
        forall|i: int| 0 <= i < fs.len() ==> (#[trigger] fs[i]).length >= 0,
    ensures
        parse_files(files_body(fs)) == Some(fs),
    decreases fs.len(),
{
    if fs.len() == 0 {
        assert(files_body(fs).len() == 0);
        assert(fs =~= Seq::<FileEntrySpec>::empty());
    } else {
        assert(files_body(fs).drop_last() =~= files_body(fs.drop_last()));
        assert forall|i: int|
            0 <= i < fs.drop_last().len() implies (#[trigger] fs.drop_last()[i]).length >= 0 by {
            assert(fs.drop_last()[i] == fs[i]);
        }
        lemma_parse_files_body(fs.drop_last());
        assert(files_body(fs).last() == file_value(fs.last()));
        lemma_parse_file_value(fs.last());
        assert(fs.drop_last().push(fs.last()) =~= fs);
    }
}


/// Parsing the serialized `info` dictionary of a valid document gives
/// the typed `info` back.
pub proof fn lemma_parse_info_body(i: InfoSpec)
    requires
        i.piece_length >= 1,
        (match i.mode {
            ModeSpec::Single { length } => length >= 0,
            ModeSpec::Multiple { files } => forall|x: int|
                0 <= x < files.len() ==> (#[trigger] files[x]).length >= 0,
        }),
    ensures
        parse_info(info_entries(i)) == Some(i),
{
    assert(key_files().len() == 5);
    assert(key_length().len() == 6);
    assert(key_name().len() == 4);
    assert(key_piece_length().len() == 12);
    assert(key_pieces().len() == 6);
    assert(key_private().len() == 7);
    assert(key_source().len() == 6);
    assert(key_length()[0] == 108u8);
    assert(key_pieces()[0] == 112u8);
    assert(key_source()[0] == 115u8);
    match i.mode {
        ModeSpec::Single { length } => {
            match i.private {
                Some(p) => match i.source {
                    Some(sb) => {
                        let ml: Seq<(Seq<u8>, BValue)> = seq![
                                                (key_length(), BValue::Int(length)),
                                                (key_name(), BValue::Bytes(i.name)),
                                                (key_piece_length(), BValue::Int(i.piece_length)),
                                                (key_pieces(), BValue::Bytes(i.pieces)),
                                                (key_private(), BValue::Int(p)),
                                                (key_source(), BValue::Bytes(sb))
                                            ];
                        assert(info_entries(i) =~= ml);
                        lemma_dget_at(ml, key_name(), 1);
                        lemma_dget_at(ml, key_piece_length(), 2);
                        lemma_dget_at(ml, key_pieces(), 3);
                        lemma_dget_at(ml, key_private(), 4);
                        lemma_dget_at(ml, key_source(), 5);
                        lemma_dget_at(ml, key_length(), 0);
                        lemma_dget_absent(ml, key_files());
                        assert(parse_info(info_entries(i)) == Some(i));
                    },
                    None => {
                        let ml: Seq<(Seq<u8>, BValue)> = seq![
                                                (key_length(), BValue::Int(length)),
                                                (key_name(), BValue::Bytes(i.name)),
                                                (key_piece_length(), BValue::Int(i.piece_length)),
                                                (key_pieces(), BValue::Bytes(i.pieces)),
                                                (key_private(), BValue::Int(p))
                                            ];
                        assert(info_entries(i) =~= ml);
                        lemma_dget_at(ml, key_name(), 1);
                        lemma_dget_at(ml, key_piece_length(), 2);
                        lemma_dget_at(ml, key_pieces(), 3);
                        lemma_dget_at(ml, key_private(), 4);
                        lemma_dget_absent(ml, key_source());
                        lemma_dget_at(ml, key_length(), 0);
                        lemma_dget_absent(ml, key_files());
                        assert(parse_info(info_entries(i)) == Some(i));
                    },
                },
                None => match i.source {
                    Some(sb) => {
                        let ml: Seq<(Seq<u8>, BValue)> = seq![
                                                (key_length(), BValue::Int(length)),
                                                (key_name(), BValue::Bytes(i.name)),
                                                (key_piece_length(), BValue::Int(i.piece_length)),
                                                (key_pieces(), BValue::Bytes(i.pieces)),
                                                (key_source(), BValue::Bytes(sb))
                                            ];
                        assert(info_entries(i) =~= ml);
                        lemma_dget_at(ml, key_name(), 1);
                        lemma_dget_at(ml, key_piece_length(), 2);
                        lemma_dget_at(ml, key_pieces(), 3);
                        lemma_dget_absent(ml, key_private());
                        lemma_dget_at(ml, key_source(), 4);
                        lemma_dget_at(ml, key_length(), 0);
                        lemma_dget_absent(ml, key_files());
                        assert(parse_info(info_entries(i)) == Some(i));
                    },
                    None => {
                        let ml: Seq<(Seq<u8>, BValue)> = seq![
                                                (key_length(), BValue::Int(length)),
                                                (key_name(), BValue::Bytes(i.name)),
                                                (key_piece_length(), BValue::Int(i.piece_length)),
                                                (key_pieces(), BValue::Bytes(i.pieces))
                                            ];
                        assert(info_entries(i) =~= ml);
                        lemma_dget_at(ml, key_name(), 1);
                        lemma_dget_at(ml, key_piece_length(), 2);
                        lemma_dget_at(ml, key_pieces(), 3);
                        lemma_dget_absent(ml, key_private());
                        lemma_dget_absent(ml, key_source());
                        lemma_dget_at(ml, key_length(), 0);
                        lemma_dget_absent(ml, key_files());
                        assert(parse_info(info_entries(i)) == Some(i));
                    },
                },
            }
        },
        ModeSpec::Multiple { files } => {
            match i.private {
                Some(p) => match i.source {
                    Some(sb) => {
                        let ml: Seq<(Seq<u8>, BValue)> = seq![
                                                (key_files(), BValue::List(files_body(files))),
                                                (key_name(), BValue::Bytes(i.name)),
                                                (key_piece_length(), BValue::Int(i.piece_length)),
                                                (key_pieces(), BValue::Bytes(i.pieces)),
                                                (key_private(), BValue::Int(p)),
                                                (key_source(), BValue::Bytes(sb))
                                            ];
                        assert(info_entries(i) =~= ml);
                        lemma_dget_at(ml, key_name(), 1);
                        lemma_dget_at(ml, key_piece_length(), 2);
                        lemma_dget_at(ml, key_pieces(), 3);
                        lemma_dget_at(ml, key_private(), 4);
                        lemma_dget_at(ml, key_source(), 5);
                        lemma_dget_at(ml, key_files(), 0);
                        lemma_dget_absent(ml, key_length());
                        lemma_parse_files_body(files);
                        assert(parse_info(info_entries(i)) == Some(i));
                    },
                    None => {
                        let ml: Seq<(Seq<u8>, BValue)> = seq![
                                                (key_files(), BValue::List(files_body(files))),
                                                (key_name(), BValue::Bytes(i.name)),
                                                (key_piece_length(), BValue::Int(i.piece_length)),
                                                (key_pieces(), BValue::Bytes(i.pieces)),
                                                (key_private(), BValue::Int(p))
                                            ];
                        assert(info_entries(i) =~= ml);
                        lemma_dget_at(ml, key_name(), 1);
                        lemma_dget_at(ml, key_piece_length(), 2);
                        lemma_dget_at(ml, key_pieces(), 3);
                        lemma_dget_at(ml, key_private(), 4);
                        lemma_dget_absent(ml, key_source());
                        lemma_dget_at(ml, key_files(), 0);
                        lemma_dget_absent(ml, key_length());
                        lemma_parse_files_body(files);
                        assert(parse_info(info_entries(i)) == Some(i));
                    },
                },
                None => match i.source {
                    Some(sb) => {
                        let ml: Seq<(Seq<u8>, BValue)> = seq![
                                                (key_files(), BValue::List(files_body(files))),
                                                (key_name(), BValue::Bytes(i.name)),
                                                (key_piece_length(), BValue::Int(i.piece_length)),
                                                (key_pieces(), BValue::Bytes(i.pieces)),
                                                (key_source(), BValue::Bytes(sb))
                                            ];
                        assert(info_entries(i) =~= ml);
                        lemma_dget_at(ml, key_name(), 1);
                        lemma_dget_at(ml, key_piece_length(), 2);
                        lemma_dget_at(ml, key_pieces(), 3);
                        lemma_dget_absent(ml, key_private());
                        lemma_dget_at(ml, key_source(), 4);
                        lemma_dget_at(ml, key_files(), 0);
                        lemma_dget_absent(ml, key_length());
                        lemma_parse_files_body(files);
                        assert(parse_info(info_entries(i)) == Some(i));
                    },
                    None => {
                        let ml: Seq<(Seq<u8>, BValue)> = seq![
                                                (key_files(), BValue::List(files_body(files))),
                                                (key_name(), BValue::Bytes(i.name)),
                                                (key_piece_length(), BValue::Int(i.piece_length)),
                                                (key_pieces(), BValue::Bytes(i.pieces))
                                            ];
                        assert(info_entries(i) =~= ml);
                        lemma_dget_at(ml, key_name(), 1);
                        lemma_dget_at(ml, key_piece_length(), 2);
                        lemma_dget_at(ml, key_pieces(), 3);
                        lemma_dget_absent(ml, key_private());
                        lemma_dget_absent(ml, key_source());
                        lemma_dget_at(ml, key_files(), 0);
                        lemma_dget_absent(ml, key_length());
                        lemma_parse_files_body(files);
                        assert(parse_info(info_entries(i)) == Some(i));
                    },
                },
            }
        },
    }
}


/// Parsing the serialized form of a valid document gives the document
/// back: serialization and parsing are inverse.
pub proof fn lemma_serialize_parse(m: MetainfoSpec)
    requires
        valid_spec(m),
        m.info.piece_length >= 1,
    ensures
        parse_spec(value_spec(m)) == Some(m),
{
    assert(key_announce().len() == 8);
    assert(key_announce_list().len() == 13);
    assert(key_comment().len() == 7);
    assert(key_creation_date().len() == 13);
    assert(key_info().len() == 4);
    assert(key_announce_list()[0] == 97u8);
    assert(key_creation_date()[0] == 99u8);
    match m.announce_list {
        Some(ts) => {
            match m.comment {
                Some(c) => match m.creation_date {
                    Some(t) => {
                        let tl: Seq<(Seq<u8>, BValue)> = seq![
                                                (key_announce(), BValue::Bytes(m.announce)),
                                                (key_announce_list(), BValue::List(tiers_body(ts))),
                                                (key_comment(), BValue::Bytes(c)),
                                                (key_creation_date(), BValue::Int(t)),
                                                (key_info(), info_value_spec(m.info))
                                            ];
                        assert(top_entries(m) =~= tl);
                        lemma_dget_at(tl, key_announce(), 0);
                        lemma_dget_at(tl, key_announce_list(), 1);
                        lemma_parse_tiers_body(ts);
                        lemma_dget_at(tl, key_comment(), 2);
                        lemma_dget_at(tl, key_creation_date(), 3);
                        lemma_dget_at(tl, key_info(), 4);
                        lemma_parse_info_body(m.info);
                        assert(parse_spec(value_spec(m)) == Some(m));
                    },
                    None => {
                        let tl: Seq<(Seq<u8>, BValue)> = seq![
                                                (key_announce(), BValue::Bytes(m.announce)),
                                                (key_announce_list(), BValue::List(tiers_body(ts))),
                                                (key_comment(), BValue::Bytes(c)),
                                                (key_info(), info_value_spec(m.info))
                                            ];
                        assert(top_entries(m) =~= tl);
                        lemma_dget_at(tl, key_announce(), 0);
                        lemma_dget_at(tl, key_announce_list(), 1);
                        lemma_parse_tiers_body(ts);
                        lemma_dget_at(tl, key_comment(), 2);
                        lemma_dget_absent(tl, key_creation_date());
                        lemma_dget_at(tl, key_info(), 3);
                        lemma_parse_info_body(m.info);
                        assert(parse_spec(value_spec(m)) == Some(m));
                    },
                },
                None => match m.creation_date {
                    Some(t) => {
                        let tl: Seq<(Seq<u8>, BValue)> = seq![
                                                (key_announce(), BValue::Bytes(m.announce)),
                                                (key_announce_list(), BValue::List(tiers_body(ts))),
                                                (key_creation_date(), BValue::Int(t)),
                                                (key_info(), info_value_spec(m.info))
                                            ];
                        assert(top_entries(m) =~= tl);
                        lemma_dget_at(tl, key_announce(), 0);
                        lemma_dget_at(tl, key_announce_list(), 1);
                        lemma_parse_tiers_body(ts);
                        lemma_dget_absent(tl, key_comment());
                        lemma_dget_at(tl, key_creation_date(), 2);
                        lemma_dget_at(tl, key_info(), 3);
                        lemma_parse_info_body(m.info);
                        assert(parse_spec(value_spec(m)) == Some(m));
                    },
                    None => {
                        let tl: Seq<(Seq<u8>, BValue)> = seq![
                                                (key_announce(), BValue::Bytes(m.announce)),
                                                (key_announce_list(), BValue::List(tiers_body(ts))),
                                                (key_info(), info_value_spec(m.info))
                                            ];
                        assert(top_entries(m) =~= tl);
                        lemma_dget_at(tl, key_announce(), 0);
                        lemma_dget_at(tl, key_announce_list(), 1);
                        lemma_parse_tiers_body(ts);
                        lemma_dget_absent(tl, key_comment());
                        lemma_dget_absent(tl, key_creation_date());
                        lemma_dget_at(tl, key_info(), 2);
                        lemma_parse_info_body(m.info);
                        assert(parse_spec(value_spec(m)) == Some(m));
                    },
                },
            }
        },
        None => {
            match m.comment {
                Some(c) => match m.creation_date {
                    Some(t) => {
                        let tl: Seq<(Seq<u8>, BValue)> = seq![
                                                (key_announce(), BValue::Bytes(m.announce)),
                                                (key_comment(), BValue::Bytes(c)),
                                                (key_creation_date(), BValue::Int(t)),
                                                (key_info(), info_value_spec(m.info))
                                            ];
                        assert(top_entries(m) =~= tl);
                        lemma_dget_at(tl, key_announce(), 0);
                        lemma_dget_absent(tl, key_announce_list());
                        lemma_dget_at(tl, key_comment(), 1);
                        lemma_dget_at(tl, key_creation_date(), 2);
                        lemma_dget_at(tl, key_info(), 3);
                        lemma_parse_info_body(m.info);
                        assert(parse_spec(value_spec(m)) == Some(m));
                    },
                    None => {
                        let tl: Seq<(Seq<u8>, BValue)> = seq![
                                                (key_announce(), BValue::Bytes(m.announce)),
                                                (key_comment(), BValue::Bytes(c)),
                                                (key_info(), info_value_spec(m.info))
                                            ];
                        assert(top_entries(m) =~= tl);
                        lemma_dget_at(tl, key_announce(), 0);
                        lemma_dget_absent(tl, key_announce_list());
                        lemma_dget_at(tl, key_comment(), 1);
                        lemma_dget_absent(tl, key_creation_date());
                        lemma_dget_at(tl, key_info(), 2);
                        lemma_parse_info_body(m.info);
                        assert(parse_spec(value_spec(m)) == Some(m));
                    },
                },
                None => match m.creation_date {
                    Some(t) => {
                        let tl: Seq<(Seq<u8>, BValue)> = seq![
                                                (key_announce(), BValue::Bytes(m.announce)),
                                                (key_creation_date(), BValue::Int(t)),
                                                (key_info(), info_value_spec(m.info))
                                            ];
                        assert(top_entries(m) =~= tl);
                        lemma_dget_at(tl, key_announce(), 0);
                        lemma_dget_absent(tl, key_announce_list());
                        lemma_dget_absent(tl, key_comment());
                        lemma_dget_at(tl, key_creation_date(), 1);
                        lemma_dget_at(tl, key_info(), 2);
                        lemma_parse_info_body(m.info);
                        assert(parse_spec(value_spec(m)) == Some(m));
                    },
                    None => {
                        let tl: Seq<(Seq<u8>, BValue)> = seq![
                                                (key_announce(), BValue::Bytes(m.announce)),
                                                (key_info(), info_value_spec(m.info))
                                            ];
                        assert(top_entries(m) =~= tl);
                        lemma_dget_at(tl, key_announce(), 0);
                        lemma_dget_absent(tl, key_announce_list());
                        lemma_dget_absent(tl, key_comment());
                        lemma_dget_absent(tl, key_creation_date());
                        lemma_dget_at(tl, key_info(), 1);
                        lemma_parse_info_body(m.info);
                        assert(parse_spec(value_spec(m)) == Some(m));
                    },
                },
            }
        },
    }
}

/// A summary built by `from_metainfo` and one built by `from_bytes`
/// from the serialized form agree completely: same document, same
/// info-hash, same size.
pub proof fn lemma_from_metainfo_agrees(m: MetainfoSpec)
    requires
        valid_spec(m),
        m.info.piece_length >= 1,
    ensures
        crate::summary::summary_spec(enc(value_spec(m))) == Some(
            crate::summary::TorrentSummarySpec {
                metainfo: m,
                infohash: sha1_of(enc(info_value_spec(m.info))),
                size: enc(value_spec(m)).len() as int,
            },
        ),
{
    lemma_value_wf(m);
    lemma_round_trip(value_spec(m));
    lemma_top_info(m);
    lemma_serialize_parse(m);
}

} // verus!
