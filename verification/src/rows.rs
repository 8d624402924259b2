//! The ordered display rows of a torrent summary.
//!
//! `rows_spec` fixes the exact row sequence of a summary: Name, the
//! optional Comment / Created / Source rows, Info Hash as lowercase
//! hex, the sizes, the Private flag, the tracker rows, Piece Size,
//! Piece Count and File Count, in that order.  Tracker rows are one
//! `Tracker` row when there is no announce-list, else one labeled
//! group per tier (`Tier 1`, `Tier 2`, ...) with a synthetic `Main`
//! group for the primary announce URL only when no tier already
//! contains it.

use vstd::prelude::*;

use crate::bencode::digits;
use crate::metainfo::{copy_bytes, bytes_eq, urls_view, tiers_view, files_view, FileEntrySpec, Mode, ModeSpec};
use crate::summary::{TorrentSummary, TorrentSummarySpec};
use crate::text::{date_bytes, hex_of, push_date, push_decimal, push_hex};

verus! {

/// The text `Name`.
pub open spec fn lbl_name() -> Seq<u8> {
    seq![78u8, 97u8, 109u8, 101u8]
}

/// `Name` as bytes.
pub fn lb_name() -> (r: Vec<u8>)
    ensures
        r@ == lbl_name(),
{
    let r: Vec<u8> = vec![78u8, 97u8, 109u8, 101u8];
    proof {
        assert(r@ =~= lbl_name());
    }
    r
}

/// The text `Comment`.
pub open spec fn lbl_comment() -> Seq<u8> {
    seq![67u8, 111u8, 109u8, 109u8, 101u8, 110u8, 116u8]
}

/// `Comment` as bytes.
pub fn lb_comment() -> (r: Vec<u8>)
    ensures
        r@ == lbl_comment(),
{
    let r: Vec<u8> = vec![67u8, 111u8, 109u8, 109u8, 101u8, 110u8, 116u8];
    proof {
        assert(r@ =~= lbl_comment());
    }
    r
}

/// The text `Created`.
pub open spec fn lbl_created() -> Seq<u8> {
    seq![67u8, 114u8, 101u8, 97u8, 116u8, 101u8, 100u8]
}

/// `Created` as bytes.
pub fn lb_created() -> (r: Vec<u8>)
    ensures
        r@ == lbl_created(),
{
    let r: Vec<u8> = vec![67u8, 114u8, 101u8, 97u8, 116u8, 101u8, 100u8];
    proof {
        assert(r@ =~= lbl_created());
    }
    r
}

/// The text `Source`.
pub open spec fn lbl_source() -> Seq<u8> {
    seq![83u8, 111u8, 117u8, 114u8, 99u8, 101u8]
}

/// `Source` as bytes.
pub fn lb_source() -> (r: Vec<u8>)
    ensures
        r@ == lbl_source(),
{
    let r: Vec<u8> = vec![83u8, 111u8, 117u8, 114u8, 99u8, 101u8];
    proof {
        assert(r@ =~= lbl_source());
    }
    r
}

/// The text `Info Hash`.
pub open spec fn lbl_info_hash() -> Seq<u8> {
    seq![73u8, 110u8, 102u8, 111u8, 32u8, 72u8, 97u8, 115u8, 104u8]
}

/// `Info Hash` as bytes.
pub fn lb_info_hash() -> (r: Vec<u8>)
    ensures
        r@ == lbl_info_hash(),
{
    let r: Vec<u8> = vec![73u8, 110u8, 102u8, 111u8, 32u8, 72u8, 97u8, 115u8, 104u8];
    proof {
        assert(r@ =~= lbl_info_hash());
    }
    r
}

/// The text `Torrent Size`.
pub open spec fn lbl_torrent_size() -> Seq<u8> {
    seq![84u8, 111u8, 114u8, 114u8, 101u8, 110u8, 116u8, 32u8, 83u8, 105u8, 122u8, 101u8]
}

/// `Torrent Size` as bytes.
pub fn lb_torrent_size() -> (r: Vec<u8>)
    ensures
        r@ == lbl_torrent_size(),
{
    let r: Vec<u8> = vec![84u8, 111u8, 114u8, 114u8, 101u8, 110u8, 116u8, 32u8, 83u8, 105u8, 122u8, 101u8];
    proof {
        assert(r@ =~= lbl_torrent_size());
    }
    r
}

/// The text `Content Size`.
pub open spec fn lbl_content_size() -> Seq<u8> {
    seq![67u8, 111u8, 110u8, 116u8, 101u8, 110u8, 116u8, 32u8, 83u8, 105u8, 122u8, 101u8]
}

/// `Content Size` as bytes.
pub fn lb_content_size() -> (r: Vec<u8>)
    ensures
        r@ == lbl_content_size(),
{
    let r: Vec<u8> = vec![67u8, 111u8, 110u8, 116u8, 101u8, 110u8, 116u8, 32u8, 83u8, 105u8, 122u8, 101u8];
    proof {
        assert(r@ =~= lbl_content_size());
    }
    r
}

/// The text `Private`.
pub open spec fn lbl_private() -> Seq<u8> {
    seq![80u8, 114u8, 105u8, 118u8, 97u8, 116u8, 101u8]
}

/// `Private` as bytes.
pub fn lb_private() -> (r: Vec<u8>)
    ensures
        r@ == lbl_private(),
{
    let r: Vec<u8> = vec![80u8, 114u8, 105u8, 118u8, 97u8, 116u8, 101u8];
    proof {
        assert(r@ =~= lbl_private());
    }
    r
}

/// The text `Trackers`.
pub open spec fn lbl_trackers() -> Seq<u8> {
    seq![84u8, 114u8, 97u8, 99u8, 107u8, 101u8, 114u8, 115u8]
}

/// `Trackers` as bytes.
pub fn lb_trackers() -> (r: Vec<u8>)
    ensures
        r@ == lbl_trackers(),
{
    let r: Vec<u8> = vec![84u8, 114u8, 97u8, 99u8, 107u8, 101u8, 114u8, 115u8];
    proof {
        assert(r@ =~= lbl_trackers());
    }
    r
}

/// The text `Tracker`.
pub open spec fn lbl_tracker() -> Seq<u8> {
    seq![84u8, 114u8, 97u8, 99u8, 107u8, 101u8, 114u8]
}

/// `Tracker` as bytes.
pub fn lb_tracker() -> (r: Vec<u8>)
    ensures
        r@ == lbl_tracker(),
{
    let r: Vec<u8> = vec![84u8, 114u8, 97u8, 99u8, 107u8, 101u8, 114u8];
    proof {
        assert(r@ =~= lbl_tracker());
    }
    r
}

/// The text `Piece Size`.
pub open spec fn lbl_piece_size() -> Seq<u8> {
    seq![80u8, 105u8, 101u8, 99u8, 101u8, 32u8, 83u8, 105u8, 122u8, 101u8]
}

/// `Piece Size` as bytes.
pub fn lb_piece_size() -> (r: Vec<u8>)
    ensures
        r@ == lbl_piece_size(),
{
    let r: Vec<u8> = vec![80u8, 105u8, 101u8, 99u8, 101u8, 32u8, 83u8, 105u8, 122u8, 101u8];
    proof {
        assert(r@ =~= lbl_piece_size());
    }
    r
}

/// The text `Piece Count`.
pub open spec fn lbl_piece_count() -> Seq<u8> {
    seq![80u8, 105u8, 101u8, 99u8, 101u8, 32u8, 67u8, 111u8, 117u8, 110u8, 116u8]
}

/// `Piece Count` as bytes.
pub fn lb_piece_count() -> (r: Vec<u8>)
    ensures
        r@ == lbl_piece_count(),
{
    let r: Vec<u8> = vec![80u8, 105u8, 101u8, 99u8, 101u8, 32u8, 67u8, 111u8, 117u8, 110u8, 116u8];
    proof {
        assert(r@ =~= lbl_piece_count());
    }
    r
}

/// The text `File Count`.
pub open spec fn lbl_file_count() -> Seq<u8> {
    seq![70u8, 105u8, 108u8, 101u8, 32u8, 67u8, 111u8, 117u8, 110u8, 116u8]
}

/// `File Count` as bytes.
pub fn lb_file_count() -> (r: Vec<u8>)
    ensures
        r@ == lbl_file_count(),
{
    let r: Vec<u8> = vec![70u8, 105u8, 108u8, 101u8, 32u8, 67u8, 111u8, 117u8, 110u8, 116u8];
    proof {
        assert(r@ =~= lbl_file_count());
    }
    r
}

/// The text `Main`.
pub open spec fn lbl_main() -> Seq<u8> {
    seq![77u8, 97u8, 105u8, 110u8]
}

/// `Main` as bytes.
pub fn lb_main() -> (r: Vec<u8>)
    ensures
        r@ == lbl_main(),
{
    let r: Vec<u8> = vec![77u8, 97u8, 105u8, 110u8];
    proof {
        assert(r@ =~= lbl_main());
    }
    r
}

/// The text `Tier `.
pub open spec fn lbl_tier_prefix() -> Seq<u8> {
    seq![84u8, 105u8, 101u8, 114u8, 32u8]
}

/// `Tier ` as bytes.
pub fn lb_tier_prefix() -> (r: Vec<u8>)
    ensures
        r@ == lbl_tier_prefix(),
{
    let r: Vec<u8> = vec![84u8, 105u8, 101u8, 114u8, 32u8];
    proof {
        assert(r@ =~= lbl_tier_prefix());
    }
    r
}

/// The text `yes`.
pub open spec fn lbl_yes() -> Seq<u8> {
    seq![121u8, 101u8, 115u8]
}

/// `yes` as bytes.
pub fn lb_yes() -> (r: Vec<u8>)
    ensures
        r@ == lbl_yes(),
{
    let r: Vec<u8> = vec![121u8, 101u8, 115u8];
    proof {
        assert(r@ =~= lbl_yes());
    }
    r
}

/// The text `no`.
pub open spec fn lbl_no() -> Seq<u8> {
    seq![110u8, 111u8]
}

/// `no` as bytes.
pub fn lb_no() -> (r: Vec<u8>)
    ensures
        r@ == lbl_no(),
{
    let r: Vec<u8> = vec![110u8, 111u8];
    proof {
        assert(r@ =~= lbl_no());
    }
    r
}
/// Value of one display row.
pub enum RowValue {
    /// Already-rendered text bytes.
    Text(Vec<u8>),
    /// A byte count, scaled by the renderer.
    Size(u128),
    /// A plain number.
    Count(u64),
    /// Labeled groups of tracker URLs.
    Tiers(Vec<(Vec<u8>, Vec<Vec<u8>>)>),
}

/// One display row: a label and a value.
pub struct Row {
    pub label: Vec<u8>,
    pub value: RowValue,
}

/// Model of a row value.
pub enum RowValueSpec {
    Text(Seq<u8>),
    Size(int),
    Count(int),
    Tiers(Seq<(Seq<u8>, Seq<Seq<u8>>)>),
}

/// Model of a row.
pub struct RowSpec {
    pub label: Seq<u8>,
    pub value: RowValueSpec,
}

/// Models of a sequence of labeled URL groups.
pub open spec fn groups_view(g: Seq<(Vec<u8>, Vec<Vec<u8>>)>) -> Seq<(Seq<u8>, Seq<Seq<u8>>)> {
    Seq::new(g.len(), |i: int| (g[i].0@, urls_view(g[i].1@)))
}

impl RowValue {
    /// Model of this value.
    pub open spec fn view(self) -> RowValueSpec {
        match self {
            RowValue::Text(t) => RowValueSpec::Text(t@),
            RowValue::Size(n) => RowValueSpec::Size(n as int),
            RowValue::Count(n) => RowValueSpec::Count(n as int),
            RowValue::Tiers(g) => RowValueSpec::Tiers(groups_view(g@)),
        }
    }
}

impl Row {
    /// Model of this row.
    pub open spec fn view(self) -> RowSpec {
        RowSpec { label: self.label@, value: self.value@ }
    }
}

/// Models of a sequence of rows.
pub open spec fn rows_view(rs: Seq<Row>) -> Seq<RowSpec> {
    Seq::new(rs.len(), |i: int| rs[i]@)
}

/// The label of the 1-indexed tier `n`: `Tier n`.
pub open spec fn tier_label(n: nat) -> Seq<u8> {
    lbl_tier_prefix() + digits(n)
}

/// Whether any tier of the announce-list holds the URL.
pub open spec fn tier_contains(tiers: Seq<Seq<Seq<u8>>>, url: Seq<u8>) -> bool {
    exists|i: int, j: int|
        0 <= i < tiers.len() && 0 <= j < tiers[i].len() && tiers[i][j] == url
}

/// The tracker groups shown for an announce-list: one numbered group
/// per tier, preceded by a synthetic `Main` group holding the primary
/// announce URL only when no tier already contains that URL.
pub open spec fn tier_groups(announce: Seq<u8>, tiers: Seq<Seq<Seq<u8>>>) -> Seq<
    (Seq<u8>, Seq<Seq<u8>>),
> {
    let numbered = Seq::new(tiers.len(), |i: int| (tier_label((i + 1) as nat), tiers[i]));
    if tier_contains(tiers, announce) {
        numbered
    } else {
        seq![(lbl_main(), seq![announce])] + numbered
    }
}

/// Sum of the file lengths of a multi-file layout.
pub open spec fn sum_lengths(fs: Seq<FileEntrySpec>) -> int
    decreases fs.len(),
{
    if fs.len() == 0 {
        0
    } else {
        sum_lengths(fs.drop_last()) + fs.last().length
    }
}

/// Total content size of a layout: the single file's length, or the
/// sum over all files.
pub open spec fn total_size(m: ModeSpec) -> int {
    match m {
        ModeSpec::Single { length } => length,
        ModeSpec::Multiple { files } => sum_lengths(files),
    }
}

/// Number of files of a layout.
pub open spec fn file_count(m: ModeSpec) -> int {
    match m {
        ModeSpec::Single { length } => 1,
        ModeSpec::Multiple { files } => files.len() as int,
    }
}

/// The Private row's text: `yes` exactly when the flag equals 1,
/// `no` otherwise, also when the flag is absent.
pub open spec fn private_text(p: Option<int>) -> Seq<u8> {
    if p == Some(1int) {
        lbl_yes()
    } else {
        lbl_no()
    }
}

/// A creation timestamp clamped to the signed 64-bit range.
pub open spec fn clamp_date(t: int) -> int {
    if t > i64::MAX {
        i64::MAX as int
    } else {
        t
    }
}

/// The display rows of a summary, in their fixed order.
pub open spec fn rows_spec(s: TorrentSummarySpec) -> Seq<RowSpec> {
    let r = seq![RowSpec { label: lbl_name(), value: RowValueSpec::Text(s.metainfo.info.name) }];
    let r = match s.metainfo.comment {
        Some(c) => r.push(RowSpec { label: lbl_comment(), value: RowValueSpec::Text(c) }),
        None => r,
    };
    let r = match s.metainfo.creation_date {
        Some(t) => r.push(
            RowSpec { label: lbl_created(), value: RowValueSpec::Text(date_bytes(clamp_date(t))) },
        ),
        None => r,
    };
    let r = match s.metainfo.info.source {
        Some(src) => r.push(RowSpec { label: lbl_source(), value: RowValueSpec::Text(src) }),
        None => r,
    };
    let r = r.push(
        RowSpec { label: lbl_info_hash(), value: RowValueSpec::Text(hex_of(s.infohash)) },
    );
    let r = r.push(RowSpec { label: lbl_torrent_size(), value: RowValueSpec::Size(s.size) });
    let r = r.push(
        RowSpec {
            label: lbl_content_size(),
            value: RowValueSpec::Size(total_size(s.metainfo.info.mode)),
        },
    );
    let r = r.push(
        RowSpec {
            label: lbl_private(),
            value: RowValueSpec::Text(private_text(s.metainfo.info.private)),
        },
    );
    let r = match s.metainfo.announce_list {
        Some(tiers) => r.push(
            RowSpec {
                label: lbl_trackers(),
                value: RowValueSpec::Tiers(tier_groups(s.metainfo.announce, tiers)),
            },
        ),
        None => r.push(
            RowSpec { label: lbl_tracker(), value: RowValueSpec::Text(s.metainfo.announce) },
        ),
    };
    let r = r.push(
        RowSpec { label: lbl_piece_size(), value: RowValueSpec::Size(s.metainfo.info.piece_length) },
    );
    let r = r.push(
        RowSpec {
            label: lbl_piece_count(),
            value: RowValueSpec::Count(s.metainfo.info.pieces.len() as int / 20),
        },
    );
    r.push(RowSpec { label: lbl_file_count(), value: RowValueSpec::Count(file_count(s.metainfo.info.mode)) })
}

/// Whether any tier holds the URL, by scanning.
fn announce_in_tiers(ts: &Vec<Vec<Vec<u8>>>, a: &Vec<u8>) -> (r: bool)
    ensures
        r == tier_contains(tiers_view(ts@), a@),
{
    let ghost tv = tiers_view(ts@);
    let mut i: usize = 0;
    while i < ts.len()
        invariant
            i <= ts@.len(),
            tv == tiers_view(ts@),
            tv.len() == ts@.len(),
            forall|x: int| 0 <= x < ts@.len() ==> tv[x] == urls_view(ts@[x]@),
            forall|x: int, y: int|
                0 <= x < i && 0 <= y < tv[x].len() ==> tv[x][y] != a@,
        decreases ts@.len() - i,
    {
        let tier = &ts[i];
        let mut j: usize = 0;
        while j < tier.len()
            invariant
                i < ts@.len(),
                j <= tier@.len(),
                tv == tiers_view(ts@),
                tv.len() == ts@.len(),
                tier@ == ts@[i as int]@,
                forall|x: int| 0 <= x < ts@.len() ==> tv[x] == urls_view(ts@[x]@),
                forall|y: int| 0 <= y < j ==> tv[i as int][y] != a@,
            decreases tier@.len() - j,
        {
            if bytes_eq(&tier[j], a) {
                proof {
                    assert(tv[i as int][j as int] == a@);
                }
                return true;
            }
            j = j + 1;
        }
        i = i + 1;
    }
    false
}

/// Copy of a list of byte-strings.
fn copy_urls(u: &Vec<Vec<u8>>) -> (r: Vec<Vec<u8>>)
    ensures
        urls_view(r@) == urls_view(u@),
{
    let mut r: Vec<Vec<u8>> = Vec::new();
    let mut k: usize = 0;
    while k < u.len()
        invariant
            k <= u@.len(),
            r@.len() == k,
            forall|t: int| 0 <= t < k ==> r@[t]@ == u@[t]@,
        decreases u@.len() - k,
    {
        let c = copy_bytes(&u[k]);
        r.push(c);
        k = k + 1;
    }
    proof {
        assert(urls_view(r@) =~= urls_view(u@));
    }
    r
}

/// Builds the tracker groups of an announce-list.
fn build_groups(announce: &Vec<u8>, ts: &Vec<Vec<Vec<u8>>>) -> (r: Vec<(Vec<u8>, Vec<Vec<u8>>)>)
    ensures
        groups_view(r@) == tier_groups(announce@, tiers_view(ts@)),
{
    let ghost tv = tiers_view(ts@);
    let ghost expected = tier_groups(announce@, tv);
    let mut out: Vec<(Vec<u8>, Vec<Vec<u8>>)> = Vec::new();
    if !announce_in_tiers(ts, announce) {
        let main_urls: Vec<Vec<u8>> = vec![copy_bytes(announce)];
        out.push((lb_main(), main_urls));
        proof {
            assert(urls_view(out@[0].1@) =~= seq![announce@]);
            assert(groups_view(out@) =~= expected.take(1));
        }
    } else {
        proof {
            assert(groups_view(out@) =~= expected.take(0));
        }
    }
    let ghost offset = out@.len() as int;
    let mut i: usize = 0;
    while i < ts.len()
        invariant
            i <= ts@.len(),
            tv == tiers_view(ts@),
            tv.len() == ts@.len(),
            expected == tier_groups(announce@, tv),
            expected.len() == offset + tv.len(),
            offset == if tier_contains(tv, announce@) { 0int } else { 1int },
            forall|x: int| 0 <= x < ts@.len() ==> tv[x] == urls_view(ts@[x]@),
            forall|x: int|
                0 <= x < tv.len() ==> expected[offset + x] == (tier_label((x + 1) as nat), tv[x]),
            out@.len() == offset + i,
            groups_view(out@) == expected.take(offset + i),
        decreases ts@.len() - i,
    {
        let mut lab = lb_tier_prefix();
        push_decimal((i + 1) as u128, &mut lab);
        let urls = copy_urls(&ts[i]);
        proof {
            assert(lab@ == tier_label((i + 1) as nat));
        }
        out.push((lab, urls));
        proof {
            assert(groups_view(out@) =~= expected.take(offset + i + 1));
        }
        i = i + 1;
    }
    proof {
        assert(expected.take(offset + ts@.len() as int) =~= expected);
    }
    out
}

/// Total content size of a layout, as held by an executable document.
fn content_size(m: &Mode) -> (r: u128)
    ensures
        r as int == total_size(m@),
{
    match m {
        Mode::Single { length } => *length as u128,
        Mode::Multiple { files } => {
            let ghost fv = files_view(files@);
            let mut acc: u128 = 0;
            let mut i: usize = 0;
            while i < files.len()
                invariant
                    i <= files@.len(),
                    fv == files_view(files@),
                    fv.len() == files@.len(),
                    forall|x: int| 0 <= x < files@.len() ==> fv[x] == files@[x]@,
                    acc as int == sum_lengths(fv.take(i as int)),
                    acc as int <= (i as int) * 0xffffffffffffffffint,
                decreases files@.len() - i,
            {
                proof {
                    assert(fv.take(i + 1 as int).drop_last() =~= fv.take(i as int));
                    assert(fv.take(i + 1 as int).last() == fv[i as int]);
                    assert((i + 1 as int) * 0xffffffffffffffffint == (i as int)
                        * 0xffffffffffffffffint + 0xffffffffffffffffint) by (nonlinear_arith);
                    assert((i as int) * 0xffffffffffffffffint <= 0xffffffffffffffffint
                        * 0xffffffffffffffffint) by (nonlinear_arith)
                        requires
                            0 <= i as int <= 0xffffffffffffffffint,
                    ;
                }
                acc = acc + (files[i].length as u128);
                i = i + 1;
            }
            proof {
                assert(fv.take(files@.len() as int) =~= fv);
            }
            acc
        },
    }
}

impl TorrentSummary {
    /// The display rows of this summary, in the fixed order that
    /// `rows_spec` states.
    pub fn build_rows(&self) -> (r: Vec<Row>)
        ensures
            rows_view(r@) == rows_spec(self@),
    {
        let mut out: Vec<Row> = Vec::new();
        out.push(Row { label: lb_name(), value: RowValue::Text(copy_bytes(&self.metainfo.info.name)) });
        match &self.metainfo.comment {
            Some(c) => {
                out.push(Row { label: lb_comment(), value: RowValue::Text(copy_bytes(c)) });
            },
            None => {},
        }
        match &self.metainfo.creation_date {
            Some(t) => {
                let clamped: u64 = if *t > 9223372036854775807u64 {
                    9223372036854775807u64
                } else {
                    *t
                };
                let mut datev: Vec<u8> = Vec::new();
                push_date(clamped, &mut datev);
                proof {
                    assert(datev@ == date_bytes(clamp_date(*t as int)));
                }
                out.push(Row { label: lb_created(), value: RowValue::Text(datev) });
            },
            None => {},
        }
        match &self.metainfo.info.source {
            Some(src) => {
                out.push(Row { label: lb_source(), value: RowValue::Text(copy_bytes(src)) });
            },
            None => {},
        }
        let mut hashv: Vec<u8> = Vec::new();
        push_hex(&self.infohash, &mut hashv);
        out.push(Row { label: lb_info_hash(), value: RowValue::Text(hashv) });
        out.push(Row { label: lb_torrent_size(), value: RowValue::Size(self.size as u128) });
        let cs = content_size(&self.metainfo.info.mode);
        out.push(Row { label: lb_content_size(), value: RowValue::Size(cs) });
        let is_private = match &self.metainfo.info.private {
            Some(p) => *p == 1,
            None => false,
        };
        let ptext: Vec<u8> = if is_private {
            lb_yes()
        } else {
            lb_no()
        };
        out.push(Row { label: lb_private(), value: RowValue::Text(ptext) });
        match &self.metainfo.announce_list {
            Some(ts) => {
                let groups = build_groups(&self.metainfo.announce, ts);
                out.push(Row { label: lb_trackers(), value: RowValue::Tiers(groups) });
            },
            None => {
                out.push(
                    Row {
                        label: lb_tracker(),
                        value: RowValue::Text(copy_bytes(&self.metainfo.announce)),
                    },
                );
            },
        }
        out.push(Row { label: lb_piece_size(), value: RowValue::Size(self.metainfo.info.piece_length as u128) });
        out.push(
            Row {
                label: lb_piece_count(),
                value: RowValue::Count((self.metainfo.info.pieces.len() / 20) as u64),
            },
        );
        let fc: u64 = match &self.metainfo.info.mode {
            Mode::Single { length } => 1,
            Mode::Multiple { files } => files.len() as u64,
        };
        out.push(Row { label: lb_file_count(), value: RowValue::Count(fc) });
        proof {
            assert(rows_view(out@) =~= rows_spec(self@));
        }
        out
    }
}

/// Tracker deduplication: when some tier already holds the announce
/// URL, the groups are exactly the numbered tiers — no `Main` group;
/// when none does, a `Main` group holding exactly the announce URL
/// stands first, followed by the numbered tiers.
pub proof fn lemma_tracker_dedup(announce: Seq<u8>, tiers: Seq<Seq<Seq<u8>>>)
    ensures
        tier_contains(tiers, announce) ==> tier_groups(announce, tiers) == Seq::new(
            tiers.len(),
            |i: int| (tier_label((i + 1) as nat), tiers[i]),
        ),
        !tier_contains(tiers, announce) ==> tier_groups(announce, tiers) == seq![
            (lbl_main(), seq![announce]),
        ] + Seq::new(tiers.len(), |i: int| (tier_label((i + 1) as nat), tiers[i])),
        tier_groups(announce, tiers).len() == tiers.len() + (
        if tier_contains(tiers, announce) {
            0int
        } else {
            1int
        }),
{
}

/// Piece count: the Piece Count row divides the `pieces` length by
/// twenty, dropping any remainder, and the File Count row counts the
/// layout's files; both stand at the fixed end of the row list.
pub proof fn lemma_piece_and_file_count(s: TorrentSummarySpec)
    ensures
        rows_spec(s).len() >= 3,
        rows_spec(s)[rows_spec(s).len() - 2] == (RowSpec {
            label: lbl_piece_count(),
            value: RowValueSpec::Count(s.metainfo.info.pieces.len() as int / 20),
        }),
        rows_spec(s)[rows_spec(s).len() - 1] == (RowSpec {
            label: lbl_file_count(),
            value: RowValueSpec::Count(file_count(s.metainfo.info.mode)),
        }),
{
}

/// Private flag: the Private row reads `yes` exactly when the flag is
/// present and equals 1; an absent flag or any other value reads `no`.
pub proof fn lemma_private_flag(p: Option<int>)
    ensures
        p == Some(1int) ==> private_text(p) == lbl_yes(),
        p != Some(1int) ==> private_text(p) == lbl_no(),
{
}

} // verus!
