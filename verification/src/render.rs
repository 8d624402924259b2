//! Serializing the display rows.
//!
//! Two formats, chosen by whether the output target is interactive:
//! a tab-delimited stream for machines — `label<TAB>value` per line,
//! raw byte counts, tracker groups as `label<TAB>group<TAB>url` lines
//! — and a human table with the labels padded to one column, sizes
//! human-scaled, and tracker groups as an indented outline under the
//! `Trackers` label.

use vstd::prelude::*;

use crate::bencode::digits;
use crate::rows::{rows_view, Row, RowSpec, RowValue, RowValueSpec};
use crate::text::{push_decimal, push_size, size_bytes};

verus! {

/// One tab-delimited line per URL of one group.
pub open spec fn urls_tab(label: Seq<u8>, gl: Seq<u8>, us: Seq<Seq<u8>>) -> Seq<u8>
    decreases us.len(),
{
    if us.len() == 0 {
        Seq::empty()
    } else {
        urls_tab(label, gl, us.drop_last()) + label + seq![9u8] + gl + seq![9u8] + us.last()
            + seq![10u8]
    }
}

/// The tab-delimited lines of all groups of a tracker row.
pub open spec fn groups_tab(label: Seq<u8>, gs: Seq<(Seq<u8>, Seq<Seq<u8>>)>) -> Seq<u8>
    decreases gs.len(),
{
    if gs.len() == 0 {
        Seq::empty()
    } else {
        groups_tab(label, gs.drop_last()) + urls_tab(label, gs.last().0, gs.last().1)
    }
}

/// The tab-delimited rendering of one row: `label<TAB>value`, one
/// line; byte counts are raw decimal.
pub open spec fn row_tab(r: RowSpec) -> Seq<u8> {
    match r.value {
        RowValueSpec::Text(t) => r.label + seq![9u8] + t + seq![10u8],
        RowValueSpec::Size(n) => r.label + seq![9u8] + digits(n as nat) + seq![10u8],
        RowValueSpec::Count(n) => r.label + seq![9u8] + digits(n as nat) + seq![10u8],
        RowValueSpec::Tiers(gs) => groups_tab(r.label, gs),
    }
}

/// The tab-delimited rendering of a row sequence, in order.
pub open spec fn render_tab_spec(rows: Seq<RowSpec>) -> Seq<u8>
    decreases rows.len(),
{
    if rows.len() == 0 {
        Seq::empty()
    } else {
        render_tab_spec(rows.drop_last()) + row_tab(rows.last())
    }
}

/// `n` spaces.
pub open spec fn spaces(n: nat) -> Seq<u8> {
    Seq::new(n, |i: int| 32u8)
}

/// The longest label of the rows.
pub open spec fn max_label_len(rows: Seq<RowSpec>) -> nat
    decreases rows.len(),
{
    if rows.len() == 0 {
        0
    } else if rows.last().label.len() > max_label_len(rows.drop_last()) {
        rows.last().label.len()
    } else {
        max_label_len(rows.drop_last())
    }
}

/// The human rendering of a scalar row value: text as is, byte counts
/// human-scaled, counts in decimal.
pub open spec fn value_human(v: RowValueSpec) -> Seq<u8> {
    match v {
        RowValueSpec::Text(t) => t,
        RowValueSpec::Size(n) => size_bytes(n),
        RowValueSpec::Count(n) => digits(n as nat),
        RowValueSpec::Tiers(gs) => Seq::empty(),
    }
}

/// The indented outline of the groups of a tracker row: each group
/// name two spaces in, each URL four spaces in.
pub open spec fn urls_human(us: Seq<Seq<u8>>) -> Seq<u8>
    decreases us.len(),
{
    if us.len() == 0 {
        Seq::empty()
    } else {
        urls_human(us.drop_last()) + spaces(4) + us.last() + seq![10u8]
    }
}

/// The groups of a tracker row, as an outline.
pub open spec fn groups_human(gs: Seq<(Seq<u8>, Seq<Seq<u8>>)>) -> Seq<u8>
    decreases gs.len(),
{
    if gs.len() == 0 {
        Seq::empty()
    } else {
        groups_human(gs.drop_last()) + spaces(2) + gs.last().0 + seq![10u8] + urls_human(
            gs.last().1,
        )
    }
}

/// The human rendering of one row: the label padded to the widest
/// label, two spaces, the value; a tracker row puts its groups on the
/// following lines.
pub open spec fn row_human(r: RowSpec, w: nat) -> Seq<u8> {
    let pad = if r.label.len() <= w {
        (w - r.label.len()) as nat
    } else {
        0
    };
    match r.value {
        RowValueSpec::Tiers(gs) => r.label + seq![10u8] + groups_human(gs),
        _ => r.label + spaces(pad) + seq![32u8, 32u8] + value_human(r.value) + seq![10u8],
    }
}

/// The human renderings of the rows, under one label width.
pub open spec fn rows_human(rows: Seq<RowSpec>, w: nat) -> Seq<u8>
    decreases rows.len(),
{
    if rows.len() == 0 {
        Seq::empty()
    } else {
        rows_human(rows.drop_last(), w) + row_human(rows.last(), w)
    }
}

/// The human table of a row sequence: every label padded to the
/// longest one.
pub open spec fn render_human_spec(rows: Seq<RowSpec>) -> Seq<u8> {
    rows_human(rows, max_label_len(rows))
}

/// What `render` returns for each target kind.
pub open spec fn render_spec(rows: Seq<RowSpec>, interactive: bool) -> Seq<u8> {
    if interactive {
        render_human_spec(rows)
    } else {
        render_tab_spec(rows)
    }
}

/// Appends the bytes of `b`.
fn push_all(b: &Vec<u8>, out: &mut Vec<u8>)
    ensures
        final(out)@ == old(out)@ + b@,
{
    let mut k: usize = 0;
    while k < b.len()
        invariant
            k <= b@.len(),
            out@ == old(out)@ + b@.take(k as int),
        decreases b@.len() - k,
    {
        out.push(b[k]);
        proof {
            assert(b@.take(k + 1 as int) =~= b@.take(k as int).push(b@[k as int]));
        }
        k = k + 1;
    }
    proof {
        assert(b@.take(b@.len() as int) =~= b@);
    }
}

/// Appends `n` spaces.
fn push_spaces(n: usize, out: &mut Vec<u8>)
    ensures
        final(out)@ == old(out)@ + spaces(n as nat),
{
    let mut k: usize = 0;
    while k < n
        invariant
            k <= n,
            out@ == old(out)@ + spaces(k as nat),
        decreases n - k,
    {
        out.push(32);
        proof {
            assert(spaces(((k + 1) as usize) as nat) =~= spaces(k as nat).push(32u8));
        }
        k = k + 1;
    }
}

/// Appends the tab-delimited lines of one tracker group.
fn push_urls_tab(label: &Vec<u8>, gl: &Vec<u8>, us: &Vec<Vec<u8>>, out: &mut Vec<u8>)
    ensures
        final(out)@ == old(out)@ + urls_tab(label@, gl@, crate::metainfo::urls_view(us@)),
{
    let ghost uv = crate::metainfo::urls_view(us@);
    let mut k: usize = 0;
    while k < us.len()
        invariant
            k <= us@.len(),
            uv == crate::metainfo::urls_view(us@),
            uv.len() == us@.len(),
            forall|t: int| 0 <= t < us@.len() ==> uv[t] == us@[t]@,
            out@ == old(out)@ + urls_tab(label@, gl@, uv.take(k as int)),
        decreases us@.len() - k,
    {
        proof {
            assert(uv.take(k + 1 as int).drop_last() =~= uv.take(k as int));
            assert(uv.take(k + 1 as int).last() == uv[k as int]);
        }
        push_all(label, out);
        out.push(9);
        push_all(gl, out);
        out.push(9);
        push_all(&us[k], out);
        out.push(10);
        proof {
            assert(out@ =~= old(out)@ + urls_tab(label@, gl@, uv.take(k + 1 as int)));
        }
        k = k + 1;
    }
    proof {
        assert(uv.take(us@.len() as int) =~= uv);
    }
}

/// Appends the tab-delimited rendering of one row.
fn push_row_tab(r: &Row, out: &mut Vec<u8>)
    ensures
        final(out)@ == old(out)@ + row_tab(r@),
{
    match &r.value {
        RowValue::Text(t) => {
            push_all(&r.label, out);
            out.push(9);
            push_all(t, out);
            out.push(10);
            assert(final(out)@ =~= old(out)@ + row_tab(r@));
        },
        RowValue::Size(n) => {
            push_all(&r.label, out);
            out.push(9);
            push_decimal(*n, out);
            out.push(10);
            assert(final(out)@ =~= old(out)@ + row_tab(r@));
        },
        RowValue::Count(n) => {
            push_all(&r.label, out);
            out.push(9);
            push_decimal(*n as u128, out);
            out.push(10);
            assert(final(out)@ =~= old(out)@ + row_tab(r@));
        },
        RowValue::Tiers(gs) => {
            let ghost gv = crate::rows::groups_view(gs@);
            let mut k: usize = 0;
            while k < gs.len()
                invariant
                    k <= gs@.len(),
                    gv == crate::rows::groups_view(gs@),
                    gv.len() == gs@.len(),
                    forall|t: int|
                        0 <= t < gs@.len() ==> gv[t] == (
                        gs@[t].0@,
                        crate::metainfo::urls_view(gs@[t].1@),
                        ),
                    out@ == old(out)@ + groups_tab(r.label@, gv.take(k as int)),
                decreases gs@.len() - k,
            {
                proof {
                    assert(gv.take(k + 1 as int).drop_last() =~= gv.take(k as int));
                    assert(gv.take(k + 1 as int).last() == gv[k as int]);
                }
                push_urls_tab(&r.label, &gs[k].0, &gs[k].1, out);
                k = k + 1;
            }
            proof {
                assert(gv.take(gs@.len() as int) =~= gv);
                assert(final(out)@ =~= old(out)@ + row_tab(r@));
            }
        },
    }
}

/// Appends the outline of the groups of a tracker row.
fn push_groups_human(gs: &Vec<(Vec<u8>, Vec<Vec<u8>>)>, out: &mut Vec<u8>)
    ensures
        final(out)@ == old(out)@ + groups_human(crate::rows::groups_view(gs@)),
{
    let ghost gv = crate::rows::groups_view(gs@);
    let mut k: usize = 0;
    while k < gs.len()
        invariant
            k <= gs@.len(),
            gv == crate::rows::groups_view(gs@),
            gv.len() == gs@.len(),
            forall|t: int|
                0 <= t < gs@.len() ==> gv[t] == (
                gs@[t].0@,
                crate::metainfo::urls_view(gs@[t].1@),
                ),
            out@ == old(out)@ + groups_human(gv.take(k as int)),
        decreases gs@.len() - k,
    {
        proof {
            assert(gv.take(k + 1 as int).drop_last() =~= gv.take(k as int));
            assert(gv.take(k + 1 as int).last() == gv[k as int]);
        }
        push_spaces(2, out);
        push_all(&gs[k].0, out);
        out.push(10);
        let us = &gs[k].1;
        let ghost uv = crate::metainfo::urls_view(us@);
        let mut j: usize = 0;
        while j < us.len()
            invariant
                j <= us@.len(),
                uv == crate::metainfo::urls_view(us@),
                uv.len() == us@.len(),
                forall|t: int| 0 <= t < us@.len() ==> uv[t] == us@[t]@,
                out@ == old(out)@ + groups_human(gv.take(k as int)) + spaces(2) + gs@[k as int].0@
                    + seq![10u8] + urls_human(uv.take(j as int)),
                k < gs@.len(),
                gv == crate::rows::groups_view(gs@),
            decreases us@.len() - j,
        {
            proof {
                assert(uv.take(j + 1 as int).drop_last() =~= uv.take(j as int));
                assert(uv.take(j + 1 as int).last() == uv[j as int]);
            }
            push_spaces(4, out);
            push_all(&us[j], out);
            out.push(10);
            proof {
                assert(out@ =~= old(out)@ + groups_human(gv.take(k as int)) + spaces(2) + gs@[k
                    as int].0@ + seq![10u8] + urls_human(uv.take(j + 1 as int)));
            }
            j = j + 1;
        }
        proof {
            assert(uv.take(us@.len() as int) =~= uv);
            assert(out@ =~= old(out)@ + groups_human(gv.take(k + 1 as int)));
        }
        k = k + 1;
    }
    proof {
        assert(gv.take(gs@.len() as int) =~= gv);
    }
}

/// Appends the human rendering of one row.
fn push_row_human(r: &Row, w: usize, out: &mut Vec<u8>)
    ensures
        final(out)@ == old(out)@ + row_human(r@, w as nat),
{
    match &r.value {
        RowValue::Tiers(gs) => {
            push_all(&r.label, out);
            out.push(10);
            push_groups_human(gs, out);
            assert(final(out)@ =~= old(out)@ + row_human(r@, w as nat));
        },
        RowValue::Text(t) => {
            push_all(&r.label, out);
            let pad: usize = if r.label.len() <= w {
                w - r.label.len()
            } else {
                0
            };
            push_spaces(pad, out);
            out.push(32);
            out.push(32);
            push_all(t, out);
            out.push(10);
            assert(final(out)@ =~= old(out)@ + row_human(r@, w as nat));
        },
        RowValue::Size(n) => {
            push_all(&r.label, out);
            let pad: usize = if r.label.len() <= w {
                w - r.label.len()
            } else {
                0
            };
            push_spaces(pad, out);
            out.push(32);
            out.push(32);
            push_size(*n, out);
            out.push(10);
            assert(final(out)@ =~= old(out)@ + row_human(r@, w as nat));
        },
        RowValue::Count(n) => {
            push_all(&r.label, out);
            let pad: usize = if r.label.len() <= w {
                w - r.label.len()
            } else {
                0
            };
            push_spaces(pad, out);
            out.push(32);
            out.push(32);
            push_decimal(*n as u128, out);
            out.push(10);
            assert(final(out)@ =~= old(out)@ + row_human(r@, w as nat));
        },
    }
}

/// Serializes the rows: a human-aligned table for an interactive
/// target, a tab-delimited stream otherwise.
pub fn render(rows: &Vec<Row>, interactive: bool) -> (r: Vec<u8>)
    ensures
        r@ == render_spec(rows_view(rows@), interactive),
{
    let ghost rv = rows_view(rows@);
    proof {
        assert(rv.len() == rows@.len());
        assert forall|t: int| 0 <= t < rows@.len() implies rv[t] == rows@[t]@ by {
        }
    }
    let mut out: Vec<u8> = Vec::new();
    if interactive {
        let mut w: usize = 0;
        let mut i: usize = 0;
        while i < rows.len()
            invariant
                i <= rows@.len(),
                rv == rows_view(rows@),
                rv.len() == rows@.len(),
                forall|t: int| 0 <= t < rows@.len() ==> rv[t] == rows@[t]@,
                w as nat == max_label_len(rv.take(i as int)),
                w <= usize::MAX,
            decreases rows@.len() - i,
        {
            proof {
                assert(rv.take(i + 1 as int).drop_last() =~= rv.take(i as int));
                assert(rv.take(i + 1 as int).last() == rv[i as int]);
            }
            if rows[i].label.len() > w {
                w = rows[i].label.len();
            }
            i = i + 1;
        }
        proof {
            assert(rv.take(rows@.len() as int) =~= rv);
        }
        let mut i: usize = 0;
        while i < rows.len()
            invariant
                i <= rows@.len(),
                rv == rows_view(rows@),
                rv.len() == rows@.len(),
                forall|t: int| 0 <= t < rows@.len() ==> rv[t] == rows@[t]@,
                w as nat == max_label_len(rv),
                out@ == rows_human(rv.take(i as int), w as nat),
            decreases rows@.len() - i,
        {
            proof {
                assert(rv.take(i + 1 as int).drop_last() =~= rv.take(i as int));
                assert(rv.take(i + 1 as int).last() == rv[i as int]);
            }
            push_row_human(&rows[i], w, &mut out);
            i = i + 1;
        }
        proof {
            assert(rv.take(rows@.len() as int) =~= rv);
        }
    } else {
        let mut i: usize = 0;
        while i < rows.len()
            invariant
                i <= rows@.len(),
                rv == rows_view(rows@),
                rv.len() == rows@.len(),
                forall|t: int| 0 <= t < rows@.len() ==> rv[t] == rows@[t]@,
                out@ == render_tab_spec(rv.take(i as int)),
            decreases rows@.len() - i,
        {
            proof {
                assert(rv.take(i + 1 as int).drop_last() =~= rv.take(i as int));
                assert(rv.take(i + 1 as int).last() == rv[i as int]);
            }
            push_row_tab(&rows[i], &mut out);
            i = i + 1;
        }
        proof {
            assert(rv.take(rows@.len() as int) =~= rv);
        }
    }
    out
}

} // verus!
