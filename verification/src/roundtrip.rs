//! Decoding a canonical encoding gives the value back.
//!
//! The central law: for every well-formed value `v`, the decoder
//! applied to `enc(v)` returns exactly `v` and consumes exactly the
//! encoding.  The proof follows the grammar: digit runs first, then
//! byte-strings, then the three container shapes by mutual induction.

use vstd::prelude::*;

use crate::bencode::{digits, enc, enc_bytes, enc_dict, enc_list, wf, wf_dict, wf_list, BValue};
use crate::decode::{dec_at, dec_bytes, dec_items, dec_pairs, decode_spec, digits_end, val_of};

verus! {

/// Every byte of a decimal rendering is an ASCII digit, and there is
/// at least one.
pub proof fn lemma_digits_shape(n: nat)
    ensures
        digits(n).len() >= 1,
        forall|k: int| 0 <= k < digits(n).len() ==> 48 <= #[trigger] digits(n)[k] <= 57,
    decreases n,
{
    if n >= 10 {
        lemma_digits_shape(n / 10);
    }
}

/// Reading a decimal rendering back gives the number.
pub proof fn lemma_val_of_digits(n: nat)
    ensures
        val_of(digits(n)) == n,
    decreases n,
{
    if n < 10 {
        assert(digits(n).drop_last() =~= Seq::<u8>::empty());
        assert(val_of(Seq::<u8>::empty()) == 0);
        assert(digits(n).last() == (48 + n) as u8);
    } else {
        lemma_val_of_digits(n / 10);
        assert(digits(n).drop_last() =~= digits(n / 10));
        assert(digits(n).last() == (48 + n % 10) as u8);
        assert(val_of(digits(n)) == (n / 10) * 10 + n % 10);
        assert((n / 10) * 10 + n % 10 == n) by (nonlinear_arith);
    }
}

/// A digit run of known extent fixes where `digits_end` stops.
pub proof fn lemma_digits_end_run(s: Seq<u8>, i: int, k: int)
    requires
        0 <= i <= k <= s.len(),
        forall|t: int| i <= t < k ==> 48 <= #[trigger] s[t] <= 57,
        k == s.len() || !(48 <= s[k] <= 57),
    ensures
        digits_end(s, i) == k,
    decreases k - i,
{
    if i < k {
        lemma_digits_end_run(s, i + 1, k);
    }
}

/// Decoding a byte-string encoding embedded at `i` yields the bytes.
pub proof fn lemma_dec_enc_bytes(b: Seq<u8>, s: Seq<u8>, i: int)
    requires
        0 <= i,
        i + enc_bytes(b).len() <= s.len(),
        s.subrange(i, i + enc_bytes(b).len() as int) == enc_bytes(b),
    ensures
        dec_bytes(s, i) == Some((b, i + enc_bytes(b).len() as int)),
{
    let ds = digits(b.len());
    let dl = ds.len() as int;
    let el = enc_bytes(b).len() as int;
    lemma_digits_shape(b.len());
    lemma_val_of_digits(b.len());
    assert forall|t: int| 0 <= t < el implies #[trigger] enc_bytes(b)[t] == s[i + t] by {
        assert(s.subrange(i, i + el)[t] == s[i + t]);
    }
    assert forall|t: int| i <= t < i + dl implies 48 <= #[trigger] s[t] <= 57 by {
        assert(s[t] == enc_bytes(b)[t - i]);
        assert(enc_bytes(b)[t - i] == ds[t - i]);
    }
    assert(s[i + dl] == enc_bytes(b)[dl]);
    assert(enc_bytes(b)[dl] == 58);
    lemma_digits_end_run(s, i, i + dl);
    assert forall|t: int| 0 <= t < dl implies s.subrange(i, i + dl)[t] == ds[t] by {
        assert(enc_bytes(b)[t] == s[i + t]);
        assert(enc_bytes(b)[t] == ds[t]);
    }
    assert(s.subrange(i, i + dl) =~= ds);
    assert(val_of(s.subrange(i, i + dl)) == b.len());
    assert forall|t: int|
        0 <= t < b.len() implies s.subrange(i + dl + 1, i + dl + 1 + b.len() as int)[t] == b[t] by {
        assert(enc_bytes(b)[dl + 1 + t] == s[i + dl + 1 + t]);
        assert(enc_bytes(b)[dl + 1 + t] == b[t]);
    }
    assert(s.subrange(i + dl + 1, i + dl + 1 + b.len()) =~= b);
}

/// The first byte of an encoding: never the terminator `e`, and it
/// selects the branch the decoder takes.
pub proof fn lemma_enc_shape(v: BValue)
    ensures
        enc(v).len() >= 1,
        v is Int ==> enc(v)[0] == 105,
        v is Bytes ==> 48 <= enc(v)[0] <= 57,
        v is List ==> enc(v)[0] == 108,
        v is Dict ==> enc(v)[0] == 100,
{
    match v {
        BValue::Int(n) => {
        },
        BValue::Bytes(b) => {
            lemma_digits_shape(b.len());
            assert(enc(v)[0] == digits(b.len())[0]);
        },
        BValue::List(l) => {
        },
        BValue::Dict(d) => {
        },
    }
}

/// Decoding an integer encoding embedded at `i` yields the integer.
proof fn lemma_dec_enc_int(n: int, s: Seq<u8>, i: int)
    requires
        i64::MIN <= n <= i64::MAX,
        0 <= i,
        i + enc(BValue::Int(n)).len() <= s.len(),
        s.subrange(i, i + enc(BValue::Int(n)).len() as int) == enc(BValue::Int(n)),
    ensures
        dec_at(s, i) == Some((BValue::Int(n), i + enc(BValue::Int(n)).len() as int)),
{
    let e = enc(BValue::Int(n));
    let el = e.len() as int;
    let m = if n < 0 {
        (-n) as nat
    } else {
        n as nat
    };
    let ds = digits(m);
    let dl = ds.len() as int;
    let start = if n < 0 {
        i + 2
    } else {
        i + 1
    };
    lemma_digits_shape(m);
    lemma_val_of_digits(m);
    assert(s[i] == e[0]);
    if n < 0 {
        assert(s[i + 1] == e[1]);
        assert(e[1] == 45);
    } else {
        assert(s[i + 1] == e[1]);
        assert(e[1] == ds[0]);
        assert(s[i + 1] != 45);
    }
    assert forall|t: int| start <= t < start + dl implies 48 <= #[trigger] s[t] <= 57 by {
        assert(s[t] == e[t - i]);
        assert(e[t - i] == ds[t - (start - i) - i]);
    }
    assert(s[start + dl] == e[start + dl - i]);
    assert(e[start + dl - i] == 101);
    lemma_digits_end_run(s, start, start + dl);
    assert forall|t: int| 0 <= t < dl implies s.subrange(start, start + dl)[t] == ds[t] by {
        assert(e[start - i + t] == s[start + t]);
        assert(e[start - i + t] == ds[t]);
    }
    assert(s.subrange(start, start + dl) =~= ds);
    assert(val_of(s.subrange(start, start + dl)) == m);
    assert(start + dl + 1 == i + el);
}

/// Decoding an encoding embedded at `i` yields the encoded value and
/// consumes exactly the encoding.
pub proof fn lemma_dec_enc(v: BValue, s: Seq<u8>, i: int)
    requires
        wf(v),
        0 <= i,
        i + enc(v).len() <= s.len(),
        s.subrange(i, i + enc(v).len() as int) == enc(v),
    ensures
        dec_at(s, i) == Some((v, i + enc(v).len() as int)),
    decreases v, 1int,
{
    let e = enc(v);
    let el = e.len() as int;
    lemma_enc_shape(v);
    assert(s[i] == e[0]);
    match v {
        BValue::Int(n) => {
            lemma_dec_enc_int(n, s, i);
        },
        BValue::Bytes(b) => {
            lemma_dec_enc_bytes(b, s, i);
        },
        BValue::List(l) => {
            let bl = enc_list(l).len() as int;
            assert forall|t: int| 0 <= t < el implies #[trigger] e[t] == s[i + t] by {
                assert(s.subrange(i, i + el)[t] == s[i + t]);
            }
            assert forall|t: int|
                0 <= t < bl implies s.subrange(i + 1, i + 1 + bl)[t] == enc_list(l)[t] by {
                assert(e[1 + t] == s[i + 1 + t]);
                assert(e[1 + t] == enc_list(l)[t]);
            }
            assert(s.subrange(i + 1, i + 1 + bl) =~= enc_list(l));
            assert(e[el - 1] == s[i + el - 1]);
            assert(e[el - 1] == 101);
            lemma_dec_enc_items(l, s, i + 1);
        },
        BValue::Dict(d) => {
            let bl = enc_dict(d).len() as int;
            assert forall|t: int| 0 <= t < el implies #[trigger] e[t] == s[i + t] by {
                assert(s.subrange(i, i + el)[t] == s[i + t]);
            }
            assert forall|t: int|
                0 <= t < bl implies s.subrange(i + 1, i + 1 + bl)[t] == enc_dict(d)[t] by {
                assert(e[1 + t] == s[i + 1 + t]);
                assert(e[1 + t] == enc_dict(d)[t]);
            }
            assert(s.subrange(i + 1, i + 1 + bl) =~= enc_dict(d));
            assert(e[el - 1] == s[i + el - 1]);
            assert(e[el - 1] == 101);
            lemma_dec_enc_pairs(d, s, i + 1);
        },
    }
}

/// Decoding a list body embedded at `i`, terminated by `e`, yields the
/// elements in order.
pub proof fn lemma_dec_enc_items(l: Seq<BValue>, s: Seq<u8>, i: int)
    requires
        wf_list(l),
        0 <= i,
        i + enc_list(l).len() < s.len(),
        s.subrange(i, i + enc_list(l).len() as int) == enc_list(l),
        s[i + enc_list(l).len()] == 101,
    ensures
        dec_items(s, i) == Some((l, i + enc_list(l).len() + 1)),
    decreases l, 0int,
{
    if l.len() == 0 {
        assert(s[i] == 101);
    } else {
        let h = l[0];
        let rest = l.drop_first();
        let he = enc(h);
        let hl = he.len() as int;
        lemma_enc_shape(h);
        let rl = enc_list(rest).len() as int;
        assert forall|t: int|
            0 <= t < enc_list(l).len() implies #[trigger] enc_list(l)[t] == s[i + t] by {
            assert(s.subrange(i, i + enc_list(l).len() as int)[t] == s[i + t]);
        }
        assert forall|t: int| 0 <= t < hl implies s.subrange(i, i + hl)[t] == he[t] by {
            assert(enc_list(l)[t] == s[i + t]);
            assert(enc_list(l)[t] == he[t]);
        }
        assert(s.subrange(i, i + hl) =~= he);
        assert(enc_list(l)[0] == s[i]);
        assert(s[i] == he[0]);
        assert(s[i] != 101);
        lemma_dec_enc(h, s, i);
        let j = i + hl;
        assert forall|t: int| 0 <= t < rl implies s.subrange(j, j + rl)[t] == enc_list(rest)[t] by {
            assert(enc_list(l)[hl + t] == s[i + hl + t]);
            assert(enc_list(l)[hl + t] == enc_list(rest)[t]);
        }
        assert(s.subrange(j, j + rl) =~= enc_list(rest));
        assert(s[j + enc_list(rest).len()] == 101);
        lemma_dec_enc_items(rest, s, j);
        assert(seq![h] + rest =~= l);
    }
}

/// Decoding a dictionary body embedded at `i`, terminated by `e`,
/// yields the entries in order.
pub proof fn lemma_dec_enc_pairs(d: Seq<(Seq<u8>, BValue)>, s: Seq<u8>, i: int)
    requires
        wf_dict(d),
        0 <= i,
        i + enc_dict(d).len() < s.len(),
        s.subrange(i, i + enc_dict(d).len() as int) == enc_dict(d),
        s[i + enc_dict(d).len()] == 101,
    ensures
        dec_pairs(s, i) == Some((d, i + enc_dict(d).len() + 1)),
    decreases d, 0int,
{
    if d.len() == 0 {
        assert(s[i] == 101);
    } else {
        let k = d[0].0;
        let h = d[0].1;
        let rest = d.drop_first();
        let ke = enc_bytes(k);
        let kl = ke.len() as int;
        let he = enc(h);
        let hl = he.len() as int;
        let rl = enc_dict(rest).len() as int;
        assert forall|t: int|
            0 <= t < enc_dict(d).len() implies #[trigger] enc_dict(d)[t] == s[i + t] by {
            assert(s.subrange(i, i + enc_dict(d).len() as int)[t] == s[i + t]);
        }
        lemma_digits_shape(k.len());
        assert forall|t: int| 0 <= t < kl implies s.subrange(i, i + kl)[t] == ke[t] by {
            assert(enc_dict(d)[t] == s[i + t]);
            assert(enc_dict(d)[t] == ke[t]);
        }
        assert(s.subrange(i, i + kl) =~= ke);
        assert(enc_dict(d)[0] == s[i]);
        assert(s[i] == ke[0]);
        assert(ke[0] == digits(k.len())[0]);
        assert(48 <= s[i] <= 57);
        assert(s[i] != 101);
        lemma_dec_enc_bytes(k, s, i);
        let j = i + kl;
        assert forall|t: int| 0 <= t < hl implies s.subrange(j, j + hl)[t] == he[t] by {
            assert(enc_dict(d)[kl + t] == s[i + kl + t]);
            assert(enc_dict(d)[kl + t] == he[t]);
        }
        assert(s.subrange(j, j + hl) =~= he);
        lemma_dec_enc(h, s, j);
        let m = j + hl;
        assert forall|t: int| 0 <= t < rl implies s.subrange(m, m + rl)[t] == enc_dict(rest)[t] by {
            assert(enc_dict(d)[kl + hl + t] == s[i + kl + hl + t]);
            assert(enc_dict(d)[kl + hl + t] == enc_dict(rest)[t]);
        }
        assert(s.subrange(m, m + rl) =~= enc_dict(rest));
        assert(s[m + enc_dict(rest).len()] == 101);
        lemma_dec_enc_pairs(rest, s, m);
        assert(seq![(k, h)] + rest =~= d);
    }
}

/// Round trip: decoding the canonical encoding of any well-formed
/// value gives that value back.
pub proof fn lemma_round_trip(v: BValue)
    requires
        wf(v),
    ensures
        decode_spec(enc(v)) == Some(v),
{
    let s = enc(v);
    assert(s.subrange(0, s.len() as int) =~= s);
    lemma_dec_enc(v, s, 0);
}

} // verus!
