//! Bencode values and their canonical encoding.
//!
//! A bencode document is one of four shapes: an integer (`i42e`), a
//! byte-string (`4:spam`), a list (`l...e`) or a dictionary (`d...e`)
//! whose keys are byte-strings.  Dictionary entries keep the order in
//! which they were stored: re-encoding must reproduce the original byte
//! layout, because the info-hash is computed over those exact bytes.

use vstd::prelude::*;

verus! {

/// Mathematical model of a bencode value.
pub enum BValue {
    Int(int),
    Bytes(Seq<u8>),
    List(Seq<BValue>),
    Dict(Seq<(Seq<u8>, BValue)>),
}

/// Executable bencode value.  Integers are 64-bit signed, as the
/// metainfo data model requires; dictionaries are ordered association
/// lists so that key order survives a decode/encode round trip.
#[derive(Debug)]
pub enum Value {
    Int(i64),
    Bytes(Vec<u8>),
    List(Vec<Value>),
    Dict(Vec<(Vec<u8>, Value)>),
}

impl Value {
    /// Model of an executable value.
    pub open spec fn view(self) -> BValue
        decreases self, 2int,
    {
        match self {
            Value::Int(i) => BValue::Int(i as int),
            Value::Bytes(b) => BValue::Bytes(b@),
            Value::List(l) => {
                proof {
                    assert(decreases_to!(self => l));
                    assert(decreases_to!(l => l@));
                }
                BValue::List(view_list(l@))
            },
            Value::Dict(d) => {
                proof {
                    assert(decreases_to!(self => d));
                    assert(decreases_to!(d => d@));
                }
                BValue::Dict(view_dict(d@))
            },
        }
    }
}

/// Model of a sequence of executable values, element by element.
pub open spec fn view_list(l: Seq<Value>) -> Seq<BValue>
    decreases l, 0int,
{
    if l.len() == 0 {
        Seq::empty()
    } else {
        seq![l[0].view()] + view_list(l.drop_first())
    }
}

/// Model of a sequence of executable dictionary entries, in order.
pub open spec fn view_dict(d: Seq<(Vec<u8>, Value)>) -> Seq<(Seq<u8>, BValue)>
    decreases d, 0int,
{
    if d.len() == 0 {
        Seq::empty()
    } else {
        seq![(d[0].0@, d[0].1.view())] + view_dict(d.drop_first())
    }
}

/// Decimal digits of `n`, most significant first, no leading zeros
/// (`digits(0)` is `"0"`).
pub open spec fn digits(n: nat) -> Seq<u8>
    decreases n,
{
    if n < 10 {
        seq![(48 + n) as u8]
    } else {
        digits(n / 10) + seq![(48 + n % 10) as u8]
    }
}

/// Decimal form of a possibly negative integer.
pub open spec fn int_bytes(i: int) -> Seq<u8> {
    if i < 0 {
        seq![45u8] + digits((-i) as nat)
    } else {
        digits(i as nat)
    }
}

/// Encoding of a byte-string: decimal length, a colon, the bytes.
pub open spec fn enc_bytes(b: Seq<u8>) -> Seq<u8> {
    digits(b.len()) + seq![58u8] + b
}

/// Canonical bencode encoding of a value.
pub open spec fn enc(v: BValue) -> Seq<u8>
    decreases v, 1int,
{
    match v {
        BValue::Int(i) => seq![105u8] + int_bytes(i) + seq![101u8],
        BValue::Bytes(b) => enc_bytes(b),
        BValue::List(l) => seq![108u8] + enc_list(l) + seq![101u8],
        BValue::Dict(d) => seq![100u8] + enc_dict(d) + seq![101u8],
    }
}

/// Concatenated encodings of the elements of a list body.
pub open spec fn enc_list(l: Seq<BValue>) -> Seq<u8>
    decreases l, 0int,
{
    if l.len() == 0 {
        Seq::empty()
    } else {
        enc(l[0]) + enc_list(l.drop_first())
    }
}

/// Concatenated encodings of the entries of a dictionary body: each
/// key as a byte-string, then its value, in stored order.
pub open spec fn enc_dict(d: Seq<(Seq<u8>, BValue)>) -> Seq<u8>
    decreases d, 0int,
{
    if d.len() == 0 {
        Seq::empty()
    } else {
        enc_bytes(d[0].0) + enc(d[0].1) + enc_dict(d.drop_first())
    }
}

/// A value is well formed when every integer in it fits the 64-bit
/// signed range that the executable representation carries.
pub open spec fn wf(v: BValue) -> bool
    decreases v, 1int,
{
    match v {
        BValue::Int(i) => i64::MIN <= i <= i64::MAX,
        BValue::Bytes(b) => true,
        BValue::List(l) => wf_list(l),
        BValue::Dict(d) => wf_dict(d),
    }
}

/// Well-formedness of every element of a list body.
pub open spec fn wf_list(l: Seq<BValue>) -> bool
    decreases l, 0int,
{
    l.len() == 0 || (wf(l[0]) && wf_list(l.drop_first()))
}

/// Well-formedness of every value of a dictionary body.
pub open spec fn wf_dict(d: Seq<(Seq<u8>, BValue)>) -> bool
    decreases d, 0int,
{
    d.len() == 0 || (wf(d[0].1) && wf_dict(d.drop_first()))
}

/// Appending an element encodes as the body followed by the element.
pub proof fn lemma_enc_list_push(l: Seq<BValue>, x: BValue)
    ensures
        enc_list(l.push(x)) == enc_list(l) + enc(x),
    decreases l.len(),
{
    if l.len() == 0 {
        assert(l.push(x)[0] == x);
        assert(l.push(x).drop_first() =~= l);
        assert(enc_list(l) =~= Seq::<u8>::empty());
        assert(enc_list(l.push(x)) == enc(x) + enc_list(l));
        assert(enc(x) + enc_list(l) =~= enc_list(l) + enc(x));
    } else {
        assert(l.push(x)[0] == l[0]);
        assert(l.push(x).drop_first() =~= l.drop_first().push(x));
        lemma_enc_list_push(l.drop_first(), x);
        assert(enc_list(l.push(x)) =~= enc_list(l) + enc(x));
    }
}

/// Appending an entry encodes as the body followed by the entry.
pub proof fn lemma_enc_dict_push(d: Seq<(Seq<u8>, BValue)>, k: Seq<u8>, v: BValue)
    ensures
        enc_dict(d.push((k, v))) == enc_dict(d) + enc_bytes(k) + enc(v),
    decreases d.len(),
{
    if d.len() == 0 {
        assert(d.push((k, v))[0] == (k, v));
        assert(d.push((k, v)).drop_first() =~= d);
        assert(enc_dict(d) =~= Seq::<u8>::empty());
        assert(enc_dict(d.push((k, v))) == enc_bytes(k) + enc(v) + enc_dict(d));
        assert(enc_dict(d.push((k, v))) =~= enc_dict(d) + enc_bytes(k) + enc(v));
    } else {
        assert(d.push((k, v))[0] == d[0]);
        assert(d.push((k, v)).drop_first() =~= d.drop_first().push((k, v)));
        lemma_enc_dict_push(d.drop_first(), k, v);
        assert(enc_dict(d.push((k, v))) =~= enc_dict(d) + enc_bytes(k) + enc(v));
    }
}

/// The model of a sequence of values is its element-wise model.
pub proof fn lemma_view_list(l: Seq<Value>)
    ensures
        view_list(l).len() == l.len(),
        forall|i: int| 0 <= i < l.len() ==> view_list(l)[i] == l[i]@,
    decreases l.len(),
{
    if l.len() > 0 {
        lemma_view_list(l.drop_first());
        assert forall|i: int| 0 <= i < l.len() implies view_list(l)[i] == l[i]@ by {
            if i > 0 {
                assert(view_list(l)[i] == view_list(l.drop_first())[i - 1]);
                assert(l.drop_first()[i - 1] == l[i]);
            }
        }
    }
}

/// The model of a sequence of entries is its entry-wise model.
pub proof fn lemma_view_dict(d: Seq<(Vec<u8>, Value)>)
    ensures
        view_dict(d).len() == d.len(),
        forall|i: int| 0 <= i < d.len() ==> view_dict(d)[i] == (d[i].0@, d[i].1@),
    decreases d.len(),
{
    if d.len() > 0 {
        lemma_view_dict(d.drop_first());
        assert forall|i: int| 0 <= i < d.len() implies view_dict(d)[i] == (d[i].0@, d[i].1@) by {
            if i > 0 {
                assert(view_dict(d)[i] == view_dict(d.drop_first())[i - 1]);
                assert(d.drop_first()[i - 1] == d[i]);
            }
        }
    }
}

/// Appends the decimal digits of `n`.
fn push_digits(n: u64, out: &mut Vec<u8>)
    ensures
        final(out)@ == old(out)@ + digits(n as nat),
    decreases n,
{
    if n < 10 {
        out.push((48 + n) as u8);
        assert(out@ =~= old(out)@ + digits(n as nat));
    } else {
        push_digits(n / 10, out);
        out.push((48 + n % 10) as u8);
        assert(out@ =~= old(out)@ + digits(n as nat));
    }
}

/// Appends the decimal form of a signed integer.
fn push_int(i: i64, out: &mut Vec<u8>)
    ensures
        final(out)@ == old(out)@ + int_bytes(i as int),
{
    if i >= 0 {
        push_digits(i as u64, out);
    } else {
        out.push(45);
        let m: u64 = (-(i as i128)) as u64;
        assert(m as nat == (-(i as int)) as nat);
        push_digits(m, out);
        assert(out@ =~= old(out)@ + int_bytes(i as int));
    }
}

/// Appends the byte-string encoding of `b`.
fn push_bytes_enc(b: &Vec<u8>, out: &mut Vec<u8>)
    ensures
        final(out)@ == old(out)@ + enc_bytes(b@),
{
    push_digits(b.len() as u64, out);
    out.push(58);
    let mut i: usize = 0;
    while i < b.len()
        invariant
            i <= b.len(),
            out@ == old(out)@ + digits(b@.len()) + seq![58u8] + b@.take(i as int),
        decreases b.len() - i,
    {
        out.push(b[i]);
        proof {
            assert(b@.take(i + 1 as int) =~= b@.take(i as int).push(b@[i as int]));
        }
        i = i + 1;
    }
    assert(b@.take(b@.len() as int) =~= b@);
    assert(out@ =~= old(out)@ + enc_bytes(b@));
}

/// Appends the encoding of `v`.
fn encode_into(v: &Value, out: &mut Vec<u8>)
    ensures
        final(out)@ == old(out)@ + enc(v@),
    decreases v,
{
    match v {
        Value::Int(i) => {
            out.push(105);
            push_int(*i, out);
            out.push(101);
            assert(out@ =~= old(out)@ + enc(v@));
        },
        Value::Bytes(b) => {
            push_bytes_enc(b, out);
        },
        Value::List(l) => {
            out.push(108);
            let ghost body = view_list(l@);
            proof {
                lemma_view_list(l@);
            }
            let mut i: usize = 0;
            while i < l.len()
                invariant
                    i <= l.len(),
                    body == view_list(l@),
                    body.len() == l@.len(),
                    forall|j: int| 0 <= j < l@.len() ==> body[j] == l@[j]@,
                    out@ == old(out)@ + seq![108u8] + enc_list(body.take(i as int)),
                    v == Value::List(*l),
                decreases l.len() - i,
            {
                proof {
                    assert((*v)->List_0 == *l);
                    assert(decreases_to!(*v => (*v)->List_0));
                    assert(decreases_to!(*l => l@));
                    assert(decreases_to!(l@ => l@[i as int]));
                }
                encode_into(&l[i], out);
                proof {
                    assert(body.take(i + 1 as int) =~= body.take(i as int).push(body[i as int]));
                    lemma_enc_list_push(body.take(i as int), body[i as int]);
                }
                i = i + 1;
            }
            out.push(101);
            proof {
                assert(body.take(body.len() as int) =~= body);
                assert(out@ =~= old(out)@ + enc(v@));
            }
        },
        Value::Dict(d) => {
            out.push(100);
            let ghost body = view_dict(d@);
            proof {
                lemma_view_dict(d@);
            }
            let mut i: usize = 0;
            while i < d.len()
                invariant
                    i <= d.len(),
                    body == view_dict(d@),
                    body.len() == d@.len(),
                    forall|j: int| 0 <= j < d@.len() ==> body[j] == (d@[j].0@, d@[j].1@),
                    out@ == old(out)@ + seq![100u8] + enc_dict(body.take(i as int)),
                    v == Value::Dict(*d),
                decreases d.len() - i,
            {
                push_bytes_enc(&d[i].0, out);
                proof {
                    assert((*v)->Dict_0 == *d);
                    assert(decreases_to!(*v => (*v)->Dict_0));
                    assert(decreases_to!(*d => d@));
                    assert(decreases_to!(d@ => d@[i as int]));
                    assert(decreases_to!(d@[i as int] => d@[i as int].1));
                }
                encode_into(&d[i].1, out);
                proof {
                    assert(body.take(i + 1 as int) =~= body.take(i as int).push(body[i as int]));
                    lemma_enc_dict_push(body.take(i as int), body[i as int].0, body[i as int].1);
                    assert(out@ =~= old(out)@ + seq![100u8] + enc_dict(body.take(i + 1 as int)));
                }
                i = i + 1;
            }
            out.push(101);
            proof {
                assert(body.take(body.len() as int) =~= body);
                assert(out@ =~= old(out)@ + enc(v@));
            }
        },
    }
}

impl Value {
    /// Serializes the value into canonical bencode bytes.
    pub fn encode(&self) -> (r: Vec<u8>)
        ensures
            r@ == enc(self@),
    {
        let mut out: Vec<u8> = Vec::new();
        encode_into(self, &mut out);
        out
    }
}

} // verus!
