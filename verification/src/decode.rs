//! Bencode decoder.
//!
//! `dec_at` is the mathematical parser: it says, for every byte buffer
//! and start position, which value (if any) begins there and where it
//! ends.  The executable parser returns exactly what `dec_at` says.
//!
//! The decoder is lenient in two documented ways: bytes after a
//! complete top-level value are ignored (only the first value is
//! required), and non-canonical digit runs (leading zeros, `-0`) are
//! accepted.  Integers must fit the 64-bit signed range; byte-string
//! lengths must not run past the end of the input.

use vstd::prelude::*;

use crate::bencode::{BValue, Value, view_dict, view_list, lemma_view_dict, lemma_view_list};

verus! {

/// Index of the first byte at or after `i` that is not an ASCII digit.
pub open spec fn digits_end(s: Seq<u8>, i: int) -> int
    decreases s.len() - i,
        when 0 <= i <= s.len()
{
    if i < s.len() && 48 <= s[i] <= 57 {
        digits_end(s, i + 1)
    } else {
        i
    }
}

/// Numeric value of a run of ASCII digits, most significant first.
pub open spec fn val_of(ds: Seq<u8>) -> nat
    decreases ds.len(),
{
    if ds.len() == 0 {
        0
    } else {
        val_of(ds.drop_last()) * 10 + (if 48 <= ds.last() <= 57 {
            (ds.last() - 48) as nat
        } else {
            0
        })
    }
}

/// Byte-string beginning at `i`: `<decimal length>:<bytes>`.
pub open spec fn dec_bytes(s: Seq<u8>, i: int) -> Option<(Seq<u8>, int)> {
    if !(0 <= i < s.len()) {
        None
    } else {
        let j = digits_end(s, i);
        if j == i {
            None
        } else if j >= s.len() || s[j] != 58 {
            None
        } else {
            let l = val_of(s.subrange(i, j)) as int;
            if j + 1 + l > s.len() {
                None
            } else {
                Some((s.subrange(j + 1, j + 1 + l), j + 1 + l))
            }
        }
    }
}

/// Value beginning at position `i`, with the position just past it.
pub open spec fn dec_at(s: Seq<u8>, i: int) -> Option<(BValue, int)>
    decreases s.len() - i, 0int,
        when 0 <= i <= s.len()
{
    if i >= s.len() {
        None
    } else if s[i] == 105 {
        let start = if i + 1 < s.len() && s[i + 1] == 45 {
            i + 2
        } else {
            i + 1
        };
        let j = digits_end(s, start);
        if j == start {
            None
        } else if j >= s.len() || s[j] != 101 {
            None
        } else {
            let m = val_of(s.subrange(start, j)) as int;
            let n = if start == i + 2 {
                -m
            } else {
                m
            };
            if n < i64::MIN || n > i64::MAX {
                None
            } else {
                Some((BValue::Int(n), j + 1))
            }
        }
    } else if 48 <= s[i] <= 57 {
        match dec_bytes(s, i) {
            Some((b, j)) => Some((BValue::Bytes(b), j)),
            None => None,
        }
    } else if s[i] == 108 {
        match dec_items(s, i + 1) {
            Some((l, j)) => Some((BValue::List(l), j)),
            None => None,
        }
    } else if s[i] == 100 {
        match dec_pairs(s, i + 1) {
            Some((d, j)) => Some((BValue::Dict(d), j)),
            None => None,
        }
    } else {
        None
    }
}

/// List body beginning at `i`: values until a terminating `e`.
pub open spec fn dec_items(s: Seq<u8>, i: int) -> Option<(Seq<BValue>, int)>
    decreases s.len() - i, 1int,
        when 0 <= i <= s.len()
{
    if i >= s.len() {
        None
    } else if s[i] == 101 {
        Some((Seq::empty(), i + 1))
    } else {
        match dec_at(s, i) {
            None => None,
            Some((v, j)) => if !(i < j <= s.len()) {
                None
            } else {
                match dec_items(s, j) {
                    None => None,
                    Some((l, k)) => Some((seq![v] + l, k)),
                }
            },
        }
    }
}

/// Dictionary body beginning at `i`: key/value pairs until `e`; every
/// key must be a byte-string.
pub open spec fn dec_pairs(s: Seq<u8>, i: int) -> Option<(Seq<(Seq<u8>, BValue)>, int)>
    decreases s.len() - i, 1int,
        when 0 <= i <= s.len()
{
    if i >= s.len() {
        None
    } else if s[i] == 101 {
        Some((Seq::empty(), i + 1))
    } else if !(48 <= s[i] <= 57) {
        None
    } else {
        match dec_bytes(s, i) {
            None => None,
            Some((k, j)) => if !(i < j <= s.len()) {
                None
            } else {
                match dec_at(s, j) {
                    None => None,
                    Some((v, m)) => if !(i < m <= s.len()) {
                        None
                    } else {
                        match dec_pairs(s, m) {
                            None => None,
                            Some((d, e)) => Some((seq![(k, v)] + d, e)),
                        }
                    },
                }
            },
        }
    }
}

/// The first complete value of the buffer; trailing bytes are ignored.
pub open spec fn decode_spec(s: Seq<u8>) -> Option<BValue> {
    match dec_at(s, 0) {
        Some((v, _)) => Some(v),
        None => None,
    }
}

/// Why a buffer failed to decode.
#[derive(Debug, Clone, Copy, PartialEq, Eq, Structural)]
pub enum DecodeError {
    /// The input ended inside a value.
    UnexpectedEnd,
    /// A byte began no value (or a dictionary key was not a byte-string).
    UnexpectedByte,
    /// An integer had no digits or no closing `e`.
    MalformedInteger,
    /// An integer does not fit the 64-bit signed range.
    IntegerOutOfRange,
    /// A byte-string length prefix was malformed or ran past the end.
    BadLengthPrefix,
}

/// `digits_end` stays in bounds, spans digits only, and stops at the
/// first non-digit.
pub proof fn lemma_digits_end(s: Seq<u8>, i: int)
    requires
        0 <= i <= s.len(),
    ensures
        i <= digits_end(s, i) <= s.len(),
        forall|k: int| i <= k < digits_end(s, i) ==> 48 <= #[trigger] s[k] <= 57,
        digits_end(s, i) < s.len() ==> !(48 <= s[digits_end(s, i)] <= 57),
    decreases s.len() - i,
{
    if i < s.len() && 48 <= s[i] <= 57 {
        lemma_digits_end(s, i + 1);
    }
}

/// Copy of `s[from..to]`.
fn copy_range(s: &[u8], from: usize, to: usize) -> (r: Vec<u8>)
    requires
        from <= to <= s@.len(),
    ensures
        r@ == s@.subrange(from as int, to as int),
{
    let mut r: Vec<u8> = Vec::new();
    let mut k = from;
    while k < to
        invariant
            from <= k <= to <= s@.len(),
            r@ == s@.subrange(from as int, k as int),
        decreases to - k,
    {
        r.push(s[k]);
        proof {
            assert(s@.subrange(from as int, k + 1 as int) =~= s@.subrange(
                from as int,
                k as int,
            ).push(s@[k as int]));
        }
        k = k + 1;
    }
    r
}

/// Scans the digit run beginning at `start`; returns its value (or
/// nothing when it exceeds `u64::MAX`) and its end position.
fn scan_digits(s: &[u8], start: usize) -> (res: (Option<u64>, usize))
    requires
        start <= s@.len(),
    ensures
        res.1 == digits_end(s@, start as int),
        start <= res.1 <= s@.len(),
        (match res.0 {
            Some(v) => v as nat == val_of(s@.subrange(start as int, res.1 as int)),
            None => val_of(s@.subrange(start as int, res.1 as int)) > u64::MAX,
        }),
{
    proof {
        lemma_digits_end(s@, start as int);
    }
    let ghost end = digits_end(s@, start as int);
    let mut idx = start;
    let mut acc: u64 = 0;
    let mut over = false;
    while idx < s.len() && 48 <= s[idx] && s[idx] <= 57
        invariant
            start <= idx <= end <= s@.len(),
            end == digits_end(s@, start as int),
            forall|k: int| start <= k < end ==> 48 <= #[trigger] s@[k] <= 57,
            end < s@.len() ==> !(48 <= s@[end] <= 57),
            !over ==> acc as nat == val_of(s@.subrange(start as int, idx as int)),
            over ==> val_of(s@.subrange(start as int, idx as int)) > u64::MAX,
        decreases s@.len() - idx,
    {
        let d = s[idx] - 48;
        proof {
            assert(s@.subrange(start as int, idx + 1 as int).drop_last() =~= s@.subrange(
                start as int,
                idx as int,
            ));
            assert(s@.subrange(start as int, idx + 1 as int).last() == s@[idx as int]);
            if idx >= end {
                assert(false);
            }
        }
        if over {
            proof {
                let prev = val_of(s@.subrange(start as int, idx as int));
                let next = val_of(s@.subrange(start as int, idx + 1 as int));
                assert(next == prev * 10 + (d as nat));
                assert(prev * 10 >= prev) by (nonlinear_arith)
                    requires
                        prev >= 0,
                ;
            }
        } else {
            if acc > (u64::MAX - (d as u64)) / 10 {
                proof {
                    let prev = val_of(s@.subrange(start as int, idx as int));
                    assert(prev * 10 + d > u64::MAX) by (nonlinear_arith)
                        requires
                            prev > (u64::MAX - d) / 10,
                            0 <= d <= 9,
                    ;
                }
                over = true;
            } else {
                proof {
                    let prev = val_of(s@.subrange(start as int, idx as int));
                    assert(prev * 10 + d <= u64::MAX) by (nonlinear_arith)
                        requires
                            prev <= (u64::MAX - d) / 10,
                            0 <= d <= 9,
                    ;
                }
                acc = acc * 10 + (d as u64);
            }
        }
        idx = idx + 1;
    }
    proof {
        assert(idx == end);
    }
    (if over { None } else { Some(acc) }, idx)
}

/// Parses the value beginning at `i`, returning exactly what `dec_at`
/// says is there.
fn parse_at(s: &[u8], i: usize) -> (r: Result<(Value, usize), DecodeError>)
    requires
        i <= s@.len(),
    ensures
        (match r {
            Ok((v, j)) => dec_at(s@, i as int) == Some((v@, j as int)) && i < j <= s@.len(),
            Err(_) => dec_at(s@, i as int) is None,
        }),
    decreases s@.len() - i, 0int,
{
    if i >= s.len() {
        return Err(DecodeError::UnexpectedEnd);
    }
    let c = s[i];
    if c == 105 {
        let neg = i + 1 < s.len() && s[i + 1] == 45;
        let start = if neg {
            i + 2
        } else {
            i + 1
        };
        let (valopt, j) = scan_digits(s, start);
        if j == start {
            return Err(DecodeError::MalformedInteger);
        }
        if j >= s.len() || s[j] != 101 {
            return Err(DecodeError::MalformedInteger);
        }
        match valopt {
            None => {
                proof {
                    assert(val_of(s@.subrange(start as int, j as int)) > i64::MAX);
                }
                Err(DecodeError::IntegerOutOfRange)
            },
            Some(m) => {
                if neg {
                    if m > 9223372036854775808u64 {
                        Err(DecodeError::IntegerOutOfRange)
                    } else {
                        let n: i64 = if m == 9223372036854775808u64 {
                            i64::MIN
                        } else {
                            -(m as i64)
                        };
                        Ok((Value::Int(n), j + 1))
                    }
                } else {
                    if m > 9223372036854775807u64 {
                        Err(DecodeError::IntegerOutOfRange)
                    } else {
                        Ok((Value::Int(m as i64), j + 1))
                    }
                }
            },
        }
    } else if 48 <= c && c <= 57 {
        let (valopt, j) = scan_digits(s, i);
        proof {
            lemma_digits_end(s@, i as int + 1);
            assert(digits_end(s@, i as int) == digits_end(s@, i as int + 1));
        }
        if j >= s.len() || s[j] != 58 {
            return Err(DecodeError::BadLengthPrefix);
        }
        match valopt {
            None => {
                proof {
                    assert(val_of(s@.subrange(i as int, j as int)) > s@.len());
                }
                Err(DecodeError::BadLengthPrefix)
            },
            Some(l) => {
                let rem = s.len() - j - 1;
                if l > rem as u64 {
                    Err(DecodeError::BadLengthPrefix)
                } else {
                    let lu = l as usize;
                    let b = copy_range(s, j + 1, j + 1 + lu);
                    Ok((Value::Bytes(b), j + 1 + lu))
                }
            },
        }
    } else if c == 108 {
        match parse_items(s, i + 1) {
            Err(e) => Err(e),
            Ok((l, j)) => Ok((Value::List(l), j)),
        }
    } else if c == 100 {
        match parse_pairs(s, i + 1) {
            Err(e) => Err(e),
            Ok((d, j)) => Ok((Value::Dict(d), j)),
        }
    } else {
        Err(DecodeError::UnexpectedByte)
    }
}

/// Parses a list body: values until the terminating `e`.
fn parse_items(s: &[u8], i: usize) -> (r: Result<(Vec<Value>, usize), DecodeError>)
    requires
        i <= s@.len(),
    ensures
        (match r {
            Ok((l, j)) => dec_items(s@, i as int) == Some((view_list(l@), j as int)) && i < j
                <= s@.len(),
            Err(_) => dec_items(s@, i as int) is None,
        }),
    decreases s@.len() - i, 1int,
{
    if i >= s.len() {
        return Err(DecodeError::UnexpectedEnd);
    }
    if s[i] == 101 {
        let l: Vec<Value> = Vec::new();
        proof {
            assert(view_list(l@) =~= Seq::<BValue>::empty());
        }
        return Ok((l, i + 1));
    }
    match parse_at(s, i) {
        Err(e) => Err(e),
        Ok((v, j)) => {
            match parse_items(s, j) {
                Err(e) => Err(e),
                Ok((mut l, k)) => {
                    let ghost tail = l@;
                    l.insert(0, v);
                    proof {
                        lemma_view_list(l@);
                        lemma_view_list(tail);
                        assert(view_list(l@) =~= seq![v@] + view_list(tail));
                    }
                    Ok((l, k))
                },
            }
        },
    }
}

/// Parses a dictionary body: byte-string keys and values until `e`.
fn parse_pairs(s: &[u8], i: usize) -> (r: Result<(Vec<(Vec<u8>, Value)>, usize), DecodeError>)
    requires
        i <= s@.len(),
    ensures
        (match r {
            Ok((d, j)) => dec_pairs(s@, i as int) == Some((view_dict(d@), j as int)) && i < j
                <= s@.len(),
            Err(_) => dec_pairs(s@, i as int) is None,
        }),
    decreases s@.len() - i, 1int,
{
    if i >= s.len() {
        return Err(DecodeError::UnexpectedEnd);
    }
    let c = s[i];
    if c == 101 {
        let d: Vec<(Vec<u8>, Value)> = Vec::new();
        proof {
            assert(view_dict(d@) =~= Seq::<(Seq<u8>, BValue)>::empty());
        }
        return Ok((d, i + 1));
    }
    if !(48 <= c && c <= 57) {
        return Err(DecodeError::UnexpectedByte);
    }
    let (valopt, j) = scan_digits(s, i);
    proof {
        lemma_digits_end(s@, i as int + 1);
        assert(digits_end(s@, i as int) == digits_end(s@, i as int + 1));
    }
    if j >= s.len() || s[j] != 58 {
        return Err(DecodeError::BadLengthPrefix);
    }
    let kend: usize = match valopt {
        None => {
            proof {
                assert(val_of(s@.subrange(i as int, j as int)) > s@.len());
            }
            return Err(DecodeError::BadLengthPrefix);
        },
        Some(l) => {
            let rem = s.len() - j - 1;
            if l > rem as u64 {
                return Err(DecodeError::BadLengthPrefix);
            }
            j + 1 + (l as usize)
        },
    };
    let key = copy_range(s, j + 1, kend);
    proof {
        assert(dec_bytes(s@, i as int) == Some((key@, kend as int)));
    }
    match parse_at(s, kend) {
        Err(e) => Err(e),
        Ok((v, m)) => {
            match parse_pairs(s, m) {
                Err(e) => Err(e),
                Ok((mut d, e)) => {
                    let ghost tail = d@;
                    d.insert(0, (key, v));
                    proof {
                        lemma_view_dict(d@);
                        lemma_view_dict(tail);
                        assert(view_dict(d@) =~= seq![(key@, v@)] + view_dict(tail));
                    }
                    Ok((d, e))
                },
            }
        },
    }
}

impl Value {
    /// Decodes the first complete bencode value of the buffer; bytes
    /// after it are ignored.  Returns an error exactly when no value
    /// begins at the first byte.
    pub fn decode(bytes: &[u8]) -> (r: Result<Value, DecodeError>)
        ensures
            (match r {
                Ok(v) => decode_spec(bytes@) == Some(v@),
                Err(_) => decode_spec(bytes@) is None,
            }),
    {
        match parse_at(bytes, 0) {
            Err(e) => Err(e),
            Ok((v, _)) => Ok(v),
        }
    }
}

} // verus!
