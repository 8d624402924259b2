//! Text fragments of the summary: decimal numbers, lowercase hex,
//! calendar dates and human-scaled byte sizes, all as byte strings.
//!
//! Each renderer has a spec function that fixes its output byte for
//! byte, and an executable builder that appends exactly those bytes.

use vstd::prelude::*;

use crate::bencode::digits;

verus! {

/// Appends the decimal digits of `n`.
pub fn push_decimal(n: u128, out: &mut Vec<u8>)
    ensures
        final(out)@ == old(out)@ + digits(n as nat),
    decreases n,
{
    if n < 10 {
        out.push((48 + n) as u8);
        assert(final(out)@ =~= old(out)@ + digits(n as nat));
    } else {
        push_decimal(n / 10, out);
        out.push((48 + n % 10) as u8);
        assert(final(out)@ =~= old(out)@ + digits(n as nat));
    }
}

/// Decimal digits, zero-padded on the left to two places.
pub open spec fn pad2(n: nat) -> Seq<u8> {
    if n < 10 {
        seq![48u8] + digits(n)
    } else {
        digits(n)
    }
}

/// Appends `n` zero-padded to two places.
pub fn push_pad2(n: u64, out: &mut Vec<u8>)
    ensures
        final(out)@ == old(out)@ + pad2(n as nat),
{
    if n < 10 {
        out.push(48);
    }
    push_decimal(n as u128, out);
    assert(final(out)@ =~= old(out)@ + pad2(n as nat));
}

/// Lowercase hex digit of a value below 16.
pub open spec fn hex_digit(n: u8) -> u8 {
    if n < 10 {
        (48 + n) as u8
    } else {
        (87 + n) as u8
    }
}

/// Lowercase hex rendering: two digits for each byte, in order.
pub open spec fn hex_of(b: Seq<u8>) -> Seq<u8> {
    Seq::new(
        b.len() * 2,
        |i: int| if i % 2 == 0 {
            hex_digit(b[i / 2] / 16)
        } else {
            hex_digit(b[i / 2] % 16)
        },
    )
}

/// Appends the lowercase hex rendering of `b`.
pub fn push_hex(b: &Vec<u8>, out: &mut Vec<u8>)
    ensures
        final(out)@ == old(out)@ + hex_of(b@),
{
    let mut i: usize = 0;
    while i < b.len()
        invariant
            i <= b@.len(),
            out@ == old(out)@ + hex_of(b@).take(2 * i as int),
        decreases b@.len() - i,
    {
        let byte = b[i];
        let hi = byte / 16;
        let lo = byte % 16;
        let hd: u8 = if hi < 10 {
            48 + hi
        } else {
            87 + hi
        };
        let ld: u8 = if lo < 10 {
            48 + lo
        } else {
            87 + lo
        };
        out.push(hd);
        out.push(ld);
        proof {
            assert(hex_of(b@)[2 * i as int] == hex_digit(b@[i as int] / 16));
            assert(hex_of(b@)[2 * i as int + 1] == hex_digit(b@[i as int] % 16));
            assert(hex_of(b@).take(2 * (i + 1) as int) =~= hex_of(b@).take(2 * i as int).push(
                hd,
            ).push(ld));
        }
        i = i + 1;
    }
    proof {
        assert(hex_of(b@).take(2 * b@.len() as int) =~= hex_of(b@));
    }
}

/// Calendar date and clock time of a timestamp, as
/// `YYYY-MM-DD HH:MM:SS UTC`.  The computation is the era-based civil
/// calendar conversion on the days since the epoch; subtractions are
/// floored at zero, which no reachable input exercises.
pub open spec fn date_bytes(ts: int) -> Seq<u8> {
    let days = ts / 86400;
    let secs = ts % 86400;
    let hh = secs / 3600;
    let mm = (secs % 3600) / 60;
    let ss = secs % 60;
    let z = days + 719468;
    let era = z / 146097;
    let doe = z % 146097;
    let a1 = doe - doe / 1460 + doe / 36524;
    let a2 = if a1 >= doe / 146096 {
        a1 - doe / 146096
    } else {
        0
    };
    let yoe = a2 / 365;
    let ydays = 365 * yoe + yoe / 4 - yoe / 100;
    let doy = if doe >= ydays {
        doe - ydays
    } else {
        0
    };
    let mp = (5 * doy + 2) / 153;
    let mdays = (153 * mp + 2) / 5;
    let d = if doy >= mdays {
        doy - mdays + 1
    } else {
        1
    };
    let m = if mp < 10 {
        mp + 3
    } else {
        mp - 9
    };
    let y = if m <= 2 {
        yoe + era * 400 + 1
    } else {
        yoe + era * 400
    };
    digits(y as nat) + seq![45u8] + pad2(m as nat) + seq![45u8] + pad2(d as nat) + seq![32u8]
        + pad2(hh as nat) + seq![58u8] + pad2(mm as nat) + seq![58u8] + pad2(ss as nat) + seq![
        32u8,
        85u8,
        84u8,
        67u8,
    ]
}

/// Appends the calendar rendering of `ts`.
#[verifier::rlimit(100)]
pub fn push_date(ts: u64, out: &mut Vec<u8>)
    requires
        ts <= i64::MAX,
    ensures
        final(out)@ == old(out)@ + date_bytes(ts as int),
{
    let days = ts / 86400;
    let secs = ts % 86400;
    let hh = secs / 3600;
    let mm = (secs % 3600) / 60;
    let ss = secs % 60;
    let z = days + 719468;
    let era = z / 146097;
    let doe = z % 146097;
    let a1 = doe - doe / 1460 + doe / 36524;
    let a2 = if a1 >= doe / 146096 {
        a1 - doe / 146096
    } else {
        0
    };
    let yoe = a2 / 365;
    let ydays = 365 * yoe + yoe / 4 - yoe / 100;
    let doy = if doe >= ydays {
        doe - ydays
    } else {
        0
    };
    let mp = (5 * doy + 2) / 153;
    let mdays = (153 * mp + 2) / 5;
    let d = if doy >= mdays {
        doy - mdays + 1
    } else {
        1
    };
    let m = if mp < 10 {
        mp + 3
    } else {
        mp - 9
    };
    let y = if m <= 2 {
        yoe + era * 400 + 1
    } else {
        yoe + era * 400
    };
    push_decimal(y as u128, out);
    out.push(45);
    push_pad2(m, out);
    out.push(45);
    push_pad2(d, out);
    out.push(32);
    push_pad2(hh, out);
    out.push(58);
    push_pad2(mm, out);
    out.push(58);
    push_pad2(ss, out);
    out.push(32);
    out.push(85);
    out.push(84);
    out.push(67);
    assert(final(out)@ =~= old(out)@ + date_bytes(ts as int));
}

/// The scaled unit names, smallest first: B, KiB, MiB, GiB, TiB, PiB,
/// EiB.
pub open spec fn unit_name(k: int) -> Seq<u8> {
    if k == 0 {
        seq![66u8]
    } else if k == 1 {
        seq![75u8, 105u8, 66u8]
    } else if k == 2 {
        seq![77u8, 105u8, 66u8]
    } else if k == 3 {
        seq![71u8, 105u8, 66u8]
    } else if k == 4 {
        seq![84u8, 105u8, 66u8]
    } else if k == 5 {
        seq![80u8, 105u8, 66u8]
    } else {
        seq![69u8, 105u8, 66u8]
    }
}

/// The scale of a byte count: the largest power of 1024, up to the
/// sixth, that does not exceed it.
pub open spec fn size_scale(n: int) -> int {
    if n < 1024 {
        0
    } else if n < 1048576 {
        1
    } else if n < 1073741824 {
        2
    } else if n < 1099511627776 {
        3
    } else if n < 1125899906842624 {
        4
    } else if n < 1152921504606846976 {
        5
    } else {
        6
    }
}

/// 1024 raised to `k`.
pub open spec fn scale_unit(k: int) -> int {
    if k == 0 {
        1
    } else if k == 1 {
        1024
    } else if k == 2 {
        1048576
    } else if k == 3 {
        1073741824
    } else if k == 4 {
        1099511627776
    } else if k == 5 {
        1125899906842624
    } else {
        1152921504606846976
    }
}

/// Human-scaled byte count: the raw count below one KiB (`100 B`),
/// otherwise the scaled value with two decimal places (`1.50 MiB`).
pub open spec fn size_bytes(n: int) -> Seq<u8> {
    let k = size_scale(n);
    if k == 0 {
        digits(n as nat) + seq![32u8] + unit_name(0)
    } else {
        let u = scale_unit(k);
        let whole = n / u;
        let frac = (n % u) * 100 / u;
        digits(whole as nat) + seq![46u8] + pad2(frac as nat) + seq![32u8] + unit_name(k)
    }
}

/// Appends the human-scaled rendering of `n`.
#[verifier::rlimit(100)]
pub fn push_size(n: u128, out: &mut Vec<u8>)
    ensures
        final(out)@ == old(out)@ + size_bytes(n as int),
{
    if n < 1024 {
        push_decimal(n, out);
        out.push(32);
        out.push(66);
        assert(final(out)@ =~= old(out)@ + size_bytes(n as int));
    } else {
        let u: u128 = if n < 1048576 {
            1024
        } else if n < 1073741824 {
            1048576
        } else if n < 1099511627776 {
            1073741824
        } else if n < 1125899906842624 {
            1099511627776
        } else if n < 1152921504606846976 {
            1125899906842624
        } else {
            1152921504606846976
        };
        let whole = n / u;
        let frac = (n % u) * 100 / u;
        push_decimal(whole, out);
        out.push(46);
        proof {
            assert(((n as int) % (u as int)) * 100 / (u as int) < 100) by (nonlinear_arith)
                requires
                    (u as int) >= 1,
            ;
        }
        push_pad2(frac as u64, out);
        out.push(32);
        if n < 1048576 {
            out.push(75);
            out.push(105);
            out.push(66);
        } else if n < 1073741824 {
            out.push(77);
            out.push(105);
            out.push(66);
        } else if n < 1099511627776 {
            out.push(71);
            out.push(105);
            out.push(66);
        } else if n < 1125899906842624 {
            out.push(84);
            out.push(105);
            out.push(66);
        } else if n < 1152921504606846976 {
            out.push(80);
            out.push(105);
            out.push(66);
        } else {
            out.push(69);
            out.push(105);
            out.push(66);
        }
        assert(final(out)@ =~= old(out)@ + size_bytes(n as int));
    }
}

} // verus!
