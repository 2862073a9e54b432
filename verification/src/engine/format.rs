//! Human-readable formatting for sizes and timestamps (UTC, proleptic
//! Gregorian calendar).
use vstd::prelude::*;
use vstd::arithmetic::div_mod::lemma_fundamental_div_mod_converse;
use vstd::arithmetic::div_mod::lemma_mod_multiples_vanish;

use crate::text::{push_all, string_of};

verus! {

/// Decimal digits of `n` (no sign, no leading zeros; `0` is `"0"`).
pub open spec fn dec(n: nat) -> Seq<char>
    decreases n,
{
    if n < 10 {
        seq![digit(n)]
    } else {
        dec(n / 10) + seq![digit(n % 10)]
    }
}

pub open spec fn digit(n: nat) -> char {
    ((48 + n) as u32) as char
}

/// `n` in decimal, left-padded with zeros to at least `w` digits.
pub open spec fn pad(n: nat, w: nat) -> Seq<char> {
    let d = dec(n);
    if d.len() >= w {
        d
    } else {
        Seq::new((w - d.len()) as nat, |i: int| '0') + d
    }
}

fn digit_char(n: u64) -> (c: char)
    requires
        n < 10,
    ensures
        c == digit(n as nat),
{
    if n == 0 {
        '0'
    } else if n == 1 {
        '1'
    } else if n == 2 {
        '2'
    } else if n == 3 {
        '3'
    } else if n == 4 {
        '4'
    } else if n == 5 {
        '5'
    } else if n == 6 {
        '6'
    } else if n == 7 {
        '7'
    } else if n == 8 {
        '8'
    } else {
        '9'
    }
}

/// Decimal digits of `n`.
pub fn decimal(n: u64) -> (r: Vec<char>)
    ensures
        r@ == dec(n as nat),
    decreases n,
{
    if n < 10 {
        let mut v: Vec<char> = Vec::new();
        v.push(digit_char(n));
        assert(v@ =~= dec(n as nat));
        v
    } else {
        let mut v = decimal(n / 10);
        v.push(digit_char(n % 10));
        assert(v@ =~= dec(n as nat));
        v
    }
}

/// Decimal digits of `n`, zero-padded to `w`.
pub fn padded(n: u64, w: usize) -> (r: Vec<char>)
    ensures
        r@ == pad(n as nat, w as nat),
{
    let d = decimal(n);
    if d.len() >= w {
        d
    } else {
        let mut out: Vec<char> = Vec::new();
        let k = w - d.len();
        let mut i: usize = 0;
        while i < k
            invariant
                i <= k,
                out@ == Seq::new(i as nat, |j: int| '0'),
            decreases k - i,
        {
            out.push('0');
            assert(out@ =~= Seq::new((i + 1) as nat, |j: int| '0'));
            i = i + 1;
        }
        push_all(&mut out, d.as_slice());
        out
    }
}

/// Days since the Unix epoch to (year, month, day): the civil-from-days
/// calculation over eras of 400 years (Euclidean division throughout).
pub open spec fn civil_spec(z0: int) -> (int, int, int) {
    let z = z0 + 719_468;
    let era = z / 146_097;
    let doe = z % 146_097;
    let yoe = (doe - doe / 1460 + doe / 36_524 - doe / 146_096) / 365;
    let y = yoe + era * 400;
    let doy = doe - (365 * yoe + yoe / 4 - yoe / 100);
    let mp = (5 * doy + 2) / 153;
    let d = doy - (153 * mp + 2) / 5 + 1;
    let m = if mp < 10 {
        mp + 3
    } else {
        mp - 9
    };
    (if m <= 2 {
        y + 1
    } else {
        y
    }, m, d)
}

/// Days since the Unix epoch → (year, month, day). Handles pre-epoch dates.
pub fn civil_from_days(z: i64) -> (r: (i64, u32, u32))
    requires
        z <= i64::MAX - 719_468,
    ensures
        r.0 as int == civil_spec(z as int).0,
        r.1 as int == civil_spec(z as int).1,
        r.2 as int == civil_spec(z as int).2,
        1 <= r.1 <= 12,
        1 <= r.2 <= 31,
{
    let zz: i64 = z + 719_468;
    let era: i64;
    let doe: i64;
    if zz >= 0 {
        era = zz / 146_097;
        doe = zz % 146_097;
        proof {
            lemma_fundamental_div_mod_converse(zz as int, 146_097, era as int, doe as int);
        }
    } else {
        let w: i64 = -(zz + 1);
        let q = w / 146_097;
        let r = w % 146_097;
        era = -q - 1;
        doe = 146_096 - r;
        proof {
            assert(w == q * 146_097 + r) by (nonlinear_arith)
                requires
                    w >= 0,
                    q == w / 146_097,
                    r == w % 146_097,
            ;
            assert(zz as int == era * 146_097 + doe);
            lemma_fundamental_div_mod_converse(zz as int, 146_097, era as int, doe as int);
        }
    }
    assert(0 <= doe < 146_097);
    let yoe: i64 = (doe - doe / 1460 + doe / 36_524 - doe / 146_096) / 365;
    assert(0 <= yoe <= 399) by (nonlinear_arith)
        requires
            0 <= doe < 146_097,
            yoe == (doe - doe / 1460 + doe / 36_524 - doe / 146_096) / 365,
    ;
    let y: i64 = yoe + era * 400;
    let doy: i64 = doe - (365 * yoe + yoe / 4 - yoe / 100);
    assert(0 <= doy <= 365) by (nonlinear_arith)
        requires
            0 <= doe < 146_097,
            yoe == (doe - doe / 1460 + doe / 36_524 - doe / 146_096) / 365,
            doy == doe - (365 * yoe + yoe / 4 - yoe / 100),
            0 <= yoe <= 399,
    ;
    let mp: i64 = (5 * doy + 2) / 153;
    let dd: i64 = doy - (153 * mp + 2) / 5 + 1;
    assert(0 <= mp <= 11 && 1 <= dd <= 31) by (nonlinear_arith)
        requires
            0 <= doy <= 365,
            mp == (5 * doy + 2) / 153,
            dd == doy - (153 * mp + 2) / 5 + 1,
    ;
    let m: i64 = if mp < 10 {
        mp + 3
    } else {
        mp - 9
    };
    let year = if m <= 2 {
        y + 1
    } else {
        y
    };
    (year, m as u32, dd as u32)
}

pub open spec fn dash() -> Seq<char> {
    seq!['-']
}

/// `"YYYY-MM-DD HH:MM"` (UTC) for a positive Unix timestamp.
pub open spec fn time_text(ts: int) -> Seq<char> {
    let days = ts / 86400;
    let secs = ts % 86400;
    let c = civil_spec(days);
    pad(c.0 as nat, 4) + dash() + pad(c.1 as nat, 2) + dash() + pad(c.2 as nat, 2) + seq![' ']
        + pad((secs / 3600) as nat, 2) + seq![':'] + pad(((secs % 3600) / 60) as nat, 2)
}

/// `"2026-07-18 12:11"` (UTC) for a Unix timestamp; empty for `ts <= 0`.
pub fn format_time(ts: i64) -> (r: String)
    ensures
        ts <= 0 ==> r@ == Seq::<char>::empty(),
        ts > 0 ==> r@ == time_text(ts as int),
{
    if ts <= 0 {
        let e: Vec<char> = Vec::new();
        return string_of(e.as_slice());
    }
    let days = ts / 86400;
    let secs = ts % 86400;
    let (y, m, d) = civil_from_days(days);
    proof {
        // from the epoch on, the year is at least 1970
        assert(days >= 0);
    }
    let ghost c = civil_spec(days as int);
    assert(c.0 >= 1970) by (nonlinear_arith)
        requires
            days >= 0,
            c == civil_spec(days as int),
    ;
    let mut out = padded(y as u64, 4);
    out.push('-');
    push_all(&mut out, padded(m as u64, 2).as_slice());
    out.push('-');
    push_all(&mut out, padded(d as u64, 2).as_slice());
    out.push(' ');
    push_all(&mut out, padded((secs / 3600) as u64, 2).as_slice());
    out.push(':');
    push_all(&mut out, padded(((secs % 3600) / 60) as u64, 2).as_slice());
    assert(out@ =~= time_text(ts as int));
    string_of(out.as_slice())
}

/// Tenths of `bytes / unit`, rounded to nearest with ties to even.
pub open spec fn tenths(bytes: nat, unit: nat) -> nat
    recommends
        unit > 0,
{
    let q = (bytes * 10) / unit;
    let r = (bytes * 10) % unit;
    if 2 * r > unit || (2 * r == unit && q % 2 == 1) {
        q + 1
    } else {
        q
    }
}

pub open spec fn kib() -> nat {
    1024
}

/// `"512 B"`, `"1.5 KB"`, `"2.0 MB"`, …: one decimal place above a KB.
pub open spec fn size_text(bytes: nat) -> Seq<char> {
    let kb = kib();
    let mb = kb * 1024;
    let gb = mb * 1024;
    let tb = gb * 1024;
    if bytes < kb {
        dec(bytes) + seq![' ', 'B']
    } else {
        let (unit, label) = if bytes < mb {
            (kb, seq!['K', 'B'])
        } else if bytes < gb {
            (mb, seq!['M', 'B'])
        } else if bytes < tb {
            (gb, seq!['G', 'B'])
        } else {
            (tb, seq!['T', 'B'])
        };
        let t = tenths(bytes, unit);
        dec(t / 10) + seq!['.'] + dec(t % 10) + seq![' '] + label
    }
}

/// `"512 B"`, `"1.5 KB"`, `"2.0 MB"`, …
pub fn format_size(bytes: u64) -> (r: String)
    ensures
        r@ == size_text(bytes as nat),
{
    let kb: u64 = 1024;
    let mb: u64 = kb * 1024;
    let gb: u64 = mb * 1024;
    let tb: u64 = gb * 1024;
    if bytes < kb {
        let mut out = decimal(bytes);
        out.push(' ');
        out.push('B');
        assert(out@ =~= size_text(bytes as nat));
        return string_of(out.as_slice());
    }
    let (unit, l0): (u64, char) = if bytes < mb {
        (kb, 'K')
    } else if bytes < gb {
        (mb, 'M')
    } else if bytes < tb {
        (gb, 'G')
    } else {
        (tb, 'T')
    };
    let x: u128 = (bytes as u128) * 10;
    let q: u128 = x / (unit as u128);
    let r: u128 = x % (unit as u128);
    let t: u128 = if 2 * r > unit as u128 || (2 * r == unit as u128 && q % 2 == 1) {
        q + 1
    } else {
        q
    };
    assert(t == tenths(bytes as nat, unit as nat));
    assert(t / 10 <= u64::MAX) by (nonlinear_arith)
        requires
            t <= q + 1,
            q == x / (unit as u128),
            x == (bytes as u128) * 10,
            unit >= 1024,
    ;
    let mut out = decimal((t / 10) as u64);
    out.push('.');
    push_all(&mut out, decimal((t % 10) as u64).as_slice());
    out.push(' ');
    out.push(l0);
    out.push('B');
    assert(out@ =~= size_text(bytes as nat));
    string_of(out.as_slice())
}



/// A leap year of the proleptic Gregorian calendar.
pub open spec fn is_leap(y: int) -> bool {
    y % 4 == 0 && (y % 100 != 0 || y % 400 == 0)
}

/// Days in month `m` (1 to 12) of year `y`.
pub open spec fn days_in_month(y: int, m: int) -> int {
    if m == 2 {
        if is_leap(y) {
            29
        } else {
            28
        }
    } else if m == 4 || m == 6 || m == 9 || m == 11 {
        30
    } else {
        31
    }
}

/// The calendar day after `(y, m, d)`.
pub open spec fn next_day(c: (int, int, int)) -> (int, int, int) {
    let (y, m, d) = c;
    if d < days_in_month(y, m) {
        (y, m, d + 1)
    } else if m < 12 {
        (y, m + 1, 1)
    } else {
        (y + 1, 1, 1)
    }
}

/// Days before the March-based year `yoe` of an era begins.
spec fn year_start(yoe: int) -> int {
    365 * yoe + yoe / 4 - yoe / 100
}

/// Length of the March-based year `yoe` of an era: 366 when the February
/// that ends it has a leap day.
spec fn year_len(yoe: int) -> int {
    if (yoe + 1) % 4 == 0 && ((yoe + 1) % 100 != 0 || yoe == 399) {
        366
    } else {
        365
    }
}

spec fn year_of_era(doe: int) -> int {
    (doe - doe / 1460 + doe / 36_524 - doe / 146_096) / 365
}

/// Day of the March-based year on which month `mp` (0 for March) begins.
spec fn month_start(mp: int) -> int {
    (153 * mp + 2) / 5
}

proof fn lemma_year_of_era(doe: int)
    requires
        0 <= doe < 146_097,
    ensures
        0 <= year_of_era(doe) <= 399,
        year_start(year_of_era(doe)) <= doe < year_start(year_of_era(doe)) + year_len(year_of_era(doe)),
{
}

proof fn lemma_year_steps(a: int, b: int)
    requires
        0 <= a < b <= 399,
    ensures
        year_start(a + 1) == year_start(a) + year_len(a),
        year_start(a + 1) <= year_start(b),
{
}

proof fn lemma_leap_of_era(era: int, yoe: int)
    requires
        0 <= yoe <= 399,
    ensures
        is_leap(era * 400 + yoe + 1) <==> year_len(yoe) == 366,
{
    let k = yoe + 1;
    assert(era * 400 + k == 4 * (era * 100) + k);
    assert(era * 400 + k == 100 * (era * 4) + k);
    lemma_mod_multiples_vanish(era * 100, k, 4);
    lemma_mod_multiples_vanish(era * 4, k, 100);
    lemma_mod_multiples_vanish(era, k, 400);
}

proof fn lemma_month(doy: int, len: int)
    requires
        0 <= doy < len,
        len == 365 || len == 366,
    ensures
        0 <= (5 * doy + 2) / 153 <= 11,
        month_start((5 * doy + 2) / 153) <= doy < month_start((5 * doy + 2) / 153 + 1),
        doy == len - 1 ==> (5 * doy + 2) / 153 == 11,
{
}


/// The date of day `doe` of era `era` (the tail of [`civil_spec`]).
spec fn civil_of(era: int, doe: int) -> (int, int, int) {
    let yoe = year_of_era(doe);
    let y = yoe + era * 400;
    let doy = doe - year_start(yoe);
    let mp = (5 * doy + 2) / 153;
    let d = doy - month_start(mp) + 1;
    let m = if mp < 10 {
        mp + 3
    } else {
        mp - 9
    };
    (if m <= 2 {
        y + 1
    } else {
        y
    }, m, d)
}

/// A date whose day lies within its month.
pub open spec fn valid_date(c: (int, int, int)) -> bool {
    1 <= c.1 <= 12 && 1 <= c.2 <= days_in_month(c.0, c.1)
}

proof fn lemma_month_table(mp: int)
    requires
        0 <= mp <= 10,
    ensures
        month_start(mp + 1) - month_start(mp) == days_in_month(0, if mp < 10 { mp + 3 } else { mp - 9 }),
{
    assert(month_start(0) == 0);
    assert(month_start(1) == 31);
    assert(month_start(2) == 61);
    assert(month_start(3) == 92);
    assert(month_start(4) == 122);
    assert(month_start(5) == 153);
    assert(month_start(6) == 184);
    assert(month_start(7) == 214);
    assert(month_start(8) == 245);
    assert(month_start(9) == 275);
    assert(month_start(10) == 306);
    assert(month_start(11) == 337);
}

/// Day `doe` of era `era` is a valid date, and the day after it in the era
/// (or, after the era's last day, the first day of the next era) is the
/// next calendar day.
proof fn lemma_day_of_year(era: int, doe: int)
    requires
        0 <= doe < 146_097,
    ensures
        valid_date(civil_of(era, doe)),
        doe + 1 < 146_097 ==> civil_of(era, doe + 1) == next_day(civil_of(era, doe)),
        doe + 1 == 146_097 ==> civil_of(era + 1, 0) == next_day(civil_of(era, doe)),
{
    let yoe = year_of_era(doe);
    let doy = doe - year_start(yoe);
    let len = year_len(yoe);
    lemma_year_of_era(doe);
    lemma_month(doy, len);
    lemma_leap_of_era(era, yoe);
    let mp = (5 * doy + 2) / 153;
    if mp <= 10 {
        lemma_month_table(mp);
    }
    assert(month_start(11) == 337);
    assert(valid_date(civil_of(era, doe)));
    if doe + 1 < 146_097 {
        let yoe2 = year_of_era(doe + 1);
        lemma_year_of_era(doe + 1);
        if yoe2 > yoe {
            lemma_year_steps(yoe, yoe2);
        }
        if yoe2 < yoe {
            lemma_year_steps(yoe2, yoe);
        }
        if doy + 1 < len {
            assert(yoe2 == yoe);
            lemma_month(doy + 1, len);
            let mp2 = (5 * (doy + 1) + 2) / 153;
            assert(month_start(12) == 367);
            if mp2 <= 10 {
                lemma_month_table(mp2);
            }
            assert(civil_of(era, doe + 1) == next_day(civil_of(era, doe)));
        } else {
            assert(yoe < 399);
            lemma_year_steps(yoe, yoe + 1);
            assert(yoe2 == yoe + 1);
            assert(civil_of(era, doe + 1) == next_day(civil_of(era, doe)));
        }
    } else {
        assert(yoe == 399);
        assert(year_of_era(0) == 0);
        assert(civil_of(era + 1, 0) == next_day(civil_of(era, doe)));
    }
}


/// The calendar of [`civil_spec`]: day 0 is 1 January 1970, every day falls
/// within its month (February has 29 days in leap years only), and each day
/// number is followed by the next calendar day.
pub proof fn law_calendar(z: int)
    ensures
        civil_spec(0) == (1970int, 1int, 1int),
        valid_date(civil_spec(z)),
        civil_spec(z + 1) == next_day(civil_spec(z)),
{
    let zz = z + 719_468;
    let era = zz / 146_097;
    let doe = zz % 146_097;
    assert(civil_spec(z) == civil_of(era, doe));
    lemma_day_of_year(era, doe);
    if doe + 1 < 146_097 {
        lemma_fundamental_div_mod_converse(zz + 1, 146_097, era, doe + 1);
        assert(civil_spec(z + 1) == civil_of(era, doe + 1));
    } else {
        lemma_fundamental_div_mod_converse(zz + 1, 146_097, era + 1, 0);
        assert(civil_spec(z + 1) == civil_of(era + 1, 0));
    }
    assert(719_468int / 146_097 == 4 && 719_468int % 146_097 == 135_080);
    assert(year_of_era(135_080) == 369);
    assert(year_start(369) == 134_774);
    assert(month_start(10) == 306);
}

} // verus!
