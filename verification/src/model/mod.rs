//! The data model: project, page, element, stroke, script, rehearsal.
//!
//! A page is only a spatial container; everything that happens in time is a
//! timeline event, and a stroke is geometry plus a timestamp per point.
pub mod asset;
pub mod element;
pub mod page;
pub mod project;
pub mod rehearsal;
pub mod script;
pub mod stroke;

use vstd::prelude::*;

use crate::text::{
    decimal, decimal_string, lemma_seq_lt_head, lemma_seq_lt_prefix, lemma_zero_padded_2, lemma_zero_padded_2_lt,
    lemma_zero_padded_4, lemma_zero_padded_4_lt, push_char, push_str, seq_lt, zero_padded, zero_padded_string,
};

verus! {

/// The schema version of `project.json`; newer files are refused.
pub const SCHEMA_VERSION: u32 = 1;

/// Seconds since the Unix epoch read from the system clock; 0 if the clock
/// is before the epoch. What it returns depends on the time of the call, so
/// nothing is stated of it.
#[verifier::external_body]
fn clock_unix_secs() -> u64 {
    std::time::SystemTime::now().duration_since(std::time::UNIX_EPOCH).map(|d| d.as_secs()).unwrap_or(0)
}

/// The current Unix time in seconds.
pub fn now_unix() -> u64 {
    clock_unix_secs()
}

/// Year, month and day of the civil (proleptic Gregorian) calendar for a day
/// count since 1970-01-01 (the algorithm `civil_from_days`).
pub open spec fn civil(z: int) -> (int, int, int) {
    let z2 = z + 719468;
    let era = if z2 >= 0 { z2 / 146097 } else { (z2 - 146096) / 146097 };
    let doe = z2 - era * 146097;
    let yoe = (doe - doe / 1460 + doe / 36524 - doe / 146096) / 365;
    let y = yoe + era * 400;
    let doy = doe - (365 * yoe + yoe / 4 - yoe / 100);
    let mp = (5 * doy + 2) / 153;
    let d = doy - (153 * mp + 2) / 5 + 1;
    let m = if mp < 10 { mp + 3 } else { mp - 9 };
    let year: int = if m <= 2int { y + 1int } else { y };
    (year, m, d)
}

/// The text `YYYY-MM-DD hh:mm:ss` for a Unix time (UTC).
pub open spec fn unix_time_text(secs: nat) -> Seq<char> {
    let days = secs / 86400;
    let sod = secs % 86400;
    let (y, m, d) = civil(days as int);
    zero_padded(y as nat, 4) + seq!['-'] + zero_padded(m as nat, 2) + seq!['-'] + zero_padded(d as nat, 2)
        + seq![' '] + zero_padded(sod / 3600, 2) + seq![':'] + zero_padded((sod % 3600) / 60, 2) + seq![':']
        + zero_padded(sod % 60, 2)
}

fn civil_from_days(z: i64) -> (r: (i64, u32, u32))
    requires
        0 <= z <= 0xffff_ffff_ffff,
    ensures
        (r.0 as int, r.1 as int, r.2 as int) == civil(z as int),
        r.0 >= 0,
{
    let z = z + 719_468;
    let era = z / 146_097;
    let doe = z - era * 146_097;
    assert(0 <= doe < 146097) by (nonlinear_arith)
        requires
            z >= 0,
            era == z / 146097,
            doe == z - era * 146097,
    ;
    let yoe = (doe - doe / 1460 + doe / 36_524 - doe / 146_096) / 365;
    assert(0 <= yoe <= 400) by (nonlinear_arith)
        requires
            0 <= doe < 146097,
            yoe == (doe - doe / 1460 + doe / 36_524 - doe / 146_096) / 365,
    ;
    assert(0 <= era <= 0xffff_ffff_ffff) by (nonlinear_arith)
        requires
            z >= 0,
            z <= 0xffff_ffff_ffff + 719468,
            era == z / 146097,
    ;
    let y = yoe + era * 400;
    let doy = doe - (365 * yoe + yoe / 4 - yoe / 100);
    assert(0 <= doy <= 365) by (nonlinear_arith)
        requires
            0 <= doe < 146097,
            yoe == (doe - doe / 1460 + doe / 36_524 - doe / 146_096) / 365,
            doy == doe - (365 * yoe + yoe / 4 - yoe / 100),
    ;
    let mp = (5 * doy + 2) / 153;
    let d = (doy - (153 * mp + 2) / 5 + 1) as u32;
    let m = (if mp < 10 { mp + 3 } else { mp - 9 }) as u32;
    let year = if m <= 2 { y + 1 } else { y };
    (year, m, d)
}

/// Formats a Unix time as `YYYY-MM-DD hh:mm:ss` (UTC).
pub fn format_unix_time(unix_secs: u64) -> (r: String)
    ensures
        r@ == unix_time_text(unix_secs as nat),
{
    let days = unix_secs / 86_400;
    let secs_of_day = unix_secs % 86_400;
    let (y, m, d) = civil_from_days(days as i64);
    let mut out = zero_padded_string(y as u64, 4);
    push_char(&mut out, '-');
    let mm = zero_padded_string(m as u64, 2);
    push_str(&mut out, mm.as_str());
    push_char(&mut out, '-');
    let dd = zero_padded_string(d as u64, 2);
    push_str(&mut out, dd.as_str());
    push_char(&mut out, ' ');
    let hh = zero_padded_string(secs_of_day / 3600, 2);
    push_str(&mut out, hh.as_str());
    push_char(&mut out, ':');
    let mi = zero_padded_string((secs_of_day % 3600) / 60, 2);
    push_str(&mut out, mi.as_str());
    push_char(&mut out, ':');
    let ss = zero_padded_string(secs_of_day % 60, 2);
    push_str(&mut out, ss.as_str());
    proof {
        let (cy, cm, cd) = civil(days as int);
        assert(out@ =~= unix_time_text(unix_secs as nat));
    }
    out
}

/// Year of the era (0 to 399) of day `doe` of a 400-year era that starts
/// on 1 March.
spec fn year_of_era(doe: int) -> int {
    (doe - doe / 1460 + doe / 36524 - doe / 146096) / 365
}

/// Day of that March-based year (0 to 365).
spec fn day_of_year(doe: int) -> int {
    let yoe = year_of_era(doe);
    doe - (365 * yoe + yoe / 4 - yoe / 100)
}

/// Month from March (0 to 11) of a day of the March-based year.
spec fn month_from_march(doy: int) -> int {
    (5 * doy + 2) / 153
}

/// Day of the month (1 to 31) of a day of the March-based year.
spec fn day_of_month(doy: int) -> int {
    doy - (153 * month_from_march(doy) + 2) / 5 + 1
}

/// Era and day of the era of a day count since 1970-01-01.
spec fn era_of(z: int) -> int {
    (z + 719468) / 146097
}

spec fn doe_of(z: int) -> int {
    z + 719468 - era_of(z) * 146097
}

/// A number that orders day counts as their dates order: months counted
/// from March of year 0, then the day of the month.
spec fn date_code(z: int) -> int {
    let doe = doe_of(z);
    let doy = day_of_year(doe);
    ((era_of(z) * 400 + year_of_era(doe)) * 12 + month_from_march(doy)) * 32 + day_of_month(doy)
}

proof fn lemma_era_bounds(z: int)
    requires
        z >= 0,
    ensures
        0 <= doe_of(z) < 146097,
        era_of(z) >= 0,
{
    let z2 = z + 719468;
    let era = z2 / 146097;
    assert(0 <= z2 - era * 146097 < 146097 && era >= 0) by (nonlinear_arith)
        requires
            z2 >= 0,
            era == z2 / 146097,
    ;
}

proof fn lemma_day_bounds(doe: int)
    requires
        0 <= doe < 146097,
    ensures
        0 <= year_of_era(doe) <= 399,
        0 <= day_of_year(doe) <= 365,
        0 <= month_from_march(day_of_year(doe)) <= 11,
        1 <= day_of_month(day_of_year(doe)) <= 31,
{
    let yoe = year_of_era(doe);
    assert(0 <= yoe <= 399) by (nonlinear_arith)
        requires
            0 <= doe < 146097,
            yoe == (doe - doe / 1460 + doe / 36524 - doe / 146096) / 365,
    ;
    let doy = day_of_year(doe);
    assert(0 <= doy <= 365) by (nonlinear_arith)
        requires
            0 <= doe < 146097,
            yoe == (doe - doe / 1460 + doe / 36524 - doe / 146096) / 365,
            doy == doe - (365 * yoe + yoe / 4 - yoe / 100),
    ;
    let mp = month_from_march(doy);
    assert(0 <= mp <= 11) by (nonlinear_arith)
        requires
            0 <= doy <= 365,
            mp == (5 * doy + 2) / 153,
    ;
    let d = day_of_month(doy);
    assert(1 <= d <= 31) by (nonlinear_arith)
        requires
            0 <= doy <= 365,
            mp == (5 * doy + 2) / 153,
            d == doy - (153 * mp + 2) / 5 + 1,
    ;
}

/// Within an era the next day has a later date.
proof fn lemma_next_day_in_era(doe: int)
    requires
        0 <= doe < 146096,
    ensures
        (year_of_era(doe) * 12 + month_from_march(day_of_year(doe))) * 32 + day_of_month(day_of_year(doe))
            < (year_of_era(doe + 1) * 12 + month_from_march(day_of_year(doe + 1))) * 32 + day_of_month(
            day_of_year(doe + 1),
        ),
{
    lemma_day_bounds(doe);
    lemma_day_bounds(doe + 1);
    let y0 = year_of_era(doe);
    let y1 = year_of_era(doe + 1);
    let n0 = doe - doe / 1460 + doe / 36524 - doe / 146096;
    let n1 = (doe + 1) - (doe + 1) / 1460 + (doe + 1) / 36524 - (doe + 1) / 146096;
    assert(n1 >= n0) by (nonlinear_arith)
        requires
            0 <= doe < 146096,
            n0 == doe - doe / 1460 + doe / 36524 - doe / 146096,
            n1 == (doe + 1) - (doe + 1) / 1460 + (doe + 1) / 36524 - (doe + 1) / 146096,
    ;
    assert(y1 >= y0) by (nonlinear_arith)
        requires
            n1 >= n0 >= 0,
            y0 == n0 / 365,
            y1 == n1 / 365,
    ;
    if y1 == y0 {
        let d0 = day_of_year(doe);
        let d1 = day_of_year(doe + 1);
        assert(d1 == d0 + 1);
        let m0 = month_from_march(d0);
        let m1 = month_from_march(d1);
        assert(m1 >= m0 && m1 <= m0 + 1) by (nonlinear_arith)
            requires
                d1 == d0 + 1,
                d0 >= 0,
                m0 == (5 * d0 + 2) / 153,
                m1 == (5 * d1 + 2) / 153,
        ;
        if m1 == m0 {
            assert(day_of_month(d1) == day_of_month(d0) + 1);
        }
    }
}

/// The next day has a later date.
proof fn lemma_date_code_step(z: int)
    requires
        z >= 0,
    ensures
        date_code(z) < date_code(z + 1),
{
    lemma_era_bounds(z);
    lemma_era_bounds(z + 1);
    let era = era_of(z);
    let doe = doe_of(z);
    if doe < 146096 {
        assert(era_of(z + 1) == era) by (nonlinear_arith)
            requires
                z + 719468 == era * 146097 + doe,
                0 <= doe < 146096,
                era_of(z + 1) == (z + 1 + 719468) / 146097,
        ;
        assert(doe_of(z + 1) == doe + 1);
        lemma_next_day_in_era(doe);
    } else {
        assert(era_of(z + 1) == era + 1) by (nonlinear_arith)
            requires
                z + 719468 == era * 146097 + doe,
                doe == 146096,
                era_of(z + 1) == (z + 1 + 719468) / 146097,
        ;
        assert(doe_of(z + 1) == 0);
        lemma_day_bounds(doe);
        assert(year_of_era(0) == 0);
        assert(day_of_year(0) == 0);
        assert(month_from_march(0) == 0);
        assert(day_of_month(0) == 1);
    }
}

/// Later days have later dates.
proof fn lemma_date_code_monotone(a: int, b: int)
    requires
        0 <= a < b,
    ensures
        date_code(a) < date_code(b),
    decreases b - a,
{
    lemma_date_code_step(a);
    if a + 1 < b {
        lemma_date_code_monotone(a + 1, b);
    }
}

/// The civil date of a day count, in the order of [`date_code`]: the month
/// number `year * 12 + month - 1` is the March-based one plus two, and the
/// day is the same.
proof fn lemma_civil_code(z: int)
    requires
        z >= 0,
    ensures
        ({
            let (y, m, d) = civil(z);
            &&& 1 <= m <= 12
            &&& 1 <= d <= 31
            &&& date_code(z) == ((y * 12 + m - 1) - 2) * 32 + d
        }),
{
    lemma_era_bounds(z);
    lemma_day_bounds(doe_of(z));
}

/// `fa` then `sep` then `ra`, before `fb` then `sep` then `rb`: the first
/// fields differ in order, or agree and the rests are in order.
proof fn lemma_field_lt(fa: Seq<char>, fb: Seq<char>, sep: Seq<char>, ra: Seq<char>, rb: Seq<char>)
    requires
        fa.len() == fb.len(),
        seq_lt(fa, fb) || (fa == fb && seq_lt(ra, rb)),
    ensures
        seq_lt(fa + (sep + ra), fb + (sep + rb)),
{
    if seq_lt(fa, fb) {
        lemma_seq_lt_head(fa, fb, sep + ra, sep + rb);
    } else {
        lemma_seq_lt_prefix(sep, ra, rb);
        lemma_seq_lt_prefix(fa, sep + ra, sep + rb);
    }
}

/// Two-digit fields: in order when the numbers are, equal when they are.
proof fn lemma_two_digits(a: nat, b: nat)
    requires
        a < 100,
        b < 100,
    ensures
        zero_padded(a, 2).len() == 2,
        a < b ==> seq_lt(zero_padded(a, 2), zero_padded(b, 2)),
{
    lemma_zero_padded_2(a);
    if a < b {
        lemma_zero_padded_2_lt(a, b);
    }
}

/// The text of the fields year, month, day, hour, minute, second, grouped
/// from the right.
spec fn fields_text(f: (nat, nat, nat, nat, nat, nat)) -> Seq<char> {
    let (y, m, d, h, mi, s) = f;
    zero_padded(y, 4) + (seq!['-'] + (zero_padded(m, 2) + (seq!['-'] + (zero_padded(d, 2) + (seq![' '] + (
    zero_padded(h, 2) + (seq![':'] + (zero_padded(mi, 2) + (seq![':'] + zero_padded(s, 2))))))))))
}

/// Lexicographic order of the six fields.
spec fn fields_lt(a: (nat, nat, nat, nat, nat, nat), b: (nat, nat, nat, nat, nat, nat)) -> bool {
    ||| a.0 < b.0
    ||| a.0 == b.0 && a.1 < b.1
    ||| a.0 == b.0 && a.1 == b.1 && a.2 < b.2
    ||| a.0 == b.0 && a.1 == b.1 && a.2 == b.2 && a.3 < b.3
    ||| a.0 == b.0 && a.1 == b.1 && a.2 == b.2 && a.3 == b.3 && a.4 < b.4
    ||| a.0 == b.0 && a.1 == b.1 && a.2 == b.2 && a.3 == b.3 && a.4 == b.4 && a.5 < b.5
}

proof fn lemma_fields_text(a: (nat, nat, nat, nat, nat, nat), b: (nat, nat, nat, nat, nat, nat))
    requires
        a.0 < 10000 && a.1 < 100 && a.2 < 100 && a.3 < 100 && a.4 < 100 && a.5 < 100,
        b.0 < 10000 && b.1 < 100 && b.2 < 100 && b.3 < 100 && b.4 < 100 && b.5 < 100,
        fields_lt(a, b),
    ensures
        seq_lt(fields_text(a), fields_text(b)),
{
    lemma_zero_padded_4(a.0);
    lemma_zero_padded_4(b.0);
    if a.0 < b.0 {
        lemma_zero_padded_4_lt(a.0, b.0);
    }
    lemma_two_digits(a.1, b.1);
    lemma_two_digits(a.2, b.2);
    lemma_two_digits(a.3, b.3);
    lemma_two_digits(a.4, b.4);
    lemma_two_digits(a.5, b.5);
    lemma_two_digits(b.1, a.1);
    lemma_two_digits(b.2, a.2);
    lemma_two_digits(b.3, a.3);
    lemma_two_digits(b.4, a.4);
    lemma_two_digits(b.5, a.5);
    let sec_a = zero_padded(a.5, 2);
    let sec_b = zero_padded(b.5, 2);
    let min_a = zero_padded(a.4, 2) + (seq![':'] + sec_a);
    let min_b = zero_padded(b.4, 2) + (seq![':'] + sec_b);
    let hour_a = zero_padded(a.3, 2) + (seq![':'] + min_a);
    let hour_b = zero_padded(b.3, 2) + (seq![':'] + min_b);
    let day_a = zero_padded(a.2, 2) + (seq![' '] + hour_a);
    let day_b = zero_padded(b.2, 2) + (seq![' '] + hour_b);
    let mon_a = zero_padded(a.1, 2) + (seq!['-'] + day_a);
    let mon_b = zero_padded(b.1, 2) + (seq!['-'] + day_b);
    if a.0 == b.0 && a.1 == b.1 && a.2 == b.2 && a.3 == b.3 && a.4 == b.4 {
        lemma_field_lt(zero_padded(a.4, 2), zero_padded(b.4, 2), seq![':'], sec_a, sec_b);
    } else if a.0 == b.0 && a.1 == b.1 && a.2 == b.2 && a.3 == b.3 {
        lemma_field_lt(zero_padded(a.4, 2), zero_padded(b.4, 2), seq![':'], sec_a, sec_b);
    }
    if a.0 == b.0 && a.1 == b.1 && a.2 == b.2 && a.3 <= b.3 {
        lemma_field_lt(zero_padded(a.3, 2), zero_padded(b.3, 2), seq![':'], min_a, min_b);
    }
    if a.0 == b.0 && a.1 == b.1 && a.2 <= b.2 {
        lemma_field_lt(zero_padded(a.2, 2), zero_padded(b.2, 2), seq![' '], hour_a, hour_b);
    }
    if a.0 == b.0 && a.1 <= b.1 {
        lemma_field_lt(zero_padded(a.1, 2), zero_padded(b.1, 2), seq!['-'], day_a, day_b);
    }
    lemma_field_lt(zero_padded(a.0, 4), zero_padded(b.0, 4), seq!['-'], mon_a, mon_b);
}

/// The fields of a Unix time before the year 10000.
proof fn lemma_unix_time_fields(secs: nat)
    requires
        secs < 253_402_300_800,
    ensures
        ({
            let (y, m, d) = civil((secs / 86400) as int);
            let sod = secs % 86400;
            &&& 1970 <= y <= 9999
            &&& 1 <= m <= 12
            &&& 1 <= d <= 31
            &&& sod / 3600 < 24 && (sod % 3600) / 60 < 60 && sod % 60 < 60
            &&& unix_time_text(secs) == fields_text(
                (y as nat, m as nat, d as nat, sod / 3600, (sod % 3600) / 60, sod % 60),
            )
            &&& unix_time_text(secs).len() == 19
        }),
{
    let days = (secs / 86400) as int;
    assert(0 <= days < 2932897);
    lemma_civil_code(days);
    lemma_civil_code(0);
    lemma_civil_code(2932897);
    assert(719468int / 146097 == 4 && 135080int / 1460 == 92 && 135080int / 36524 == 3 && 135080int / 146096 == 0
        && 134991int / 365 == 369 && 369int / 4 == 92 && 369int / 100 == 3 && 1532int / 153 == 10 && 1532int / 5 == 306)
        by (nonlinear_arith);
    assert(civil(0) == (1970int, 1int, 1int));
    assert(3652365int / 146097 == 24 && 146037int / 1460 == 100 && 146037int / 36524 == 3 && 146037int / 146096 == 0
        && 145940int / 365 == 399 && 399int / 4 == 99 && 399int / 100 == 3) by (nonlinear_arith);
    assert(civil(2932897) == (10000int, 1int, 1int));
    if days > 0 {
        lemma_date_code_monotone(0, days);
    }
    lemma_date_code_monotone(days, 2932897);
    let (y, m, d) = civil(days);
    let sod = secs % 86400;
    lemma_zero_padded_4(y as nat);
    lemma_zero_padded_2(m as nat);
    lemma_zero_padded_2(d as nat);
    lemma_zero_padded_2(sod / 3600);
    lemma_zero_padded_2((sod % 3600) / 60);
    lemma_zero_padded_2(sod % 60);
    assert(unix_time_text(secs) =~= fields_text(
        (y as nat, m as nat, d as nat, sod / 3600, (sod % 3600) / 60, sod % 60),
    ));
}

/// Later days have later dates (year, then month, then day).
proof fn lemma_date_lex(da: int, db: int)
    requires
        0 <= da < db,
    ensures
        ({
            let (ya, ma, xa) = civil(da);
            let (yb, mb, xb) = civil(db);
            ya < yb || (ya == yb && ma < mb) || (ya == yb && ma == mb && xa < xb)
        }),
{
    lemma_civil_code(da);
    lemma_civil_code(db);
    lemma_date_code_monotone(da, db);
}

/// Later seconds of a day have a later time (hour, then minute, then
/// second).
proof fn lemma_time_of_day_lex(sa: nat, sb: nat)
    requires
        sa < sb < 86400,
    ensures
        sa / 3600 < sb / 3600 || (sa / 3600 == sb / 3600 && (sa % 3600) / 60 < (sb % 3600) / 60) || (sa / 3600
            == sb / 3600 && (sa % 3600) / 60 == (sb % 3600) / 60 && sa % 60 < sb % 60),
{
    assert(sa == (sa / 3600) * 3600 + ((sa % 3600) / 60) * 60 + sa % 60 && sa % 60 < 60 && (sa % 3600) / 60 < 60)
        by (nonlinear_arith);
    assert(sb == (sb / 3600) * 3600 + ((sb % 3600) / 60) * 60 + sb % 60 && sb % 60 < 60 && (sb % 3600) / 60 < 60)
        by (nonlinear_arith);
}

/// Unix times before the year 10000 (253402300800 seconds) have texts of
/// 19 characters, and a later time has a later text in string order, so
/// these texts sort as the times do.
pub proof fn lemma_unix_time_text_order(a: nat, b: nat)
    requires
        a < b < 253_402_300_800,
    ensures
        unix_time_text(a).len() == 19,
        unix_time_text(b).len() == 19,
        seq_lt(unix_time_text(a), unix_time_text(b)),
{
    lemma_unix_time_fields(a);
    lemma_unix_time_fields(b);
    let da = (a / 86400) as int;
    let db = (b / 86400) as int;
    let (ya, ma, dda) = civil(da);
    let (yb, mb, ddb) = civil(db);
    let sa = a % 86400;
    let sb = b % 86400;
    assert(da < db || (da == db && sa < sb)) by (nonlinear_arith)
        requires
            a < b,
            da == a / 86400,
            db == b / 86400,
            sa == a % 86400,
            sb == b % 86400,
    ;
    let fa = (ya as nat, ma as nat, dda as nat, sa / 3600, (sa % 3600) / 60, sa % 60);
    let fb = (yb as nat, mb as nat, ddb as nat, sb / 3600, (sb % 3600) / 60, sb % 60);
    if da < db {
        lemma_date_lex(da, db);
    } else {
        lemma_time_of_day_lex(sa, sb);
    }
    assert(fields_lt(fa, fb));
    lemma_fields_text(fa, fb);
}

/// ASCII letter or digit.
pub open spec fn is_ascii_alnum(c: char) -> bool {
    ('a' <= c <= 'z') || ('A' <= c <= 'Z') || ('0' <= c <= '9')
}

/// ASCII upper case letters to lower case; other characters unchanged.
pub open spec fn ascii_lower(c: char) -> char {
    if 'A' <= c <= 'Z' {
        ((c as u32) + 32) as char
    } else {
        c
    }
}

/// Keeps ASCII letters and digits (lower-cased), turns each run of `-`, `_`
/// and spaces into one `-`, and drops everything else.
pub open spec fn slug_raw(s: Seq<char>) -> Seq<char>
    decreases s.len(),
{
    if s.len() == 0 {
        Seq::empty()
    } else {
        let r = slug_raw(s.drop_last());
        let c = s.last();
        if is_ascii_alnum(c) {
            r.push(ascii_lower(c))
        } else if c == '-' || c == '_' || c == ' ' {
            if r.len() > 0 && r.last() == '-' {
                r
            } else {
                r.push('-')
            }
        } else {
            r
        }
    }
}

/// `s` without its leading `-` characters.
pub open spec fn strip_leading_dashes(s: Seq<char>) -> Seq<char>
    decreases s.len(),
{
    if s.len() > 0 && s[0] == '-' {
        strip_leading_dashes(s.drop_first())
    } else {
        s
    }
}

/// `s` without its trailing `-` characters.
pub open spec fn strip_trailing_dashes(s: Seq<char>) -> Seq<char>
    decreases s.len(),
{
    if s.len() > 0 && s.last() == '-' {
        strip_trailing_dashes(s.drop_last())
    } else {
        s
    }
}

/// The slug of a name before the fallback: `slug_raw` trimmed of `-`.
pub open spec fn slug_of(s: Seq<char>) -> Seq<char> {
    strip_trailing_dashes(strip_leading_dashes(slug_raw(s)))
}

/// Turns a title into a directory name: ASCII letters and digits in lower
/// case, single `-` between words. A title with no usable character (for
/// instance an all-Chinese one) becomes `project-<current unix time>`.
pub fn slugify(name: &str) -> (r: String)
    ensures
        slug_of(name@).len() > 0 ==> r@ == slug_of(name@),
        slug_of(name@).len() == 0 ==> exists|n: u64| r@ == "project-"@ + decimal(n as nat),
{
    slug_or_fallback(name, now_unix())
}

/// The slug of `name` (see [`slug_of`]), or `project-<now>` when the title
/// has no usable character; `now` is the current Unix time.
pub fn slug_or_fallback(name: &str, now: u64) -> (r: String)
    ensures
        slug_of(name@).len() > 0 ==> r@ == slug_of(name@),
        slug_of(name@).len() == 0 ==> r@ == "project-"@ + decimal(now as nat),
{
    let mut raw: Vec<char> = Vec::new();
    for ch in it: name.chars()
        invariant
            it.seq() == name@,
            raw@ == slug_raw(name@.take(it.index() as int)),
    {
        proof {
            let k = it.index() as int;
            assert(name@.take(k + 1).drop_last() =~= name@.take(k));
            assert(name@.take(k + 1).last() == ch);
        }
        if ('a' <= ch && ch <= 'z') || ('A' <= ch && ch <= 'Z') || ('0' <= ch && ch <= '9') {
            let lower = if 'A' <= ch && ch <= 'Z' {
                ((ch as u8) + 32) as char
            } else {
                ch
            };
            proof {
                if 'A' <= ch && ch <= 'Z' {
                    assert(lower == ascii_lower(ch)) by {
                        assert(((ch as u8) + 32) as char == ((ch as u32) + 32) as char);
                    }
                }
            }
            raw.push(lower);
        } else if ch == '-' || ch == '_' || ch == ' ' {
            let n = raw.len();
            if !(n > 0 && raw[n - 1] == '-') {
                raw.push('-');
            }
        }
    }
    proof {
        assert(name@.take(name@.len() as int) =~= name@);
    }
    let n = raw.len();
    proof {
        assert(raw@.subrange(0, n as int) =~= raw@);
    }
    let mut i: usize = 0;
    while i < n && raw[i] == '-'
        invariant
            i <= n == raw@.len(),
            strip_leading_dashes(raw@) == strip_leading_dashes(raw@.subrange(i as int, n as int)),
        decreases n - i,
    {
        proof {
            assert(raw@.subrange(i as int, n as int).drop_first() =~= raw@.subrange(i + 1, n as int));
        }
        i = i + 1;
    }
    proof {
        assert(strip_leading_dashes(raw@.subrange(i as int, n as int)) == raw@.subrange(i as int, n as int));
    }
    let mut j: usize = n;
    while j > i && raw[j - 1] == '-'
        invariant
            i <= j <= n == raw@.len(),
            strip_trailing_dashes(raw@.subrange(i as int, n as int)) == strip_trailing_dashes(
                raw@.subrange(i as int, j as int),
            ),
        decreases j,
    {
        proof {
            assert(raw@.subrange(i as int, j as int).drop_last() =~= raw@.subrange(i as int, j - 1));
        }
        j = j - 1;
    }
    if i == j {
        proof {
            assert(raw@.subrange(i as int, j as int).len() == 0);
        }
        let mut out = "project-".to_owned();
        let digits = decimal_string(now);
        push_str(&mut out, digits.as_str());
        return out;
    }
    let mut out = String::new();
    let mut k = i;
    while k < j
        invariant
            i <= k <= j <= raw@.len(),
            out@ == raw@.subrange(i as int, k as int),
        decreases j - k,
    {
        push_char(&mut out, raw[k]);
        proof {
            assert(raw@.subrange(i as int, k + 1) =~= raw@.subrange(i as int, k as int).push(raw@[k as int]));
        }
        k = k + 1;
    }
    out
}

} // verus!
