use vstd::prelude::*;

use crate::literal::{digit_char, int_text, write_int};

verus! {

/// A point in time: microseconds since 2000-01-01T00:00:00 UTC.
#[derive(Clone, Copy)]
pub struct Datetime {
    pub micros: i64,
}

impl Datetime {
    pub fn from_micros(micros: i64) -> (r: Datetime)
        ensures
            r.micros == micros,
    {
        Datetime { micros }
    }
}

/// Eight hundred 400-year cycles, in microseconds: added so that every
/// instant counts from a non-negative origin.
pub open spec fn shift() -> int {
    800int * 146097 * 86400000000
}

/// The proleptic Gregorian date of a day count, where day 0 is the first
/// day of a 400-year cycle that starts on March 1st (the civil calendar
/// algorithm over non-negative counts). Returns year of cycle origin
/// zero, month and day.
pub open spec fn civil(z: int) -> (int, int, int) {
    let era = z / 146097;
    let doe = z % 146097;
    let yoe = (doe - doe / 1460 + doe / 36524 - doe / 146096) / 365;
    let doy = doe - (365 * yoe + yoe / 4 - yoe / 100);
    let mp = (5 * doy + 2) / 153;
    let d = doy - (153 * mp + 2) / 5 + 1;
    let m = if mp < 10 { mp + 3 } else { mp - 9 };
    let y = yoe + era * 400 + if m <= 2 { 1int } else { 0 };
    (y, m, d)
}

pub open spec fn two_digits(n: int) -> Seq<char> {
    seq![digit_char((n / 10) as nat), digit_char((n % 10) as nat)]
}

pub open spec fn year_text(y: int) -> Seq<char> {
    if 0 <= y <= 9999 {
        seq![
            digit_char((y / 1000) as nat),
            digit_char((y / 100 % 10) as nat),
            digit_char((y / 10 % 10) as nat),
            digit_char((y % 10) as nat),
        ]
    } else {
        int_text(y)
    }
}

pub open spec fn fraction_text(us: int) -> Seq<char> {
    if us == 0 {
        Seq::empty()
    } else {
        seq![
            '.',
            digit_char((us / 100000) as nat),
            digit_char((us / 10000 % 10) as nat),
            digit_char((us / 1000 % 10) as nat),
            digit_char((us / 100 % 10) as nat),
            digit_char((us / 10 % 10) as nat),
            digit_char((us % 10) as nat),
        ]
    }
}

/// ISO-8601 text of an instant in UTC, with microseconds when there are any.
pub open spec fn datetime_text(micros: int) -> Seq<char> {
    let t = micros + shift();
    let us = t % 1000000;
    let secs = t / 1000000;
    let sod = secs % 86400;
    // 2000-01-01 is day 730425 of the civil count that starts at 0000-03-01.
    let (y, m, d) = civil(secs / 86400 + 730425);
    year_text(y - 800 * 400) + seq!['-'] + two_digits(m) + seq!['-'] + two_digits(d) + seq!['T']
        + two_digits(sod / 3600) + seq![':'] + two_digits(sod / 60 % 60) + seq![':']
        + two_digits(sod % 60) + fraction_text(us) + seq!['Z']
}

fn digit_of(n: u128) -> (c: char)
    requires
        n < 10,
    ensures
        c == digit_char(n as nat),
{
    ((n as u8) + 48) as char
}

fn write_two(out: &mut Vec<char>, n: u128)
    requires
        n < 100,
    ensures
        final(out)@ == old(out)@ + two_digits(n as int),
{
    out.push(digit_of(n / 10));
    out.push(digit_of(n % 10));
    assert(final(out)@ =~= old(out)@ + two_digits(n as int));
}

fn civil_exec(z: u128) -> (r: (u128, u128, u128))
    requires
        z < 1_000_000_000,
    ensures
        (r.0 as int, r.1 as int, r.2 as int) == civil(z as int),
        r.0 < 3_000_000,
        1 <= r.1 <= 12,
        1 <= r.2 <= 31,
{
    let era = z / 146097;
    assert(era < 7000);
    let doe = z % 146097;
    let yoe = (doe - doe / 1460 + doe / 36524 - doe / 146096) / 365;
    assert(yoe <= 399) by (nonlinear_arith)
        requires
            doe < 146097,
            yoe == (doe - doe / 1460 + doe / 36524 - doe / 146096) / 365,
    ;
    assert(365 * yoe + yoe / 4 - yoe / 100 <= doe) by (nonlinear_arith)
        requires
            doe < 146097,
            yoe == (doe - doe / 1460 + doe / 36524 - doe / 146096) / 365,
    ;
    let doy = doe - (365 * yoe + yoe / 4 - yoe / 100);
    assert(doy <= 365) by (nonlinear_arith)
        requires
            doe < 146097,
            yoe == (doe - doe / 1460 + doe / 36524 - doe / 146096) / 365,
            doy == doe - (365 * yoe + yoe / 4 - yoe / 100),
    ;
    let mp = (5 * doy + 2) / 153;
    let d = doy - (153 * mp + 2) / 5 + 1;
    let m = if mp < 10 {
        mp + 3
    } else {
        mp - 9
    };
    let y = yoe + era * 400 + if m <= 2 {
        1
    } else {
        0
    };
    (y, m, d)
}

fn write_year(out: &mut Vec<char>, year: i128)
    requires
        -1_000_000_000 < year < 1_000_000_000,
    ensures
        final(out)@ == old(out)@ + year_text(year as int),
{
    if 0 <= year && year <= 9999 {
        let y = year as u128;
        out.push(digit_of(y / 1000));
        out.push(digit_of(y / 100 % 10));
        out.push(digit_of(y / 10 % 10));
        out.push(digit_of(y % 10));
        assert(final(out)@ =~= old(out)@ + year_text(year as int));
    } else {
        write_int(out, year as i64);
    }
}

fn write_fraction(out: &mut Vec<char>, us: u128)
    requires
        us < 1000000,
    ensures
        final(out)@ == old(out)@ + fraction_text(us as int),
{
    if us != 0 {
        out.push('.');
        out.push(digit_of(us / 100000));
        out.push(digit_of(us / 10000 % 10));
        out.push(digit_of(us / 1000 % 10));
        out.push(digit_of(us / 100 % 10));
        out.push(digit_of(us / 10 % 10));
        out.push(digit_of(us % 10));
    }
    assert(final(out)@ =~= old(out)@ + fraction_text(us as int));
}

fn write_clock(out: &mut Vec<char>, sod: u128)
    requires
        sod < 86400,
    ensures
        final(out)@ == old(out)@ + two_digits(sod as int / 3600) + seq![':'] + two_digits(
            sod as int / 60 % 60,
        ) + seq![':'] + two_digits(sod as int % 60),
{
    write_two(out, sod / 3600);
    out.push(':');
    write_two(out, sod / 60 % 60);
    out.push(':');
    write_two(out, sod % 60);
    assert(final(out)@ =~= old(out)@ + two_digits(sod as int / 3600) + seq![':'] + two_digits(
        sod as int / 60 % 60,
    ) + seq![':'] + two_digits(sod as int % 60));
}

fn write_date(out: &mut Vec<char>, y: u128, m: u128, d: u128)
    requires
        y < 1_000_000_000,
        m < 100,
        d < 100,
    ensures
        final(out)@ == old(out)@ + year_text(y - 800 * 400) + seq!['-'] + two_digits(m as int)
            + seq!['-'] + two_digits(d as int),
{
    write_year(out, y as i128 - 800 * 400);
    out.push('-');
    write_two(out, m);
    out.push('-');
    write_two(out, d);
    assert(final(out)@ =~= old(out)@ + year_text(y - 800 * 400) + seq!['-'] + two_digits(m as int)
        + seq!['-'] + two_digits(d as int));
}

pub fn write_datetime(out: &mut Vec<char>, t: &Datetime)
    ensures
        final(out)@ == old(out)@ + datetime_text(t.micros as int),
{
    let ghost base = out@;
    let s: u128 = (t.micros as i128 + 800 * 146097 * 86400000000) as u128;
    let us = s % 1000000;
    let secs = s / 1000000;
    let sod = secs % 86400;
    assert(secs / 86400 + 730425 < 1_000_000_000);
    let (y, m, d) = civil_exec(secs / 86400 + 730425);
    write_date(out, y, m, d);
    out.push('T');
    write_clock(out, sod);
    write_fraction(out, us);
    out.push('Z');
    assert(out@ =~= base + datetime_text(t.micros as int));
}

} // verus!
