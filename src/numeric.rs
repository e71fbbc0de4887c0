use vstd::prelude::*;

use crate::literal::{digit_char, nat_text, write_chars, write_nat};

verus! {

/// Decimal digits of a natural number, most significant first.
pub open spec fn nat_digits(n: nat) -> Seq<u8>
    decreases n,
{
    if n < 10 {
        seq![n as u8]
    } else {
        nat_digits(n / 10).push((n % 10) as u8)
    }
}

pub open spec fn digits_text(d: Seq<u8>) -> Seq<char> {
    Seq::new(d.len(), |i: int| digit_char(d[i] as nat))
}

pub open spec fn trailing_zeros(d: Seq<u8>) -> nat
    decreases d.len(),
{
    if d.len() > 0 && d.last() == 0 {
        1 + trailing_zeros(d.drop_last())
    } else {
        0
    }
}

pub open spec fn zeros(n: nat) -> Seq<char> {
    Seq::new(n, |_i: int| '0')
}

pub open spec fn sign_text(negative: bool) -> Seq<char> {
    if negative {
        seq!['-']
    } else {
        Seq::empty()
    }
}

/// Digits written plainly, or as significant digits and a power of ten
/// when more than five trailing zeros would be written; always suffixed `n`.
pub open spec fn bigint_text(negative: bool, d: Seq<u8>) -> Seq<char> {
    let z = trailing_zeros(d);
    let sig = d.subrange(0, d.len() - z);
    sign_text(negative) + (if z > 5 && sig.len() > 0 {
        digits_text(sig) + seq!['e'] + nat_text(z)
    } else {
        digits_text(d)
    }) + seq!['n']
}

/// The text of `c × 10^e`, where `c` has no trailing zero: exponent
/// notation with a fractional point beyond ten places either way, plain
/// decimal notation with at least one fractional digit otherwise.
pub open spec fn decimal_body(c: Seq<u8>, e: int) -> Seq<char> {
    let l = c.len() as int;
    if l == 0 {
        seq!['0', '.', '0', 'n']
    } else if e >= 0 {
        if e > 10 {
            digits_text(c) + seq!['.', '0', 'e'] + nat_text(e as nat) + seq!['n']
        } else {
            digits_text(c) + zeros(e as nat) + seq!['.', '0', 'n']
        }
    } else if -e < l {
        digits_text(c.subrange(0, l + e)) + seq!['.'] + digits_text(c.subrange(l + e, l))
            + seq!['n']
    } else if -e - l > 10 {
        seq!['0', '.'] + digits_text(c) + seq!['e', '-'] + nat_text((-e - l) as nat)
    } else {
        seq!['0', '.'] + zeros((-e - l) as nat) + digits_text(c) + seq!['n']
    }
}

/// The text of `±d × 10^e`: trailing zeros of `d` move into the exponent.
pub open spec fn decimal_text(negative: bool, d: Seq<u8>, e: int) -> Seq<char> {
    let z = trailing_zeros(d);
    sign_text(negative) + decimal_body(d.subrange(0, d.len() - z), e + z)
}

/// An arbitrary-precision integer as sign and decimal digits.
pub struct BigInt {
    pub negative: bool,
    /// Most significant first.
    pub digits: Vec<u8>,
}

/// A decimal number `±digits × 10^exponent`.
pub struct Decimal {
    pub negative: bool,
    /// The coefficient's digits, most significant first.
    pub digits: Vec<u8>,
    pub exponent: i64,
}

fn push_nat_digits(out: &mut Vec<u8>, n: u64)
    ensures
        final(out)@ == old(out)@ + nat_digits(n as nat),
    decreases n,
{
    if n >= 10 {
        push_nat_digits(out, n / 10);
    }
    out.push((n % 10) as u8);
    assert(final(out)@ =~= old(out)@ + nat_digits(n as nat));
}

fn unsigned_abs(n: i64) -> (r: u64)
    ensures
        r as int == if n < 0 { -n } else { n as int },
{
    if n < 0 {
        (-(n as i128)) as u64
    } else {
        n as u64
    }
}

impl BigInt {
    pub fn from_i64(n: i64) -> (r: BigInt)
        ensures
            r.negative == (n < 0),
            r.digits@ == nat_digits(if n < 0 { -n } else { n as int } as nat),
    {
        let mut digits: Vec<u8> = Vec::new();
        push_nat_digits(&mut digits, unsigned_abs(n));
        assert(digits@ =~= nat_digits(if n < 0 { -n } else { n as int } as nat));
        BigInt { negative: n < 0, digits }
    }
}

impl Decimal {
    /// The number `±coefficient × 10^exponent`.
    pub fn new(negative: bool, coefficient: u64, exponent: i64) -> (r: Decimal)
        ensures
            r.negative == negative,
            r.digits@ == nat_digits(coefficient as nat),
            r.exponent == exponent,
    {
        let mut digits: Vec<u8> = Vec::new();
        push_nat_digits(&mut digits, coefficient);
        assert(digits@ =~= nat_digits(coefficient as nat));
        Decimal { negative, digits, exponent }
    }
}

fn count_trailing_zeros(d: &Vec<u8>) -> (z: usize)
    ensures
        z == trailing_zeros(d@),
        z <= d@.len(),
{
    let n = d.len();
    let mut z: usize = 0;
    assert(d@.subrange(0, n as int) =~= d@);
    while z < n && d[n - 1 - z] == 0
        invariant
            n == d@.len(),
            z <= n,
            trailing_zeros(d@) == z + trailing_zeros(d@.subrange(0, n - z)),
        decreases n - z,
    {
        assert(d@.subrange(0, n - z).drop_last() =~= d@.subrange(0, n - z - 1));
        z += 1;
    }
    if z < n {
        assert(d@.subrange(0, n - z).last() == d@[n - 1 - z]);
    }
    z
}

fn write_digits(out: &mut Vec<char>, d: &Vec<u8>, from: usize, to: usize)
    requires
        from <= to <= d@.len(),
    ensures
        final(out)@ == old(out)@ + digits_text(d@.subrange(from as int, to as int)),
{
    let mut k: usize = from;
    while k < to
        invariant
            from <= k <= to <= d@.len(),
            out@ == old(out)@ + digits_text(d@.subrange(from as int, k as int)),
        decreases to - k,
    {
        let x = d[k];
        let c = if x < 10 {
            (x + 48) as char
        } else {
            '?'
        };
        out.push(c);
        assert(out@ =~= old(out)@ + digits_text(d@.subrange(from as int, k + 1)));
        k += 1;
    }
}

fn write_zeros(out: &mut Vec<char>, n: usize)
    ensures
        final(out)@ == old(out)@ + zeros(n as nat),
{
    let mut k: usize = 0;
    while k < n
        invariant
            k <= n,
            out@ == old(out)@ + zeros(k as nat),
        decreases n - k,
    {
        out.push('0');
        assert(out@ =~= old(out)@ + zeros((k + 1) as nat));
        k += 1;
    }
}

fn write_sign(out: &mut Vec<char>, negative: bool)
    ensures
        final(out)@ == old(out)@ + sign_text(negative),
{
    if negative {
        out.push('-');
    }
    assert(final(out)@ =~= old(out)@ + sign_text(negative));
}

pub fn write_bigint(out: &mut Vec<char>, v: &BigInt)
    ensures
        final(out)@ == old(out)@ + bigint_text(v.negative, v.digits@),
{
    let ghost base = out@;
    let n = v.digits.len();
    let z = count_trailing_zeros(&v.digits);
    write_sign(out, v.negative);
    if z > 5 && n - z > 0 {
        write_digits(out, &v.digits, 0, n - z);
        out.push('e');
        write_nat(out, z as u128);
    } else {
        write_digits(out, &v.digits, 0, n);
        assert(v.digits@.subrange(0, n as int) =~= v.digits@);
    }
    out.push('n');
    assert(out@ =~= base + bigint_text(v.negative, v.digits@));
}

fn write_decimal_body(out: &mut Vec<char>, d: &Vec<u8>, l: usize, e: i128)
    requires
        l <= d@.len(),
        e <= i64::MAX + usize::MAX,
        e >= i64::MIN,
    ensures
        final(out)@ == old(out)@ + decimal_body(d@.subrange(0, l as int), e as int),
{
    proof {
        reveal_strlit(".0e");
        reveal_strlit(".0n");
        reveal_strlit("0.0n");
        reveal_strlit("0.");
        reveal_strlit("e-");
    }
    let ghost base = out@;
    let ghost c = d@.subrange(0, l as int);
    if l == 0 {
        write_chars(out, "0.0n");
        assert(out@ =~= base + decimal_body(c, e as int));
    } else if e >= 0 {
        if e > 10 {
            write_digits(out, d, 0, l);
            write_chars(out, ".0e");
            write_nat(out, e as u128);
            out.push('n');
            assert(out@ =~= base + decimal_body(c, e as int));
        } else {
            write_digits(out, d, 0, l);
            write_zeros(out, e as usize);
            write_chars(out, ".0n");
            assert(out@ =~= base + decimal_body(c, e as int));
        }
    } else if -e < l as i128 {
        let p = (l as i128 + e) as usize;
        write_digits(out, d, 0, p);
        out.push('.');
        write_digits(out, d, p, l);
        assert(c.subrange(0, p as int) =~= d@.subrange(0, p as int));
        assert(c.subrange(p as int, l as int) =~= d@.subrange(p as int, l as int));
        out.push('n');
        assert(out@ =~= base + decimal_body(c, e as int));
    } else if -e - (l as i128) > 10 {
        write_chars(out, "0.");
        write_digits(out, d, 0, l);
        write_chars(out, "e-");
        write_nat(out, (-e - (l as i128)) as u128);
        assert(out@ =~= base + decimal_body(c, e as int));
    } else {
        write_chars(out, "0.");
        write_zeros(out, (-e - (l as i128)) as usize);
        write_digits(out, d, 0, l);
        out.push('n');
        assert(out@ =~= base + decimal_body(c, e as int));
    }
}

pub fn write_decimal(out: &mut Vec<char>, v: &Decimal)
    ensures
        final(out)@ == old(out)@ + decimal_text(v.negative, v.digits@, v.exponent as int),
{
    let ghost base = out@;
    let n = v.digits.len();
    let z = count_trailing_zeros(&v.digits);
    let e: i128 = v.exponent as i128 + z as i128;
    write_sign(out, v.negative);
    write_decimal_body(out, &v.digits, n - z, e);
    assert(out@ =~= base + decimal_text(v.negative, v.digits@, v.exponent as int));
}

} // verus!
