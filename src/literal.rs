use vstd::prelude::*;

verus! {

/// Relies on `FromIterator<char> for String`: the string holds exactly the
/// given characters, in order.
#[verifier::external_body]
pub(crate) fn string_of(chars: &Vec<char>) -> (r: String)
    ensures
        r@ == chars@,
{
    chars.iter().collect()
}

pub open spec fn digit_char(d: nat) -> char {
    if d < 10 { ((d + 48) as u8) as char } else { '?' }
}

/// Decimal notation of a natural number, without leading zeros.
pub open spec fn nat_text(n: nat) -> Seq<char>
    decreases n,
{
    if n < 10 {
        seq![digit_char(n)]
    } else {
        nat_text(n / 10).push(digit_char(n % 10))
    }
}

/// Decimal notation of an integer.
pub open spec fn int_text(n: int) -> Seq<char> {
    if n < 0 {
        seq!['-'] + nat_text((-n) as nat)
    } else {
        nat_text(n as nat)
    }
}

fn digit(d: u128) -> (c: char)
    requires
        d < 10,
    ensures
        c == digit_char(d as nat),
{
    ((d as u8) + 48) as char
}

pub fn write_nat(out: &mut Vec<char>, n: u128)
    ensures
        final(out)@ == old(out)@ + nat_text(n as nat),
    decreases n,
{
    if n >= 10 {
        write_nat(out, n / 10);
    }
    out.push(digit(n % 10));
    assert(final(out)@ =~= old(out)@ + nat_text(n as nat));
}

pub fn write_int(out: &mut Vec<char>, n: i64)
    ensures
        final(out)@ == old(out)@ + int_text(n as int),
{
    if n < 0 {
        out.push('-');
        let m: i128 = -(n as i128);
        write_nat(out, m as u128);
        assert(final(out)@ =~= old(out)@ + int_text(n as int));
    } else {
        write_nat(out, n as u128);
    }
}

/// How one character of a string literal is written between quotes.
pub open spec fn escape_char(c: char) -> Seq<char> {
    if c == '\n' {
        seq!['\\', 'n']
    } else if c == '\r' {
        seq!['\\', 'r']
    } else if c == '\t' {
        seq!['\\', 't']
    } else if c == '\\' {
        seq!['\\', '\\']
    } else if c == '\'' {
        seq!['\\', '\'']
    } else {
        seq![c]
    }
}

/// The escaped body of a string literal.
pub open spec fn escape(s: Seq<char>) -> Seq<char>
    decreases s.len(),
{
    if s.len() == 0 {
        Seq::empty()
    } else {
        escape_char(s[0]) + escape(s.drop_first())
    }
}

/// Reads an escaped body back.
pub open spec fn unescape(s: Seq<char>) -> Seq<char>
    decreases s.len(),
{
    if s.len() == 0 {
        Seq::empty()
    } else if s[0] == '\\' && s.len() >= 2 {
        let c = s[1];
        let u = if c == 'n' {
            '\n'
        } else if c == 'r' {
            '\r'
        } else if c == 't' {
            '\t'
        } else {
            c
        };
        seq![u] + unescape(s.subrange(2, s.len() as int))
    } else {
        seq![s[0]] + unescape(s.drop_first())
    }
}

/// Unescaping an escaped string gives the string back.
pub proof fn lemma_unescape_escape(s: Seq<char>)
    ensures
        unescape(escape(s)) == s,
    decreases s.len(),
{
    if s.len() > 0 {
        let rest = s.drop_first();
        lemma_unescape_escape(rest);
        let e = escape(s);
        let h = escape_char(s[0]);
        assert(e == h + escape(rest));
        if h.len() == 2 {
            assert(e.subrange(2, e.len() as int) =~= escape(rest));
        } else {
            assert(e.drop_first() =~= escape(rest));
        }
        assert(unescape(e) =~= s);
    }
}

pub fn write_escaped(out: &mut Vec<char>, s: &str)
    ensures
        final(out)@ == old(out)@ + escape(s@),
{
    let n = s.unicode_len();
    let mut k: usize = 0;
    assert(s@.subrange(0, n as int) =~= s@);
    while k < n
        invariant
            n == s@.len(),
            k <= n,
            out@ + escape(s@.subrange(k as int, n as int)) == old(out)@ + escape(s@),
        decreases n - k,
    {
        let ghost before = out@;
        let ghost rest = s@.subrange(k as int, n as int);
        assert(rest.drop_first() =~= s@.subrange(k + 1, n as int));
        let c = s.get_char(k);
        if c == '\n' {
            out.push('\\');
            out.push('n');
        } else if c == '\r' {
            out.push('\\');
            out.push('r');
        } else if c == '\t' {
            out.push('\\');
            out.push('t');
        } else if c == '\\' {
            out.push('\\');
            out.push('\\');
        } else if c == '\'' {
            out.push('\\');
            out.push('\'');
        } else {
            out.push(c);
        }
        assert(out@ =~= before + escape_char(c));
        assert(out@ + escape(s@.subrange(k + 1, n as int)) =~= before + escape(rest));
        k += 1;
    }
    assert(s@.subrange(n as int, n as int) =~= Seq::<char>::empty());
    assert(old(out)@ + escape(s@) =~= out@);
}

pub open spec fn hex_char(n: nat) -> char {
    if n < 10 {
        ((n + 48) as u8) as char
    } else {
        ((n + 87) as u8) as char
    }
}

/// How one byte of a bytes literal is written between quotes.
pub open spec fn escape_byte(b: u8) -> Seq<char> {
    if b == 10 {
        seq!['\\', 'n']
    } else if b == 13 {
        seq!['\\', 'r']
    } else if b == 9 {
        seq!['\\', 't']
    } else if b == 92 {
        seq!['\\', '\\']
    } else if b == 39 {
        seq!['\\', '\'']
    } else if 32 <= b < 127 {
        seq![b as char]
    } else {
        seq!['\\', 'x', hex_char((b / 16) as nat), hex_char((b % 16) as nat)]
    }
}

/// The escaped body of a bytes literal.
pub open spec fn escape_bytes(s: Seq<u8>) -> Seq<char>
    decreases s.len(),
{
    if s.len() == 0 {
        Seq::empty()
    } else {
        escape_byte(s[0]) + escape_bytes(s.drop_first())
    }
}

fn hex(n: u8) -> (c: char)
    requires
        n < 16,
    ensures
        c == hex_char(n as nat),
{
    if n < 10 {
        (n + 48) as char
    } else {
        (n + 87) as char
    }
}

pub fn write_escaped_bytes(out: &mut Vec<char>, s: &Vec<u8>)
    ensures
        final(out)@ == old(out)@ + escape_bytes(s@),
{
    let n = s.len();
    let mut k: usize = 0;
    assert(s@.subrange(0, n as int) =~= s@);
    while k < n
        invariant
            n == s@.len(),
            k <= n,
            out@ + escape_bytes(s@.subrange(k as int, n as int)) == old(out)@ + escape_bytes(s@),
        decreases n - k,
    {
        let ghost before = out@;
        let ghost rest = s@.subrange(k as int, n as int);
        assert(rest.drop_first() =~= s@.subrange(k + 1, n as int));
        let b = s[k];
        if b == 10 {
            out.push('\\');
            out.push('n');
        } else if b == 13 {
            out.push('\\');
            out.push('r');
        } else if b == 9 {
            out.push('\\');
            out.push('t');
        } else if b == 92 {
            out.push('\\');
            out.push('\\');
        } else if b == 39 {
            out.push('\\');
            out.push('\'');
        } else if 32 <= b && b < 127 {
            out.push(b as char);
        } else {
            out.push('\\');
            out.push('x');
            out.push(hex(b / 16));
            out.push(hex(b % 16));
        }
        assert(out@ =~= before + escape_byte(b));
        assert(out@ + escape_bytes(s@.subrange(k + 1, n as int)) =~= before + escape_bytes(rest));
        k += 1;
    }
    assert(s@.subrange(n as int, n as int) =~= Seq::<u8>::empty());
    assert(old(out)@ + escape_bytes(s@) =~= out@);
}

/// Appends the characters of `s`.
pub fn write_chars(out: &mut Vec<char>, s: &str)
    ensures
        final(out)@ == old(out)@ + s@,
{
    let n = s.unicode_len();
    let mut k: usize = 0;
    while k < n
        invariant
            n == s@.len(),
            k <= n,
            out@ == old(out)@ + s@.subrange(0, k as int),
        decreases n - k,
    {
        out.push(s.get_char(k));
        assert(out@ =~= old(out)@ + s@.subrange(0, k + 1));
        k += 1;
    }
    assert(s@.subrange(0, n as int) =~= s@);
}

pub open spec fn hex_value(c: char) -> int {
    if (c as u32) < 58 {
        (c as u32) - 48
    } else {
        (c as u32) - 87
    }
}

/// Reads an escaped bytes body back.
pub open spec fn unescape_bytes(s: Seq<char>) -> Seq<u8>
    decreases s.len(),
{
    if s.len() == 0 {
        Seq::empty()
    } else if s[0] == '\\' && s.len() >= 4 && s[1] == 'x' {
        seq![(hex_value(s[2]) * 16 + hex_value(s[3])) as u8] + unescape_bytes(
            s.subrange(4, s.len() as int),
        )
    } else if s[0] == '\\' && s.len() >= 2 {
        let c = s[1];
        let u: u8 = if c == 'n' {
            10
        } else if c == 'r' {
            13
        } else if c == 't' {
            9
        } else {
            c as u8
        };
        seq![u] + unescape_bytes(s.subrange(2, s.len() as int))
    } else {
        seq![s[0] as u8] + unescape_bytes(s.drop_first())
    }
}

proof fn lemma_hex_round_trip(n: nat)
    requires
        n < 16,
    ensures
        hex_value(hex_char(n)) == n,
{
    if n < 10 {
        let b = (n + 48) as u8;
        assert((b as char) as u32 == b as u32);
    } else {
        let b = (n + 87) as u8;
        assert((b as char) as u32 == b as u32);
    }
}

/// Unescaping an escaped bytes body gives the bytes back.
pub proof fn lemma_unescape_escape_bytes(b: Seq<u8>)
    ensures
        unescape_bytes(escape_bytes(b)) == b,
    decreases b.len(),
{
    if b.len() > 0 {
        let rest = b.drop_first();
        lemma_unescape_escape_bytes(rest);
        let x = b[0];
        let e = escape_bytes(b);
        let h = escape_byte(x);
        assert(e == h + escape_bytes(rest));
        if h.len() == 4 {
            lemma_hex_round_trip((x / 16) as nat);
            lemma_hex_round_trip((x % 16) as nat);
            assert(e.subrange(4, e.len() as int) =~= escape_bytes(rest));
        } else if h.len() == 2 {
            assert(e.subrange(2, e.len() as int) =~= escape_bytes(rest));
        } else {
            assert((x as char) as u8 == x);
            assert(e.drop_first() =~= escape_bytes(rest));
        }
        assert(unescape_bytes(e) =~= b);
    }
}

} // verus!
