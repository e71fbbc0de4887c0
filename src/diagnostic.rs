use vstd::prelude::*;

use crate::literal::string_of;
use crate::question::{parse_u32, parsed_u32};

verus! {

/// The error code whose server traceback is shown.
pub const INTERNAL_SERVER_ERROR: u32 = 0x0100_0000;

/// What a source map says an error's range lies in.
pub enum SourceKind {
    /// A file whose text starts at the given offset of the statement text.
    File(usize),
    /// The statement separator added after a file's last statement.
    Semicolon,
    /// Text with no file behind it.
    Other,
}

/// Where to point at an error in its file.
pub struct ErrorSpan {
    pub start: usize,
    pub end: usize,
    /// The error is at the end of the file's text.
    pub eof: bool,
}

pub open spec fn all_ascii(b: Seq<u8>) -> bool {
    forall|i: int| 0 <= i < b.len() ==> #[trigger] b[i] < 128
}

pub open spec fn ascii_chars(b: Seq<u8>) -> Seq<char> {
    Seq::new(b.len(), |i: int| b[i] as char)
}

/// The offset that a position attribute holds: decimal text of a 32-bit
/// number. Text that is not ASCII is no number.
pub open spec fn position_of(b: Seq<u8>) -> Option<usize> {
    if all_ascii(b) {
        match parsed_u32(ascii_chars(b)) {
            Some(v) => Some(v as usize),
            None => None,
        }
    } else {
        None
    }
}

/// Reads a position attribute.
pub fn position(attr: &Vec<u8>) -> (r: Option<usize>)
    ensures
        r == position_of(attr@),
{
    let mut chars: Vec<char> = Vec::new();
    let mut k: usize = 0;
    while k < attr.len()
        invariant
            k <= attr@.len(),
            all_ascii(attr@.subrange(0, k as int)),
            chars@ == ascii_chars(attr@.subrange(0, k as int)),
        decreases attr@.len() - k,
    {
        let b = attr[k];
        if b >= 128 {
            assert(!all_ascii(attr@));
            return None;
        }
        chars.push(b as char);
        assert(chars@ =~= ascii_chars(attr@.subrange(0, k + 1)));
        assert(all_ascii(attr@.subrange(0, k + 1)));
        k += 1;
    }
    assert(attr@.subrange(0, k as int) =~= attr@);
    let text = string_of(&chars);
    match parse_u32(text.as_str()) {
        Some(v) => Some(v as usize),
        None => None,
    }
}

/// The span of an error in its file: the range moved by the file's offset,
/// or, for the statement separator, an empty span at the end of the file's
/// last token. `None` where the range cannot be placed.
pub open spec fn span_of(
    kind: SourceKind,
    start: usize,
    end: usize,
    last_token_end: Option<u64>,
) -> Option<(int, int, bool)> {
    match kind {
        SourceKind::File(offset) => if offset <= start && offset <= end {
            Some((start - offset, end - offset, false))
        } else {
            None
        },
        SourceKind::Semicolon => match last_token_end {
            Some(t) => if t <= usize::MAX {
                Some((t as int, t as int, true))
            } else {
                None
            },
            None => None,
        },
        SourceKind::Other => None,
    }
}

pub fn error_span(kind: &SourceKind, start: usize, end: usize, last_token_end: Option<u64>) -> (r:
    Option<ErrorSpan>)
    ensures
        match span_of(*kind, start, end, last_token_end) {
            Some((s, e, eof)) => r matches Some(x) && x.start == s && x.end == e && x.eof == eof,
            None => r is None,
        },
{
    match kind {
        SourceKind::File(offset) => if *offset <= start && *offset <= end {
            Some(ErrorSpan { start: start - *offset, end: end - *offset, eof: false })
        } else {
            None
        },
        SourceKind::Semicolon => match last_token_end {
            Some(t) => if t <= usize::MAX as u64 {
                Some(ErrorSpan { start: t as usize, end: t as usize, eof: true })
            } else {
                None
            },
            None => None,
        },
        SourceKind::Other => None,
    }
}

/// The headline of the report: at the end of the file it says so.
pub fn error_message(eof: bool, message: &str) -> (r: String)
    ensures
        r@ == if eof {
            "Unexpected end of file"@
        } else {
            message@
        },
{
    if eof {
        String::from_str("Unexpected end of file")
    } else {
        String::from_str(message)
    }
}

/// Whether the server traceback is shown for an error code.
pub fn shows_traceback(code: u32) -> (r: bool)
    ensures
        r == (code == INTERNAL_SERVER_ERROR),
{
    code == INTERNAL_SERVER_ERROR
}

} // verus!
