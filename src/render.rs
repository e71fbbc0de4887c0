use vstd::prelude::*;

use crate::doc::{Doc, Tok, Token};

verus! {

/// Columns and indentation saturate at the largest `usize`.
pub open spec fn cap(x: int) -> int {
    if x > usize::MAX as int {
        usize::MAX as int
    } else {
        x
    }
}

pub open spec fn spaces(n: int) -> Seq<char> {
    Seq::new(n as nat, |_i: int| ' ')
}

/// Whether a group's content from `j` on, up to the group's end, renders
/// flat within `room` columns.
pub open spec fn fits(toks: Seq<Tok>, j: int, depth: nat, room: int) -> bool
    decreases toks.len() - j,
{
    if j < 0 || j >= toks.len() {
        true
    } else {
        match toks[j] {
            Tok::GroupEnd => if depth == 0 {
                true
            } else {
                fits(toks, j + 1, (depth - 1) as nat, room)
            },
            Tok::GroupStart => fits(toks, j + 1, depth + 1, room),
            Tok::Text(s) => s.len() <= room && fits(toks, j + 1, depth, room - s.len()),
            Tok::Verbatim(s) => !s.contains('\n') && s.len() <= room && fits(
                toks,
                j + 1,
                depth,
                room - s.len(),
            ),
            Tok::Line => 1 <= room && fits(toks, j + 1, depth, room - 1),
            Tok::Alt(f, _) => f.len() <= room && fits(toks, j + 1, depth, room - f.len()),
            Tok::Note(_) => false,
            _ => fits(toks, j + 1, depth, room),
        }
    }
}

/// The column after writing `s` from column `col`.
pub open spec fn col_after(s: Seq<char>, col: int) -> int
    decreases s.len(),
{
    if s.len() == 0 {
        col
    } else {
        col_after(
            s.drop_first(),
            if s[0] == '\n' {
                0
            } else {
                cap(col + 1)
            },
        )
    }
}

pub struct RenderState {
    pub col: int,
    pub level: nat,
    /// One entry per open group: `true` where it renders flat.
    pub modes: Seq<bool>,
}

pub open spec fn is_flat(modes: Seq<bool>) -> bool {
    modes.len() > 0 && modes.last()
}

pub open spec fn line_break(level: nat, indent: int) -> Seq<char> {
    seq!['\n'] + spaces(cap(level * indent))
}

/// The text that token `j` writes.
pub open spec fn step_out(toks: Seq<Tok>, j: int, st: RenderState, indent: int) -> Seq<char> {
    let flat = is_flat(st.modes);
    match toks[j] {
        Tok::Text(s) => s,
        Tok::Verbatim(s) => s,
        Tok::Line => if flat {
            seq![' ']
        } else {
            line_break(st.level, indent)
        },
        Tok::SoftLine => if flat {
            Seq::empty()
        } else {
            line_break(st.level, indent)
        },
        Tok::Alt(f, b) => if flat {
            f
        } else {
            b
        },
        Tok::Note(s) => if flat {
            Seq::empty()
        } else {
            s
        },
        Tok::Style(s) => s,
        _ => Seq::empty(),
    }
}

/// The state after token `j`.
pub open spec fn step_state(
    toks: Seq<Tok>,
    j: int,
    st: RenderState,
    width: int,
    indent: int,
) -> RenderState {
    let flat = is_flat(st.modes);
    let out = step_out(toks, j, st, indent);
    match toks[j] {
        Tok::GroupStart => RenderState {
            modes: st.modes.push(
                flat || (st.col <= width && fits(toks, j + 1, 0, width - st.col)),
            ),
            ..st
        },
        Tok::GroupEnd => RenderState {
            modes: if st.modes.len() > 0 {
                st.modes.drop_last()
            } else {
                st.modes
            },
            ..st
        },
        Tok::NestStart => RenderState { level: st.level + 1, ..st },
        Tok::NestEnd => RenderState {
            level: if st.level > 0 {
                (st.level - 1) as nat
            } else {
                0
            },
            ..st
        },
        Tok::Line => if flat {
            RenderState { col: cap(st.col + 1), ..st }
        } else {
            RenderState { col: cap(st.level * indent), ..st }
        },
        Tok::SoftLine => if flat {
            st
        } else {
            RenderState { col: cap(st.level * indent), ..st }
        },
        Tok::Style(_) => st,
        _ => RenderState { col: col_after(out, st.col), ..st },
    }
}

pub open spec fn render_from(
    toks: Seq<Tok>,
    j: int,
    width: int,
    indent: int,
    st: RenderState,
) -> Seq<char>
    decreases toks.len() - j,
{
    if j < 0 || j >= toks.len() {
        Seq::empty()
    } else {
        step_out(toks, j, st, indent) + render_from(
            toks,
            j + 1,
            width,
            indent,
            step_state(toks, j, st, width, indent),
        )
    }
}

pub open spec fn start_state() -> RenderState {
    RenderState { col: 0, level: 0, modes: Seq::empty() }
}

/// The text of a document laid out at `width` columns with `indent`
/// spaces per nesting level.
pub open spec fn layout(toks: Seq<Tok>, width: int, indent: int) -> Seq<char> {
    render_from(toks, 0, width, indent, start_state())
}

pub fn has_newline(s: &String) -> (r: bool)
    ensures
        r == s@.contains('\n'),
{
    let t = s.as_str();
    let n = t.unicode_len();
    let mut k: usize = 0;
    while k < n
        invariant
            n == s@.len(),
            t@ == s@,
            k <= n,
            forall|m: int| 0 <= m < k ==> s@[m] != '\n',
        decreases n - k,
    {
        if t.get_char(k) == '\n' {
            return true;
        }
        k += 1;
    }
    false
}

fn advance(s: &String, col: usize) -> (r: usize)
    ensures
        r == col_after(s@, col as int),
{
    let t = s.as_str();
    let n = t.unicode_len();
    let mut k: usize = 0;
    let mut c: usize = col;
    assert(s@.subrange(0, n as int) =~= s@);
    while k < n
        invariant
            n == s@.len(),
            t@ == s@,
            k <= n,
            col_after(s@, col as int) == col_after(s@.subrange(k as int, n as int), c as int),
        decreases n - k,
    {
        assert(s@.subrange(k as int, n as int).drop_first() =~= s@.subrange(k + 1, n as int));
        if t.get_char(k) == '\n' {
            c = 0;
        } else {
            c = c.saturating_add(1);
        }
        k += 1;
    }
    assert(s@.subrange(n as int, n as int).len() == 0);
    c
}

fn group_fits(doc: &Doc, start: usize, room: usize) -> (r: bool)
    ensures
        r == fits(doc@, start as int, 0, room as int),
{
    let mut j: usize = start;
    let mut depth: usize = 0;
    let mut left: usize = room;
    while j < doc.tokens.len()
        invariant
            doc@.len() == doc.tokens@.len(),
            depth <= j,
            fits(doc@, start as int, 0, room as int) == fits(
                doc@,
                j as int,
                depth as nat,
                left as int,
            ),
        decreases doc.tokens.len() - j,
    {
        assert(doc@[j as int] == doc.tokens@[j as int]@);
        match &doc.tokens[j] {
            Token::GroupEnd => {
                if depth == 0 {
                    return true;
                }
                depth -= 1;
            },
            Token::GroupStart => {
                depth += 1;
            },
            Token::Text(s) => {
                let n = s.as_str().unicode_len();
                if n > left {
                    return false;
                }
                left -= n;
            },
            Token::Verbatim(s) => {
                if has_newline(s) {
                    return false;
                }
                let n = s.as_str().unicode_len();
                if n > left {
                    return false;
                }
                left -= n;
            },
            Token::Line => {
                if left == 0 {
                    return false;
                }
                left -= 1;
            },
            Token::Alt(f, _) => {
                let n = f.as_str().unicode_len();
                if n > left {
                    return false;
                }
                left -= n;
            },
            Token::Note(_) => {
                return false;
            },
            _ => {},
        }
        j += 1;
    }
    true
}

fn write_break(out: &mut String, level: usize, indent: usize) -> (col: usize)
    ensures
        final(out)@ == old(out)@ + line_break(level as nat, indent as int),
        col == cap(level * indent),
{
    proof {
        reveal_strlit("\n");
        reveal_strlit(" ");
    }
    out.append("\n");
    let n: usize = match level.checked_mul(indent) {
        Some(m) => m,
        None => usize::MAX,
    };
    let ghost base = out@;
    let mut k: usize = 0;
    while k < n
        invariant
            k <= n,
            out@ == base + spaces(k as int),
        decreases n - k,
    {
        proof {
            reveal_strlit(" ");
        }
        out.append(" ");
        assert(out@ =~= base + spaces(k + 1));
        k += 1;
    }
    assert(old(out)@ + line_break(level as nat, indent as int) =~= base + spaces(n as int));
    n
}

/// Lays out a document at `width` columns, `indent` spaces per level.
pub fn render(doc: &Doc, width: usize, indent: usize) -> (r: String)
    ensures
        r@ == layout(doc@, width as int, indent as int),
{
    let mut out = String::new();
    let mut col: usize = 0;
    let mut level: usize = 0;
    let mut modes: Vec<bool> = Vec::new();
    let mut i: usize = 0;
    while i < doc.tokens.len()
        invariant
            doc@.len() == doc.tokens@.len(),
            level <= i,
            out@ + render_from(
                doc@,
                i as int,
                width as int,
                indent as int,
                RenderState { col: col as int, level: level as nat, modes: modes@ },
            ) == layout(doc@, width as int, indent as int),
        decreases doc.tokens.len() - i,
    {
        let ghost st = RenderState { col: col as int, level: level as nat, modes: modes@ };
        let ghost before = out@;
        assert(doc@[i as int] == doc.tokens@[i as int]@);
        proof {
            reveal_strlit(" ");
        }
        let flat = modes.len() > 0 && modes[modes.len() - 1];
        assert(flat == is_flat(modes@));
        match &doc.tokens[i] {
            Token::Text(s) => {
                out.append(s.as_str());
                col = advance(s, col);
            },
            Token::Verbatim(s) => {
                out.append(s.as_str());
                col = advance(s, col);
            },
            Token::Line => {
                if flat {
                    out.append(" ");
                    col = col.saturating_add(1);
                } else {
                    col = write_break(&mut out, level, indent);
                }
            },
            Token::SoftLine => {
                if !flat {
                    col = write_break(&mut out, level, indent);
                }
            },
            Token::Alt(f, b) => {
                if flat {
                    out.append(f.as_str());
                    col = advance(f, col);
                } else {
                    out.append(b.as_str());
                    col = advance(b, col);
                }
            },
            Token::Note(s) => {
                if !flat {
                    out.append(s.as_str());
                    col = advance(s, col);
                } else {
                    proof {
                        assert(col_after(Seq::<char>::empty(), col as int) == col as int);
                    }
                }
            },
            Token::Style(s) => {
                out.append(s.as_str());
            },
            Token::GroupStart => {
                let m = flat || (col <= width && group_fits(doc, i + 1, width - col));
                modes.push(m);
            },
            Token::GroupEnd => {
                if modes.len() > 0 {
                    modes.pop();
                }
            },
            Token::NestStart => {
                level += 1;
            },
            Token::NestEnd => {
                if level > 0 {
                    level -= 1;
                }
            },
        }
        proof {
            let st2 = RenderState { col: col as int, level: level as nat, modes: modes@ };
            assert(st2 == step_state(doc@, i as int, st, width as int, indent as int));
            assert(out@ == before + step_out(doc@, i as int, st, indent as int));
            assert(out@ + render_from(doc@, i + 1, width as int, indent as int, st2) =~= before
                + render_from(doc@, i as int, width as int, indent as int, st));
        }
        i += 1;
    }
    out
}

} // verus!
