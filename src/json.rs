use vstd::prelude::*;

use crate::config::{width_of, Config};
use crate::doc::{Doc, Tok, Token};
use crate::literal::{hex_char, string_of, write_chars};
use crate::render::{layout, render};
use crate::value::separator;

verus! {

broadcast use vstd::std_specs::vec::axiom_vec_index_decreases;

/// A parsed JSON value; numbers keep their literal text.
pub enum Json {
    Null,
    Bool(bool),
    Number(String),
    Str(String),
    Array(Vec<Json>),
    Object(Vec<(String, Json)>),
}

/// How one character is written inside a JSON string.
pub open spec fn json_escape_char(c: char) -> Seq<char> {
    if c == '"' {
        seq!['\\', '"']
    } else if c == '\\' {
        seq!['\\', '\\']
    } else if c == '\n' {
        seq!['\\', 'n']
    } else if c == '\r' {
        seq!['\\', 'r']
    } else if c == '\t' {
        seq!['\\', 't']
    } else if c == '\x08' {
        seq!['\\', 'b']
    } else if c == '\x0c' {
        seq!['\\', 'f']
    } else if (c as u32) < 32 {
        seq!['\\', 'u', '0', '0', hex_char((c as u32 / 16) as nat), hex_char((c as u32 % 16) as nat)]
    } else {
        seq![c]
    }
}

pub open spec fn json_escape(s: Seq<char>) -> Seq<char>
    decreases s.len(),
{
    if s.len() == 0 {
        Seq::empty()
    } else {
        json_escape_char(s[0]) + json_escape(s.drop_first())
    }
}

pub open spec fn quoted(s: Seq<char>) -> Seq<char> {
    seq!['"'] + json_escape(s) + seq!['"']
}

/// Delimiters and indentation around `n` JSON elements.
pub open spec fn json_frame(open: char, close: char, body: Seq<Tok>, n: nat) -> Seq<Tok> {
    seq![Tok::GroupStart, Tok::Text(seq![open]), Tok::NestStart] + body + seq![Tok::NestEnd] + (
    if n > 0 {
        seq![Tok::SoftLine]
    } else {
        Seq::empty()
    }) + seq![Tok::Text(seq![close]), Tok::GroupEnd]
}

/// The layout document of a JSON value.
pub open spec fn json_doc(j: Json) -> Seq<Tok>
    decreases j, 0nat,
{
    match j {
        Json::Null => seq![Tok::Text(seq!['n', 'u', 'l', 'l'])],
        Json::Bool(b) => seq![
            Tok::Text(
                if b {
                    seq!['t', 'r', 'u', 'e']
                } else {
                    seq!['f', 'a', 'l', 's', 'e']
                },
            ),
        ],
        Json::Number(n) => seq![Tok::Text(n@)],
        Json::Str(s) => seq![Tok::Text(quoted(s@))],
        Json::Array(items) => json_frame('[', ']', json_items(items, 0), items@.len()),
        Json::Object(entries) => json_frame('{', '}', json_entries(entries, 0), entries@.len()),
    }
}

pub open spec fn json_items(items: Vec<Json>, k: int) -> Seq<Tok>
    decreases items, items@.len() - k,
{
    if k < 0 || k >= items@.len() {
        Seq::empty()
    } else {
        separator(k == 0) + json_doc(items[k]) + json_items(items, k + 1)
    }
}

pub open spec fn json_entries(entries: Vec<(String, Json)>, k: int) -> Seq<Tok>
    decreases entries, entries@.len() - k,
{
    if k < 0 || k >= entries@.len() {
        Seq::empty()
    } else {
        separator(k == 0) + seq![Tok::Text(quoted(entries[k].0@) + seq![':', ' '])] + json_doc(
            entries[k].1,
        ) + json_entries(entries, k + 1)
    }
}

/// The text of a JSON array of items.
pub open spec fn json_text(items: Vec<Json>, cfg: Config) -> Seq<char> {
    layout(json_frame('[', ']', json_items(items, 0), items@.len()), width_of(cfg), cfg.indent as int)
}

fn write_quoted(out: &mut Vec<char>, s: &str)
    ensures
        final(out)@ == old(out)@ + quoted(s@),
{
    out.push('"');
    let ghost start = out@;
    let n = s.unicode_len();
    let mut k: usize = 0;
    assert(s@.subrange(0, n as int) =~= s@);
    while k < n
        invariant
            n == s@.len(),
            k <= n,
            out@ + json_escape(s@.subrange(k as int, n as int)) == start + json_escape(s@),
        decreases n - k,
    {
        let ghost before = out@;
        let ghost rest = s@.subrange(k as int, n as int);
        assert(rest.drop_first() =~= s@.subrange(k + 1, n as int));
        let c = s.get_char(k);
        if c == '"' {
            out.push('\\');
            out.push('"');
        } else if c == '\\' {
            out.push('\\');
            out.push('\\');
        } else if c == '\n' {
            out.push('\\');
            out.push('n');
        } else if c == '\r' {
            out.push('\\');
            out.push('r');
        } else if c == '\t' {
            out.push('\\');
            out.push('t');
        } else if c == '\x08' {
            out.push('\\');
            out.push('b');
        } else if c == '\x0c' {
            out.push('\\');
            out.push('f');
        } else if (c as u32) < 32 {
            let v = c as u32;
            out.push('\\');
            out.push('u');
            out.push('0');
            out.push('0');
            let hi = (v / 16) as u8;
            let lo = (v % 16) as u8;
            out.push(if hi < 10 { (hi + 48) as char } else { (hi + 87) as char });
            out.push(if lo < 10 { (lo + 48) as char } else { (lo + 87) as char });
        } else {
            out.push(c);
        }
        assert(out@ =~= before + json_escape_char(c));
        assert(out@ + json_escape(s@.subrange(k + 1, n as int)) =~= before + json_escape(rest));
        k += 1;
    }
    assert(s@.subrange(n as int, n as int) =~= Seq::<char>::empty());
    out.push('"');
    assert(out@ =~= old(out)@ + quoted(s@));
}

fn push_separator(doc: &mut Doc, first: bool)
    ensures
        final(doc)@ == old(doc)@ + separator(first),
{
    if first {
        doc.push(Token::SoftLine);
    } else {
        proof {
            reveal_strlit(",");
        }
        doc.text(",");
        assert(","@ =~= seq![',']);
        doc.push(Token::Line);
    }
    assert(final(doc)@ =~= old(doc)@ + separator(first));
}

fn push_char(doc: &mut Doc, c: char)
    ensures
        final(doc)@ == old(doc)@.push(Tok::Text(seq![c])),
{
    let mut v: Vec<char> = Vec::new();
    v.push(c);
    assert(v@ =~= seq![c]);
    doc.push(Token::Text(string_of(&v)));
}

fn close_frame(doc: &mut Doc, close: char, n: usize)
    ensures
        final(doc)@ == old(doc)@ + seq![Tok::NestEnd] + (if n > 0 {
            seq![Tok::SoftLine]
        } else {
            Seq::empty()
        }) + seq![Tok::Text(seq![close]), Tok::GroupEnd],
{
    doc.push(Token::NestEnd);
    if n > 0 {
        doc.push(Token::SoftLine);
    }
    push_char(doc, close);
    doc.push(Token::GroupEnd);
    assert(final(doc)@ =~= old(doc)@ + seq![Tok::NestEnd] + (if n > 0 {
        seq![Tok::SoftLine]
    } else {
        Seq::empty()
    }) + seq![Tok::Text(seq![close]), Tok::GroupEnd]);
}

fn write_json_items(doc: &mut Doc, items: &Vec<Json>)
    ensures
        final(doc)@ == old(doc)@ + json_items(*items, 0),
    decreases items, 0nat,
{
    let mut k: usize = 0;
    while k < items.len()
        invariant
            k <= items@.len(),
            doc@ + json_items(*items, k as int) == old(doc)@ + json_items(*items, 0),
        decreases items@.len() - k,
    {
        let ghost before = doc@;
        push_separator(doc, k == 0);
        write_json(doc, &items[k]);
        assert(doc@ + json_items(*items, k + 1) =~= before + json_items(*items, k as int));
        k += 1;
    }
    assert(doc@ =~= doc@ + json_items(*items, k as int));
}

fn write_json_entries(doc: &mut Doc, entries: &Vec<(String, Json)>)
    ensures
        final(doc)@ == old(doc)@ + json_entries(*entries, 0),
    decreases entries, 0nat,
{
    let mut k: usize = 0;
    while k < entries.len()
        invariant
            k <= entries@.len(),
            doc@ + json_entries(*entries, k as int) == old(doc)@ + json_entries(*entries, 0),
        decreases entries@.len() - k,
    {
        let ghost before = doc@;
        push_separator(doc, k == 0);
        let mut key: Vec<char> = Vec::new();
        write_quoted(&mut key, entries[k].0.as_str());
        key.push(':');
        key.push(' ');
        assert(key@ =~= quoted(entries@[k as int].0@) + seq![':', ' ']);
        doc.push(Token::Text(string_of(&key)));
        let ghost mid = doc@;
        write_json(doc, &entries[k].1);
        assert(doc@ =~= before + separator(k == 0) + seq![
            Tok::Text(quoted(entries@[k as int].0@) + seq![':', ' ']),
        ] + json_doc(entries@[k as int].1));
        assert(doc@ + json_entries(*entries, k + 1) =~= before + json_entries(*entries, k as int));
        k += 1;
    }
    assert(doc@ =~= doc@ + json_entries(*entries, k as int));
}

/// Appends the document of a JSON value.
pub fn write_json(doc: &mut Doc, j: &Json)
    ensures
        final(doc)@ == old(doc)@ + json_doc(*j),
    decreases j, 2nat,
{
    proof {
        reveal_strlit("null");
        reveal_strlit("true");
        reveal_strlit("false");
    }
    let ghost base = doc@;
    match j {
        Json::Null => {
            doc.text("null");
            assert("null"@ =~= seq!['n', 'u', 'l', 'l']);
            assert(doc@ =~= base + json_doc(*j));
        },
        Json::Bool(b) => {
            if *b {
                doc.text("true");
                assert("true"@ =~= seq!['t', 'r', 'u', 'e']);
            } else {
                doc.text("false");
                assert("false"@ =~= seq!['f', 'a', 'l', 's', 'e']);
            }
            assert(doc@ =~= base + json_doc(*j));
        },
        Json::Number(n) => {
            doc.text(n.as_str());
            assert(doc@ =~= base + json_doc(*j));
        },
        Json::Str(s) => {
            let mut c: Vec<char> = Vec::new();
            write_quoted(&mut c, s.as_str());
            doc.push(Token::Text(string_of(&c)));
            assert(doc@ =~= base + json_doc(*j));
        },
        Json::Array(items) => {
            doc.push(Token::GroupStart);
            push_char(doc, '[');
            doc.push(Token::NestStart);
            write_json_items(doc, items);
            close_frame(doc, ']', items.len());
            assert(doc@ =~= base + json_doc(*j));
        },
        Json::Object(entries) => {
            doc.push(Token::GroupStart);
            push_char(doc, '{');
            doc.push(Token::NestStart);
            write_json_entries(doc, entries);
            close_frame(doc, '}', entries.len());
            assert(doc@ =~= base + json_doc(*j));
        },
    }
}

/// Renders JSON items as one JSON array.
pub fn json_to_string(items: &Vec<Json>, cfg: &Config) -> (r: String)
    ensures
        r@ == json_text(*items, *cfg),
{
    let mut doc = Doc::new();
    doc.push(Token::GroupStart);
    push_char(&mut doc, '[');
    doc.push(Token::NestStart);
    write_json_items(&mut doc, items);
    close_frame(&mut doc, ']', items.len());
    assert(doc@ =~= json_frame('[', ']', json_items(*items, 0), items@.len()));
    render(&doc, cfg.width(), cfg.indent)
}

} // verus!
