use vstd::prelude::*;

use crate::config::Config;
use crate::datetime::{datetime_text, write_datetime, Datetime};
use crate::doc::{Doc, Tok, Token};
use crate::literal::{
    escape, escape_bytes, int_text, nat_text, string_of, write_chars, write_escaped,
    write_escaped_bytes, write_int, write_nat,
};
use crate::render::has_newline;
use crate::numeric::{bigint_text, decimal_text, write_bigint, write_decimal, BigInt, Decimal};

verus! {

broadcast use vstd::std_specs::vec::axiom_vec_index_decreases;

/// Describes one field of an object.
pub struct ShapeElement {
    pub flag_implicit: bool,
    pub flag_link_property: bool,
    pub flag_link: bool,
    pub name: String,
}

/// The ordered fields of an object.
pub struct ObjectShape {
    pub elements: Vec<ShapeElement>,
}

impl ObjectShape {
    pub fn new(elements: Vec<ShapeElement>) -> (r: ObjectShape)
        ensures
            r.elements == elements,
    {
        ObjectShape { elements }
    }
}

/// A typed query result.
pub enum Value {
    Nothing,
    Int16(i16),
    Int32(i32),
    Int64(i64),
    BigInt(BigInt),
    Decimal(Decimal),
    Datetime(Datetime),
    Str(String),
    Bytes(Vec<u8>),
    Array(Vec<Value>),
    SetOf(Vec<Value>),
    Object { shape: ObjectShape, fields: Vec<Option<Value>> },
}

/// How many elements of a container of `n` are shown: all within the
/// limit, else the limit, and never none of a non-empty container.
pub open spec fn shown_count(n: nat, limit: Option<usize>) -> nat {
    match limit {
        None => n,
        Some(k) => if n <= k {
            n
        } else if k == 0 {
            1
        } else {
            k as nat
        },
    }
}

pub open spec fn limit_note(k: nat) -> Seq<char> {
    "... (further results hidden `\\set limit "@ + nat_text(k) + seq!['`', ')']
}

/// The marker after a truncated container: for the top-level result a
/// note that forces its group to break, else `...` that reads as the note
/// when broken.
pub open spec fn marker(k: nat, top: bool) -> Tok {
    if top {
        Tok::Note(limit_note(k))
    } else {
        Tok::Alt(seq!['.', '.', '.'], limit_note(k))
    }
}

pub open spec fn limit_of(limit: Option<usize>) -> nat {
    match limit {
        Some(k) => k as nat,
        None => 0,
    }
}

pub open spec fn separator(first: bool) -> Seq<Tok> {
    if first {
        seq![Tok::SoftLine]
    } else {
        seq![Tok::Text(seq![',']), Tok::Line]
    }
}

/// Delimiters, indentation and the end of a container whose element
/// documents are `body`.
pub open spec fn frame(
    open: Seq<char>,
    close: Seq<char>,
    body: Seq<Tok>,
    n: nat,
    shown: nat,
    limit: Option<usize>,
    top: bool,
) -> Seq<Tok> {
    seq![Tok::GroupStart, Tok::Text(open), Tok::NestStart] + body + (if shown < n {
        seq![Tok::Text(seq![',']), Tok::Line, marker(limit_of(limit), top)]
    } else if n > 0 {
        seq![Tok::Alt(Seq::empty(), seq![','])]
    } else {
        Seq::empty()
    }) + seq![Tok::NestEnd] + (if n > 0 {
        seq![Tok::SoftLine]
    } else {
        Seq::empty()
    }) + seq![Tok::Text(close), Tok::GroupEnd]
}

pub open spec fn field_name(e: ShapeElement) -> Seq<char> {
    (if e.flag_link_property {
        seq!['@']
    } else {
        Seq::empty()
    }) + e.name@ + seq![':', ' ']
}

pub open spec fn visible(e: ShapeElement, cfg: Config) -> bool {
    !e.flag_implicit || cfg.implicit_properties
}

pub open spec fn string_doc(s: Seq<char>, cfg: Config) -> Tok {
    if cfg.expand_strings && s.contains('\n') {
        Tok::Verbatim(seq!['\''] + s + seq!['\''])
    } else {
        Tok::Text(seq!['\''] + escape(s) + seq!['\''])
    }
}

pub open spec fn reset_style() -> Seq<char> {
    seq!['\x1b', '[', '0', 'm']
}

/// Green for text and bytes, cyan for other literals.
pub open spec fn scalar_style(v: Value) -> Seq<char> {
    match v {
        Value::Str(_) => seq!['\x1b', '[', '3', '2', 'm'],
        Value::Bytes(_) => seq!['\x1b', '[', '3', '2', 'm'],
        _ => seq!['\x1b', '[', '3', '6', 'm'],
    }
}

/// Tokens set in a style when colors are on.
pub open spec fn styled(cfg: Config, style: Seq<char>, toks: Seq<Tok>) -> Seq<Tok> {
    if cfg.colors == Some(true) {
        seq![Tok::Style(style)] + toks + seq![Tok::Style(reset_style())]
    } else {
        toks
    }
}

/// The document of a literal, before any style.
pub open spec fn scalar_doc(v: Value, cfg: Config) -> Seq<Tok> {
    match v {
        Value::Nothing => seq![Tok::Text(seq!['{', '}'])],
        Value::Int16(n) => seq![Tok::Text(int_text(n as int))],
        Value::Int32(n) => seq![Tok::Text(int_text(n as int))],
        Value::Int64(n) => seq![Tok::Text(int_text(n as int))],
        Value::BigInt(b) => seq![Tok::Text(bigint_text(b.negative, b.digits@))],
        Value::Decimal(d) => seq![Tok::Text(decimal_text(d.negative, d.digits@, d.exponent as int))],
        Value::Datetime(t) => seq![
            Tok::Text("<datetime>'"@ + datetime_text(t.micros as int) + seq!['\''])
        ],
        Value::Str(s) => seq![string_doc(s@, cfg)],
        Value::Bytes(b) => seq![Tok::Text(seq!['b', '\''] + escape_bytes(b@) + seq!['\''])],
        _ => Seq::empty(),
    }
}

/// The layout document of a value.
pub open spec fn value_doc(v: Value, cfg: Config) -> Seq<Tok>
    decreases v, 0nat,
{
    match v {
        Value::Array(items) => {
            let shown = shown_count(items@.len(), cfg.max_items);
            frame(
                seq!['['],
                seq![']'],
                elements_doc(items, 0, shown as int, cfg),
                items@.len(),
                shown,
                cfg.max_items,
                false,
            )
        },
        Value::SetOf(items) => {
            let shown = shown_count(items@.len(), cfg.max_items);
            frame(
                seq!['{'],
                seq!['}'],
                elements_doc(items, 0, shown as int, cfg),
                items@.len(),
                shown,
                cfg.max_items,
                false,
            )
        },
        Value::Object { shape, fields } => {
            let f = fields_doc(shape.elements@, fields, 0, true, cfg);
            seq![Tok::GroupStart, Tok::Text("Object {"@), Tok::NestStart] + f + (if f.len() > 0 {
                seq![Tok::Alt(Seq::empty(), seq![','])]
            } else {
                Seq::empty()
            }) + seq![Tok::NestEnd] + (if f.len() > 0 {
                seq![Tok::SoftLine]
            } else {
                Seq::empty()
            }) + seq![Tok::Text(seq!['}']), Tok::GroupEnd]
        },
        _ => styled(cfg, scalar_style(v), scalar_doc(v, cfg)),
    }
}

/// Elements `k` up to `shown` of a container, each after its separator.
pub open spec fn elements_doc(items: Vec<Value>, k: int, shown: int, cfg: Config) -> Seq<Tok>
    decreases items, shown - k,
{
    if k < 0 || k >= shown || k >= items.len() {
        Seq::empty()
    } else {
        separator(k == 0) + value_doc(items[k], cfg) + elements_doc(items, k + 1, shown, cfg)
    }
}

/// The visible fields from `k` on, each after its separator.
pub open spec fn fields_doc(
    shape: Seq<ShapeElement>,
    fields: Vec<Option<Value>>,
    k: int,
    first: bool,
    cfg: Config,
) -> Seq<Tok>
    decreases fields, fields.len() - k,
{
    if k < 0 || k >= fields.len() {
        Seq::empty()
    } else if k < shape.len() && visible(shape[k], cfg) {
        separator(first) + seq![Tok::Text(field_name(shape[k]))] + match fields[k] {
            Some(x) => value_doc(x, cfg),
            None => seq![Tok::Text(seq!['{', '}'])],
        } + fields_doc(shape, fields, k + 1, false, cfg)
    } else {
        fields_doc(shape, fields, k + 1, first, cfg)
    }
}

fn push_chars(doc: &mut Doc, chars: &Vec<char>)
    ensures
        final(doc)@ == old(doc)@.push(Tok::Text(chars@)),
{
    doc.push(Token::Text(string_of(chars)));
}

fn push_separator(doc: &mut Doc, first: bool)
    ensures
        final(doc)@ == old(doc)@ + separator(first),
{
    if first {
        doc.push(Token::SoftLine);
    } else {
        proof {
            reveal_strlit(",");
        }
        doc.text(",");
        assert(","@ =~= seq![',']);
        doc.push(Token::Line);
    }
    assert(final(doc)@ =~= old(doc)@ + separator(first));
}

fn shown_of(n: usize, limit: Option<usize>) -> (r: usize)
    ensures
        r == shown_count(n as nat, limit),
        r <= n,
{
    match limit {
        None => n,
        Some(k) => if n <= k {
            n
        } else if k == 0 {
            1
        } else {
            k
        },
    }
}

fn note_text(k: usize) -> (r: String)
    ensures
        r@ == limit_note(k as nat),
{
    let mut chars: Vec<char> = Vec::new();
    write_chars(&mut chars, "... (further results hidden `\\set limit ");
    write_nat(&mut chars, k as u128);
    chars.push('`');
    chars.push(')');
    assert(chars@ =~= limit_note(k as nat));
    string_of(&chars)
}

fn push_marker(doc: &mut Doc, k: usize, top: bool)
    ensures
        final(doc)@ == old(doc)@.push(marker(k as nat, top)),
{
    proof {
        reveal_strlit("...");
    }
    let note = note_text(k);
    if top {
        doc.push(Token::Note(note));
    } else {
        let dots = String::from_str("...");
        assert(dots@ =~= seq!['.', '.', '.']);
        doc.push(Token::Alt(dots, note));
    }
}

/// Appends the document of a container of `n` elements, of which the first
/// `shown` stand in `items`.
pub fn write_frame(
    doc: &mut Doc,
    open: &str,
    close: &str,
    items: &Vec<Value>,
    shown: usize,
    n: usize,
    limit: Option<usize>,
    top: bool,
    cfg: &Config,
)
    requires
        shown <= items@.len(),
        shown <= n,
    ensures
        final(doc)@ == old(doc)@ + frame(
            open@,
            close@,
            elements_doc(*items, 0, shown as int, *cfg),
            n as nat,
            shown as nat,
            limit,
            top,
        ),
    decreases items, 1nat,
{
    proof {
        reveal_strlit(",");
    }
    let ghost base = doc@;
    doc.push(Token::GroupStart);
    doc.text(open);
    doc.push(Token::NestStart);
    let ghost a = doc@;
    write_elements(doc, items, shown, cfg);
    let ghost b = doc@;
    if shown < n {
        doc.text(",");
        assert(","@ =~= seq![',']);
        doc.push(Token::Line);
        let k = match limit {
            Some(k) => k,
            None => 0,
        };
        push_marker(doc, k, top);
        assert(doc@ =~= b + seq![Tok::Text(seq![',']), Tok::Line, marker(limit_of(limit), top)]);
    } else if n > 0 {
        let e = String::new();
        let c = String::from_str(",");
        assert(e@ =~= Seq::<char>::empty());
        assert(c@ =~= seq![',']);
        doc.push(Token::Alt(e, c));
        assert(doc@ =~= b + seq![Tok::Alt(Seq::empty(), seq![','])]);
    } else {
        assert(doc@ =~= b + Seq::<Tok>::empty());
    }
    let ghost c = doc@;
    doc.push(Token::NestEnd);
    if n > 0 {
        doc.push(Token::SoftLine);
    }
    doc.text(close);
    doc.push(Token::GroupEnd);
    assert(doc@ =~= old(doc)@ + frame(
        open@,
        close@,
        elements_doc(*items, 0, shown as int, *cfg),
        n as nat,
        shown as nat,
        limit,
        top,
    ));
}

/// Appends the document of a container: its delimiters and its elements,
/// truncated to `limit`.
pub fn write_container(
    doc: &mut Doc,
    open: &str,
    close: &str,
    items: &Vec<Value>,
    limit: Option<usize>,
    top: bool,
    cfg: &Config,
)
    ensures
        final(doc)@ == old(doc)@ + frame(
            open@,
            close@,
            elements_doc(
                *items,
                0,
                shown_count(items@.len(), limit) as int,
                *cfg,
            ),
            items@.len(),
            shown_count(items@.len(), limit),
            limit,
            top,
        ),
    decreases items, 2nat,
{
    let n = items.len();
    let shown = shown_of(n, limit);
    write_frame(doc, open, close, items, shown, n, limit, top, cfg);
}

fn write_elements(doc: &mut Doc, items: &Vec<Value>, shown: usize, cfg: &Config)
    requires
        shown <= items@.len(),
    ensures
        final(doc)@ == old(doc)@ + elements_doc(*items, 0, shown as int, *cfg),
    decreases items, 0nat,
{
    let mut k: usize = 0;
    while k < shown
        invariant
            k <= shown <= items@.len(),
            doc@ + elements_doc(*items, k as int, shown as int, *cfg) == old(doc)@ + elements_doc(
                *items,
                0,
                shown as int,
                *cfg,
            ),
        decreases shown - k,
    {
        let ghost before = doc@;
        push_separator(doc, k == 0);
        write_value(doc, &items[k], cfg);
        assert(doc@ + elements_doc(*items, k + 1, shown as int, *cfg) =~= before + elements_doc(
            *items,
            k as int,
            shown as int,
            *cfg,
        ));
        k += 1;
    }
    assert(doc@ =~= doc@ + elements_doc(*items, k as int, shown as int, *cfg));
}

fn field_name_text(e: &ShapeElement) -> (r: Vec<char>)
    ensures
        r@ == field_name(*e),
{
    let mut chars: Vec<char> = Vec::new();
    if e.flag_link_property {
        chars.push('@');
    }
    write_chars(&mut chars, e.name.as_str());
    chars.push(':');
    chars.push(' ');
    assert(chars@ =~= field_name(*e));
    chars
}

fn write_fields(
    doc: &mut Doc,
    shape: &Vec<ShapeElement>,
    fields: &Vec<Option<Value>>,
    cfg: &Config,
) -> (any: bool)
    ensures
        final(doc)@ == old(doc)@ + fields_doc(shape@, *fields, 0, true, *cfg),
        any == (fields_doc(shape@, *fields, 0, true, *cfg).len() > 0),
    decreases fields, 0nat,
{
    let ghost whole = fields_doc(shape@, *fields, 0, true, *cfg);
    let ghost mut emitted: Seq<Tok> = Seq::empty();
    let mut first = true;
    let mut k: usize = 0;
    while k < fields.len()
        invariant
            k <= fields@.len(),
            doc@ == old(doc)@ + emitted,
            emitted + fields_doc(shape@, *fields, k as int, first, *cfg) == whole,
            first ==> emitted.len() == 0,
            !first ==> emitted.len() > 0,
        decreases fields@.len() - k,
    {
        let ghost before = doc@;
        if k < shape.len() && (!shape[k].flag_implicit || cfg.implicit_properties) {
            push_separator(doc, first);
            let name = field_name_text(&shape[k]);
            push_chars(doc, &name);
            match &fields[k] {
                Some(x) => write_value(doc, x, cfg),
                None => {
                    proof {
                        reveal_strlit("{}");
                    }
                    doc.text("{}");
                    assert("{}"@ =~= seq!['{', '}']);
                },
            }
            let ghost piece = doc@.subrange(before.len() as int, doc@.len() as int);
            assert(doc@ =~= before + piece);
            assert(piece.len() > 0);
            proof {
                assert(emitted + piece + fields_doc(shape@, *fields, k + 1, false, *cfg) =~= whole);
                emitted = emitted + piece;
                assert(doc@ =~= old(doc)@ + emitted);
            }
            first = false;
        }
        k += 1;
    }
    assert(emitted =~= whole);
    !first
}

fn write_literal(doc: &mut Doc, v: &Value, cfg: &Config)
    requires
        !(v is Array || v is SetOf || v is Object),
    ensures
        final(doc)@ == old(doc)@ + scalar_doc(*v, *cfg),
{
    proof {
        reveal_strlit("{}");
    }
    let ghost base = doc@;
    match v {
        Value::Nothing => {
            doc.text("{}");
            assert("{}"@ =~= seq!['{', '}']);
            assert(doc@ =~= base + scalar_doc(*v, *cfg));
        },
        Value::Int16(n) => {
            let mut c: Vec<char> = Vec::new();
            write_int(&mut c, *n as i64);
            push_chars(doc, &c);
            assert(doc@ =~= base + scalar_doc(*v, *cfg));
        },
        Value::Int32(n) => {
            let mut c: Vec<char> = Vec::new();
            write_int(&mut c, *n as i64);
            push_chars(doc, &c);
            assert(doc@ =~= base + scalar_doc(*v, *cfg));
        },
        Value::Int64(n) => {
            let mut c: Vec<char> = Vec::new();
            write_int(&mut c, *n);
            push_chars(doc, &c);
            assert(doc@ =~= base + scalar_doc(*v, *cfg));
        },
        Value::BigInt(b) => {
            let mut c: Vec<char> = Vec::new();
            write_bigint(&mut c, b);
            push_chars(doc, &c);
            assert(doc@ =~= base + scalar_doc(*v, *cfg));
        },
        Value::Decimal(d) => {
            let mut c: Vec<char> = Vec::new();
            write_decimal(&mut c, d);
            push_chars(doc, &c);
            assert(doc@ =~= base + scalar_doc(*v, *cfg));
        },
        Value::Datetime(t) => {
            let mut c: Vec<char> = Vec::new();
            proof {
                reveal_strlit("<datetime>'");
            }
            write_chars(&mut c, "<datetime>'");
            write_datetime(&mut c, t);
            c.push('\'');
            push_chars(doc, &c);
            assert(c@ =~= "<datetime>'"@ + datetime_text(t.micros as int) + seq!['\'']);
            assert(doc@ =~= base + scalar_doc(*v, *cfg));
        },
        Value::Str(s) => {
            let mut c: Vec<char> = Vec::new();
            c.push('\'');
            if cfg.expand_strings && has_newline(s) {
                write_chars(&mut c, s.as_str());
                c.push('\'');
                doc.push(Token::Verbatim(string_of(&c)));
                assert(c@ =~= seq!['\''] + s@ + seq!['\'']);
            assert(doc@ =~= base + scalar_doc(*v, *cfg));
            } else {
                write_escaped(&mut c, s.as_str());
                c.push('\'');
                push_chars(doc, &c);
                assert(c@ =~= seq!['\''] + escape(s@) + seq!['\'']);
            assert(doc@ =~= base + scalar_doc(*v, *cfg));
            }
        },
        Value::Bytes(b) => {
            let mut c: Vec<char> = Vec::new();
            c.push('b');
            c.push('\'');
            write_escaped_bytes(&mut c, b);
            c.push('\'');
            push_chars(doc, &c);
            assert(c@ =~= seq!['b', '\''] + escape_bytes(b@) + seq!['\'']);
            assert(doc@ =~= base + scalar_doc(*v, *cfg));
        },
        _ => {},
    }
}

fn style_text(v: &Value) -> (r: String)
    ensures
        r@ == scalar_style(*v),
{
    let mut c: Vec<char> = Vec::new();
    c.push('\x1b');
    c.push('[');
    c.push('3');
    match v {
        Value::Str(_) => c.push('2'),
        Value::Bytes(_) => c.push('2'),
        _ => c.push('6'),
    }
    c.push('m');
    assert(c@ =~= scalar_style(*v));
    string_of(&c)
}

fn reset_text() -> (r: String)
    ensures
        r@ == reset_style(),
{
    let mut c: Vec<char> = Vec::new();
    c.push('\x1b');
    c.push('[');
    c.push('0');
    c.push('m');
    assert(c@ =~= reset_style());
    string_of(&c)
}

fn write_scalar(doc: &mut Doc, v: &Value, cfg: &Config)
    requires
        !(v is Array || v is SetOf || v is Object),
    ensures
        final(doc)@ == old(doc)@ + value_doc(*v, *cfg),
{
    let colored = match cfg.colors {
        Some(c) => c,
        None => false,
    };
    let ghost base = doc@;
    if colored {
        doc.push(Token::Style(style_text(v)));
    }
    let ghost mid = doc@;
    write_literal(doc, v, cfg);
    let ghost lit = doc@.subrange(mid.len() as int, doc@.len() as int);
    assert(doc@ =~= mid + lit);
    if colored {
        doc.push(Token::Style(reset_text()));
        assert(doc@ =~= base + (seq![Tok::Style(scalar_style(*v))] + scalar_doc(*v, *cfg) + seq![
            Tok::Style(reset_style()),
        ]));
    } else {
        assert(doc@ =~= base + scalar_doc(*v, *cfg));
    }
}

fn write_object(doc: &mut Doc, shape: &ObjectShape, fields: &Vec<Option<Value>>, cfg: &Config)
    ensures
        final(doc)@ == old(doc)@ + value_doc(
            Value::Object { shape: *shape, fields: *fields },
            *cfg,
        ),
    decreases fields, 1nat,
{
    proof {
        reveal_strlit("Object {");
        reveal_strlit("}");
        reveal_strlit(",");
    }
    let ghost base = doc@;
    let ghost v = Value::Object { shape: *shape, fields: *fields };
    doc.push(Token::GroupStart);
    doc.text("Object {");
    doc.push(Token::NestStart);
    let ghost a = doc@;
    assert(a =~= base + seq![Tok::GroupStart, Tok::Text("Object {"@), Tok::NestStart]);
    let any = write_fields(doc, &shape.elements, fields, cfg);
    let ghost f = fields_doc(shape.elements@, *fields, 0, true, *cfg);
    if any {
        let e = String::new();
        let c = String::from_str(",");
        assert(e@ =~= Seq::<char>::empty());
        assert(c@ =~= seq![',']);
        doc.push(Token::Alt(e, c));
    }
    doc.push(Token::NestEnd);
    if any {
        doc.push(Token::SoftLine);
    }
    doc.text("}");
    assert("}"@ =~= seq!['}']);
    doc.push(Token::GroupEnd);
    assert(doc@ =~= base + seq![Tok::GroupStart, Tok::Text("Object {"@), Tok::NestStart] + f
        + (if f.len() > 0 {
        seq![Tok::Alt(Seq::empty(), seq![','])]
    } else {
        Seq::empty()
    }) + seq![Tok::NestEnd] + (if f.len() > 0 {
        seq![Tok::SoftLine]
    } else {
        Seq::empty()
    }) + seq![Tok::Text(seq!['}']), Tok::GroupEnd]);
    assert(doc@ =~= base + value_doc(v, *cfg));
}

/// Appends the document of a value.
pub fn write_value(doc: &mut Doc, v: &Value, cfg: &Config)
    ensures
        final(doc)@ == old(doc)@ + value_doc(*v, *cfg),
    decreases v, 3nat,
{
    proof {
        reveal_strlit("{");
        reveal_strlit("}");
        reveal_strlit("[");
        reveal_strlit("]");
    }
    let ghost base = doc@;
    match v {
        Value::Array(items) => {
            proof {
                reveal_strlit("[");
                reveal_strlit("]");
            }
            write_container(doc, "[", "]", items, cfg.max_items, false, cfg);
            assert("["@ =~= seq!['[']);
            assert("]"@ =~= seq![']']);
            assert(doc@ =~= base + value_doc(*v, *cfg));
        },
        Value::SetOf(items) => {
            proof {
                reveal_strlit("{");
            }
            write_container(doc, "{", "}", items, cfg.max_items, false, cfg);
            assert("{"@ =~= seq!['{']);
            assert("}"@ =~= seq!['}']);
            assert(doc@ =~= base + value_doc(*v, *cfg));
        },
        Value::Object { shape, fields } => {
            write_object(doc, shape, fields, cfg);
        },
        _ => {
            write_scalar(doc, v, cfg);
        },
    }
}

} // verus!
