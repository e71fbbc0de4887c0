use vstd::prelude::*;

use crate::config::{width_of, Config};
use crate::doc::Tok;
use crate::format::{result_doc, result_text};
use crate::render::{
    fits, is_flat, line_break, render_from, spaces, start_state, step_out, step_state, RenderState,
};
use crate::literal::{digit_char, nat_text};
use crate::numeric::{bigint_text, digits_text, sign_text, trailing_zeros};
use crate::value::{
    elements_doc, fields_doc, frame, limit_note, separator, shown_count, value_doc, Value,
};

verus! {

/// Truncation of a result set: with a limit `k` below the number of items
/// `n`, the document holds the first `k` items' documents and then, after
/// a separator, a note naming the limit; within the limit it holds all
/// items and no note.
pub proof fn lemma_result_truncation(items: Vec<Value>, cfg: Config, k: usize)
    requires
        cfg.max_items == Some(k),
        k >= 1,
    ensures
        items@.len() > k ==> result_doc(items, cfg) == seq![
            Tok::GroupStart,
            Tok::Text(seq!['{']),
            Tok::NestStart,
        ] + elements_doc(items, 0, k as int, cfg) + seq![
            Tok::Text(seq![',']),
            Tok::Line,
            Tok::Note(limit_note(k as nat)),
            Tok::NestEnd,
            Tok::SoftLine,
            Tok::Text(seq!['}']),
            Tok::GroupEnd,
        ],
        0 < items@.len() <= k ==> result_doc(items, cfg) == seq![
            Tok::GroupStart,
            Tok::Text(seq!['{']),
            Tok::NestStart,
        ] + elements_doc(items, 0, items@.len() as int, cfg) + seq![
            Tok::Alt(Seq::empty(), seq![',']),
            Tok::NestEnd,
            Tok::SoftLine,
            Tok::Text(seq!['}']),
            Tok::GroupEnd,
        ],
{
    if items@.len() > k {
        assert(shown_count(items@.len(), cfg.max_items) == k);
        assert(result_doc(items, cfg) =~= seq![
            Tok::GroupStart,
            Tok::Text(seq!['{']),
            Tok::NestStart,
        ] + elements_doc(items, 0, k as int, cfg) + seq![
            Tok::Text(seq![',']),
            Tok::Line,
            Tok::Note(limit_note(k as nat)),
            Tok::NestEnd,
            Tok::SoftLine,
            Tok::Text(seq!['}']),
            Tok::GroupEnd,
        ]);
    }
    if 0 < items@.len() <= k {
        assert(result_doc(items, cfg) =~= seq![
            Tok::GroupStart,
            Tok::Text(seq!['{']),
            Tok::NestStart,
        ] + elements_doc(items, 0, items@.len() as int, cfg) + seq![
            Tok::Alt(Seq::empty(), seq![',']),
            Tok::NestEnd,
            Tok::SoftLine,
            Tok::Text(seq!['}']),
            Tok::GroupEnd,
        ]);
    }
}

/// Truncation of a nested array: beyond a limit `k` it shows its first `k`
/// elements and then `...`, which reads as the limit note when broken;
/// within the limit it shows every element and no marker.
pub proof fn lemma_array_truncation(items: Vec<Value>, cfg: Config, k: usize)
    requires
        cfg.max_items == Some(k),
        k >= 1,
    ensures
        items@.len() > k ==> value_doc(Value::Array(items), cfg) == seq![
            Tok::GroupStart,
            Tok::Text(seq!['[']),
            Tok::NestStart,
        ] + elements_doc(items, 0, k as int, cfg) + seq![
            Tok::Text(seq![',']),
            Tok::Line,
            Tok::Alt(seq!['.', '.', '.'], limit_note(k as nat)),
            Tok::NestEnd,
            Tok::SoftLine,
            Tok::Text(seq![']']),
            Tok::GroupEnd,
        ],
        0 < items@.len() <= k ==> value_doc(Value::Array(items), cfg) == seq![
            Tok::GroupStart,
            Tok::Text(seq!['[']),
            Tok::NestStart,
        ] + elements_doc(items, 0, items@.len() as int, cfg) + seq![
            Tok::Alt(Seq::empty(), seq![',']),
            Tok::NestEnd,
            Tok::SoftLine,
            Tok::Text(seq![']']),
            Tok::GroupEnd,
        ],
{
    if items@.len() > k {
        assert(value_doc(Value::Array(items), cfg) =~= seq![
            Tok::GroupStart,
            Tok::Text(seq!['[']),
            Tok::NestStart,
        ] + elements_doc(items, 0, k as int, cfg) + seq![
            Tok::Text(seq![',']),
            Tok::Line,
            Tok::Alt(seq!['.', '.', '.'], limit_note(k as nat)),
            Tok::NestEnd,
            Tok::SoftLine,
            Tok::Text(seq![']']),
            Tok::GroupEnd,
        ]);
    }
    if 0 < items@.len() <= k {
        assert(value_doc(Value::Array(items), cfg) =~= seq![
            Tok::GroupStart,
            Tok::Text(seq!['[']),
            Tok::NestStart,
        ] + elements_doc(items, 0, items@.len() as int, cfg) + seq![
            Tok::Alt(Seq::empty(), seq![',']),
            Tok::NestEnd,
            Tok::SoftLine,
            Tok::Text(seq![']']),
            Tok::GroupEnd,
        ]);
    }
}

pub open spec fn is_digit_char(c: char) -> bool {
    48 <= (c as u32) <= 57
}

proof fn lemma_digit_char(d: nat)
    requires
        d < 10,
    ensures
        is_digit_char(digit_char(d)),
{
    let b = (d + 48) as u8;
    assert(b as u32 == d + 48);
    assert((b as char) as u32 == b as u32);
}

proof fn lemma_nat_text_digits(n: nat)
    ensures
        forall|i: int| 0 <= i < nat_text(n).len() ==> is_digit_char(#[trigger] nat_text(n)[i]),
    decreases n,
{
    lemma_digit_char(n % 10);
    if n < 10 {
        lemma_digit_char(n);
    }
    if n >= 10 {
        lemma_nat_text_digits(n / 10);
        let t = nat_text(n);
        let p = nat_text(n / 10);
        assert(t == p.push(digit_char(n % 10)));
        assert forall|i: int| 0 <= i < t.len() implies is_digit_char(#[trigger] t[i]) by {
            if i < p.len() {
                assert(t[i] == p[i]);
            } else {
                assert(t[i] == digit_char(n % 10));
            }
        }
    }
}

/// Big integers: with at most five trailing zeros they read as their
/// digits and `n`; with more, as the significant digits, `e`, the number
/// of zeros and `n`, with no fractional point.
pub proof fn lemma_bigint_notation(negative: bool, d: Seq<u8>)
    requires
        d.len() > 0,
        d[0] != 0,
        forall|i: int| 0 <= i < d.len() ==> d[i] < 10,
    ensures
        trailing_zeros(d) <= 5 ==> bigint_text(negative, d) == sign_text(negative) + digits_text(d)
            + seq!['n'],
        trailing_zeros(d) > 5 ==> bigint_text(negative, d) == sign_text(negative) + digits_text(
            d.subrange(0, d.len() - trailing_zeros(d)),
        ) + seq!['e'] + nat_text(trailing_zeros(d)) + seq!['n'],
        !bigint_text(negative, d).contains('.'),
{
    lemma_trailing_zeros_below(d);
    let z = trailing_zeros(d);
    let sig = d.subrange(0, d.len() - z);
    assert(sig.len() > 0 ==> sig[0] == d[0]);
    lemma_nat_text_digits(z);
    let t = bigint_text(negative, d);
    assert(forall|i: int| 0 <= i < digits_text(d).len() ==> is_digit_char(#[trigger] digits_text(d)[i]));
    assert(forall|i: int| 0 <= i < digits_text(sig).len() ==> is_digit_char(#[trigger] digits_text(sig)[i]));
    if t.contains('.') {
        let i = choose|i: int| 0 <= i < t.len() && t[i] == '.';
        if z > 5 {
            let parts = sign_text(negative) + digits_text(sig) + seq!['e'] + nat_text(z) + seq!['n'];
            assert(t == parts);
        }
        assert(false);
    }
}

proof fn lemma_trailing_zeros_below(d: Seq<u8>)
    requires
        d.len() > 0,
        d[0] != 0,
    ensures
        trailing_zeros(d) < d.len(),
    decreases d.len(),
{
    if d.len() > 1 && d.last() == 0 {
        lemma_trailing_zeros_below(d.drop_last());
    }
}

/// How a token changes the depth of open groups.
pub open spec fn delta(t: Tok) -> int {
    match t {
        Tok::GroupStart => 1,
        Tok::GroupEnd => -1,
        _ => 0,
    }
}

/// The change in group depth over a token sequence.
pub open spec fn net(s: Seq<Tok>) -> int
    decreases s.len(),
{
    if s.len() == 0 {
        0
    } else {
        delta(s[0]) + net(s.drop_first())
    }
}

/// The lowest group depth reached over a token sequence, from depth zero.
pub open spec fn low(s: Seq<Tok>) -> int
    decreases s.len(),
{
    if s.len() == 0 {
        0
    } else {
        let r = delta(s[0]) + low(s.drop_first());
        if r < 0 {
            r
        } else {
            0
        }
    }
}

/// Every group that opens in `s` closes in it, and none closes that did
/// not open.
pub open spec fn balanced(s: Seq<Tok>) -> bool {
    net(s) == 0 && low(s) == 0
}

proof fn lemma_concat(a: Seq<Tok>, b: Seq<Tok>)
    ensures
        net(a + b) == net(a) + net(b),
        low(a + b) == if low(a) < net(a) + low(b) {
            low(a)
        } else {
            net(a) + low(b)
        },
    decreases a.len(),
{
    if a.len() == 0 {
        assert(a + b =~= b);
        lemma_low_nonpositive(b);
    } else {
        assert((a + b).drop_first() =~= a.drop_first() + b);
        lemma_concat(a.drop_first(), b);
        lemma_low_nonpositive(a.drop_first());
        lemma_low_nonpositive(b);
    }
}

proof fn lemma_low_nonpositive(s: Seq<Tok>)
    ensures
        low(s) <= 0,
    decreases s.len(),
{
    if s.len() > 0 {
        lemma_low_nonpositive(s.drop_first());
    }
}

proof fn lemma_plain_balanced(s: Seq<Tok>)
    requires
        forall|i: int| 0 <= i < s.len() ==> delta(#[trigger] s[i]) == 0,
    ensures
        balanced(s),
    decreases s.len(),
{
    if s.len() > 0 {
        assert(forall|i: int|
            0 <= i < s.drop_first().len() ==> #[trigger] s.drop_first()[i] == s[i + 1]);
        lemma_plain_balanced(s.drop_first());
    }
}

proof fn lemma_balanced_concat(a: Seq<Tok>, b: Seq<Tok>)
    requires
        balanced(a),
        balanced(b),
    ensures
        balanced(a + b),
{
    lemma_concat(a, b);
}

proof fn lemma_separator_balanced(first: bool)
    ensures
        balanced(separator(first)),
{
    lemma_plain_balanced(separator(first));
}

/// The inside of a container's outermost group.
pub open spec fn frame_inside(
    open: Seq<char>,
    close: Seq<char>,
    body: Seq<Tok>,
    n: nat,
    shown: nat,
    limit: Option<usize>,
    top: bool,
) -> Seq<Tok> {
    frame(open, close, body, n, shown, limit, top).subrange(
        1,
        frame(open, close, body, n, shown, limit, top).len() - 1,
    )
}

proof fn lemma_frame_balanced(
    open: Seq<char>,
    close: Seq<char>,
    body: Seq<Tok>,
    n: nat,
    shown: nat,
    limit: Option<usize>,
    top: bool,
)
    requires
        balanced(body),
    ensures
        balanced(frame_inside(open, close, body, n, shown, limit, top)),
        frame(open, close, body, n, shown, limit, top) == seq![Tok::GroupStart] + frame_inside(
            open,
            close,
            body,
            n,
            shown,
            limit,
            top,
        ) + seq![Tok::GroupEnd],
        balanced(frame(open, close, body, n, shown, limit, top)),
{
    let f = frame(open, close, body, n, shown, limit, top);
    let inside = frame_inside(open, close, body, n, shown, limit, top);
    let head = seq![Tok::Text(open), Tok::NestStart];
    let tail = f.subrange(3 + body.len() as int, f.len() - 1);
    assert(forall|i: int| 0 <= i < tail.len() ==> delta(#[trigger] tail[i]) == 0);
    lemma_plain_balanced(head);
    lemma_plain_balanced(tail);
    assert(inside =~= head + body + tail);
    lemma_balanced_concat(head, body);
    lemma_balanced_concat(head + body, tail);
    assert(f =~= seq![Tok::GroupStart] + inside + seq![Tok::GroupEnd]);
    lemma_concat(seq![Tok::GroupStart], inside);
    lemma_concat(seq![Tok::GroupStart] + inside, seq![Tok::GroupEnd]);
    lemma_single(Tok::GroupStart);
    lemma_single(Tok::GroupEnd);
}

proof fn lemma_single(t: Tok)
    ensures
        net(seq![t]) == delta(t),
        low(seq![t]) == if delta(t) < 0 {
            delta(t)
        } else {
            0
        },
{
    let s = seq![t];
    assert(s[0] == t);
    assert(s.drop_first() =~= Seq::<Tok>::empty());
    assert(net(s.drop_first()) == 0);
    assert(low(s.drop_first()) == 0);
}

proof fn lemma_value_balanced(v: Value, cfg: Config)
    ensures
        balanced(value_doc(v, cfg)),
    decreases v, 0nat,
{
    match v {
        Value::Array(items) => {
            let shown = shown_count(items@.len(), cfg.max_items);
            lemma_elements_balanced(items, 0, shown as int, cfg);
            lemma_frame_balanced(
                seq!['['],
                seq![']'],
                elements_doc(items, 0, shown as int, cfg),
                items@.len(),
                shown,
                cfg.max_items,
                false,
            );
        },
        Value::SetOf(items) => {
            let shown = shown_count(items@.len(), cfg.max_items);
            lemma_elements_balanced(items, 0, shown as int, cfg);
            lemma_frame_balanced(
                seq!['{'],
                seq!['}'],
                elements_doc(items, 0, shown as int, cfg),
                items@.len(),
                shown,
                cfg.max_items,
                false,
            );
        },
        Value::Object { shape, fields } => {
            let f = fields_doc(shape.elements@, fields, 0, true, cfg);
            lemma_fields_balanced(shape.elements@, fields, 0, true, cfg);
            let d = value_doc(v, cfg);
            let inside = d.subrange(1, d.len() - 1);
            let head = seq![Tok::Text("Object {"@), Tok::NestStart];
            let tail = inside.subrange(2 + f.len() as int, inside.len() as int);
            assert(inside =~= head + f + tail);
            assert(forall|i: int| 0 <= i < tail.len() ==> delta(#[trigger] tail[i]) == 0);
            lemma_plain_balanced(head);
            lemma_plain_balanced(tail);
            lemma_balanced_concat(head, f);
            lemma_balanced_concat(head + f, tail);
            assert(d =~= seq![Tok::GroupStart] + inside + seq![Tok::GroupEnd]);
            lemma_concat(seq![Tok::GroupStart], inside);
            lemma_concat(seq![Tok::GroupStart] + inside, seq![Tok::GroupEnd]);
            lemma_single(Tok::GroupStart);
            lemma_single(Tok::GroupEnd);
        },
        _ => {
            lemma_plain_balanced(value_doc(v, cfg));
        },
    }
}

proof fn lemma_elements_balanced(items: Vec<Value>, k: int, shown: int, cfg: Config)
    ensures
        balanced(elements_doc(items, k, shown, cfg)),
    decreases items, shown - k,
{
    if k < 0 || k >= shown || k >= items@.len() {
    } else {
        lemma_separator_balanced(k == 0);
        lemma_value_balanced(items[k], cfg);
        lemma_elements_balanced(items, k + 1, shown, cfg);
        lemma_balanced_concat(separator(k == 0), value_doc(items[k], cfg));
        lemma_balanced_concat(
            separator(k == 0) + value_doc(items[k], cfg),
            elements_doc(items, k + 1, shown, cfg),
        );
    }
}

proof fn lemma_fields_balanced(
    shape: Seq<crate::value::ShapeElement>,
    fields: Vec<Option<Value>>,
    k: int,
    first: bool,
    cfg: Config,
)
    ensures
        balanced(fields_doc(shape, fields, k, first, cfg)),
    decreases fields, fields@.len() - k,
{
    if k < 0 || k >= fields@.len() {
    } else if k < shape.len() && crate::value::visible(shape[k], cfg) {
        let name = seq![Tok::Text(crate::value::field_name(shape[k]))];
        let val = match fields[k] {
            Some(x) => value_doc(x, cfg),
            None => seq![Tok::Text(seq!['{', '}'])],
        };
        match fields[k] {
            Some(x) => lemma_value_balanced(x, cfg),
            None => lemma_plain_balanced(val),
        }
        lemma_separator_balanced(first);
        lemma_plain_balanced(name);
        lemma_fields_balanced(shape, fields, k + 1, false, cfg);
        lemma_balanced_concat(separator(first), name);
        lemma_balanced_concat(separator(first) + name, val);
        lemma_balanced_concat(
            separator(first) + name + val,
            fields_doc(shape, fields, k + 1, false, cfg),
        );
    } else {
        lemma_fields_balanced(shape, fields, k + 1, first, cfg);
    }
}

/// What a token writes when its group is flat.
pub open spec fn flat_tok(t: Tok) -> Seq<char> {
    match t {
        Tok::Text(s) => s,
        Tok::Verbatim(s) => s,
        Tok::Line => seq![' '],
        Tok::Alt(f, _) => f,
        Tok::Style(s) => s,
        _ => Seq::empty(),
    }
}

/// The columns a token takes when its group is flat.
pub open spec fn tok_width(t: Tok) -> int {
    match t {
        Tok::Style(_) => 0,
        _ => flat_tok(t).len() as int,
    }
}

/// The width of the single-line rendering: styles take no columns.
pub open spec fn flat_width(s: Seq<Tok>) -> int
    decreases s.len(),
{
    if s.len() == 0 {
        0
    } else {
        tok_width(s[0]) + flat_width(s.drop_first())
    }
}

/// The single-line rendering of a token sequence.
pub open spec fn flat_text(s: Seq<Tok>) -> Seq<char>
    decreases s.len(),
{
    if s.len() == 0 {
        Seq::empty()
    } else {
        flat_tok(s[0]) + flat_text(s.drop_first())
    }
}

/// A token that keeps its group from rendering on one line.
pub open spec fn forcing(t: Tok) -> bool {
    match t {
        Tok::Note(_) => true,
        Tok::Verbatim(s) => s.contains('\n'),
        _ => false,
    }
}

/// A document that has a single-line rendering.
pub open spec fn one_line(s: Seq<Tok>) -> bool {
    forall|i: int| 0 <= i < s.len() ==> !forcing(#[trigger] s[i])
}

pub open spec fn all_flat(modes: Seq<bool>) -> bool {
    forall|i: int| 0 <= i < modes.len() ==> #[trigger] modes[i]
}

proof fn lemma_flat_text_step(toks: Seq<Tok>, j: int)
    requires
        0 <= j < toks.len(),
    ensures
        flat_text(toks.subrange(j, toks.len() as int)) == flat_tok(toks[j]) + flat_text(
            toks.subrange(j + 1, toks.len() as int),
        ),
        flat_width(toks.subrange(j, toks.len() as int)) == tok_width(toks[j]) + flat_width(
            toks.subrange(j + 1, toks.len() as int),
        ),
{
    let s = toks.subrange(j, toks.len() as int);
    assert(s.drop_first() =~= toks.subrange(j + 1, toks.len() as int));
}

proof fn lemma_low_step(toks: Seq<Tok>, j: int)
    requires
        0 <= j < toks.len() - 1,
    ensures
        low(toks.subrange(j, toks.len() - 1)) == if delta(toks[j]) + low(
            toks.subrange(j + 1, toks.len() - 1),
        ) < 0 {
            delta(toks[j]) + low(toks.subrange(j + 1, toks.len() - 1))
        } else {
            0
        },
{
    let s = toks.subrange(j, toks.len() - 1);
    assert(s.drop_first() =~= toks.subrange(j + 1, toks.len() - 1));
}

/// Inside a group that renders flat, every token writes its flat form,
/// up to the group's end.
proof fn lemma_flat_render(toks: Seq<Tok>, j: int, width: int, indent: int, st: RenderState)
    requires
        1 <= j < toks.len(),
        toks.last() == Tok::GroupEnd,
        st.modes.len() >= 1,
        all_flat(st.modes),
        low(toks.subrange(j, toks.len() - 1)) >= 1 - st.modes.len(),
    ensures
        render_from(toks, j, width, indent, st) == flat_text(toks.subrange(j, toks.len() as int)),
    decreases toks.len() - j,
{
    lemma_flat_text_step(toks, j);
    assert(is_flat(st.modes));
    let st2 = step_state(toks, j, st, width, indent);
    if j == toks.len() - 1 {
        assert(toks.subrange(j + 1, toks.len() as int) =~= Seq::<Tok>::empty());
        assert(render_from(toks, j + 1, width, indent, st2) == Seq::<char>::empty());
        assert(step_out(toks, j, st, indent) =~= flat_tok(toks[j]));
    } else {
        lemma_low_step(toks, j);
        lemma_low_nonpositive(toks.subrange(j + 1, toks.len() - 1));
        match toks[j] {
            Tok::GroupStart => {
                assert(st2.modes == st.modes.push(true));
                assert(all_flat(st2.modes));
            },
            Tok::GroupEnd => {
                assert(st2.modes == st.modes.drop_last());
                assert(all_flat(st2.modes));
            },
            _ => {},
        }
        lemma_flat_render(toks, j + 1, width, indent, st2);
        assert(step_out(toks, j, st, indent) =~= flat_tok(toks[j]));
    }
}

proof fn lemma_flat_width_nonneg(s: Seq<Tok>)
    ensures
        flat_width(s) >= 0,
    decreases s.len(),
{
    if s.len() > 0 {
        lemma_flat_width_nonneg(s.drop_first());
    }
}

/// Up to its end, a group without forcing tokens fits in `room` columns
/// exactly when its single-line rendering is at most that wide.
proof fn lemma_fits_flat(toks: Seq<Tok>, j: int, depth: nat, room: int)
    requires
        1 <= j < toks.len(),
        toks.last() == Tok::GroupEnd,
        one_line(toks),
        low(toks.subrange(j, toks.len() - 1)) >= -depth,
        room >= 0,
    ensures
        fits(toks, j, depth, room) == (flat_width(toks.subrange(j, toks.len() as int)) <= room),
    decreases toks.len() - j,
{
    lemma_flat_text_step(toks, j);
    assert(!forcing(toks[j]));
    if j == toks.len() - 1 {
        assert(toks.subrange(j + 1, toks.len() as int) =~= Seq::<Tok>::empty());
        assert(toks[j] == toks.last());
        assert(flat_width(Seq::<Tok>::empty()) == 0);
        if depth > 0 {
            assert(fits(toks, j + 1, (depth - 1) as nat, room));
        }
    } else {
        lemma_low_step(toks, j);
        lemma_low_nonpositive(toks.subrange(j + 1, toks.len() - 1));
        lemma_flat_width_nonneg(toks.subrange(j + 1, toks.len() as int));
        match toks[j] {
            Tok::GroupEnd => {
                lemma_fits_flat(toks, j + 1, (depth - 1) as nat, room);
            },
            Tok::GroupStart => {
                lemma_fits_flat(toks, j + 1, depth + 1, room);
            },
            Tok::Text(s) => {
                if s.len() <= room {
                    lemma_fits_flat(toks, j + 1, depth, room - s.len());
                }
            },
            Tok::Verbatim(s) => {
                if s.len() <= room {
                    lemma_fits_flat(toks, j + 1, depth, room - s.len());
                }
            },
            Tok::Line => {
                if 1 <= room {
                    lemma_fits_flat(toks, j + 1, depth, room - 1);
                }
            },
            Tok::Alt(f, _) => {
                if f.len() <= room {
                    lemma_fits_flat(toks, j + 1, depth, room - f.len());
                }
            },
            Tok::Note(_) => {},
            _ => {
                lemma_fits_flat(toks, j + 1, depth, room);
            },
        }
    }
}

/// A result whose single-line rendering fits in the line width is
/// rendered as exactly that line.
pub proof fn lemma_fitting_result_is_one_line(items: Vec<Value>, cfg: Config)
    requires
        one_line(result_doc(items, cfg)),
        flat_width(result_doc(items, cfg)) <= width_of(cfg),
    ensures
        result_text(items, cfg) == flat_text(result_doc(items, cfg)),
{
    let d = result_doc(items, cfg);
    let shown = shown_count(items@.len(), cfg.max_items);
    let body = elements_doc(items, 0, shown as int, cfg);
    lemma_elements_balanced(items, 0, shown as int, cfg);
    lemma_frame_balanced(seq!['{'], seq!['}'], body, items@.len(), shown, cfg.max_items, true);
    let inside = frame_inside(seq!['{'], seq!['}'], body, items@.len(), shown, cfg.max_items, true);
    assert(d.subrange(1, d.len() - 1) =~= inside);
    assert(d.last() == Tok::GroupEnd);
    let w = width_of(cfg);
    lemma_fits_flat(d, 1, 0, w);
    lemma_flat_text_step(d, 0);
    assert(d.subrange(0, d.len() as int) =~= d);
    let st0 = start_state();
    let st1 = step_state(d, 0, st0, w, cfg.indent as int);
    assert(st1.modes == seq![true]);
    lemma_flat_render(d, 1, w, cfg.indent as int, st1);
    assert(step_out(d, 0, st0, cfg.indent as int) =~= Seq::<char>::empty());
    assert(result_text(items, cfg) =~= flat_text(d));
}

/// A group holding a forcing token before its end never fits.
proof fn lemma_forcing_never_fits(toks: Seq<Tok>, j: int, depth: nat, room: int, i: int)
    requires
        1 <= j <= i < toks.len() - 1,
        forcing(toks[i]),
        low(toks.subrange(j, toks.len() - 1)) >= -depth,
    ensures
        !fits(toks, j, depth, room),
    decreases toks.len() - j,
{
    if j < i {
        lemma_low_step(toks, j);
        lemma_low_nonpositive(toks.subrange(j + 1, toks.len() - 1));
        match toks[j] {
            Tok::GroupEnd => {
                lemma_forcing_never_fits(toks, j + 1, (depth - 1) as nat, room, i);
            },
            Tok::GroupStart => {
                lemma_forcing_never_fits(toks, j + 1, depth + 1, room, i);
            },
            Tok::Text(s) => {
                lemma_forcing_never_fits(toks, j + 1, depth, room - s.len(), i);
            },
            Tok::Verbatim(s) => {
                lemma_forcing_never_fits(toks, j + 1, depth, room - s.len(), i);
            },
            Tok::Line => {
                lemma_forcing_never_fits(toks, j + 1, depth, room - 1, i);
            },
            Tok::Alt(f, _) => {
                lemma_forcing_never_fits(toks, j + 1, depth, room - f.len(), i);
            },
            Tok::Note(_) => {},
            _ => {
                lemma_forcing_never_fits(toks, j + 1, depth, room, i);
            },
        }
    }
}

/// A string shown verbatim that holds a line break.
pub open spec fn expanded_multiline(f: Option<Value>, cfg: Config) -> bool {
    cfg.expand_strings && match f {
        Some(Value::Str(s)) => s@.contains('\n'),
        _ => false,
    }
}

proof fn lemma_fields_forcing(
    shape: Seq<crate::value::ShapeElement>,
    fields: Vec<Option<Value>>,
    j: int,
    first: bool,
    cfg: Config,
    k: int,
) -> (i: int)
    requires
        0 <= j <= k < fields@.len(),
        k < shape.len(),
        crate::value::visible(shape[k], cfg),
        expanded_multiline(fields@[k], cfg),
    ensures
        0 <= i < fields_doc(shape, fields, j, first, cfg).len(),
        forcing(fields_doc(shape, fields, j, first, cfg)[i]),
    decreases k - j,
{
    let d = fields_doc(shape, fields, j, first, cfg);
    if j == k {
        let sv = fields@[k]->Some_0->Str_0@;
        let q = seq!['\''] + sv + seq!['\''];
        let n = choose|n: int| 0 <= n < sv.len() && sv[n] == '\n';
        assert(q[n + 1] == '\n');
        assert(q.contains('\n'));
        let sep = separator(first);
        let x = fields@[k]->Some_0;
        let val = value_doc(x, cfg);
        let off: int = if cfg.colors == Some(true) {
            1
        } else {
            0
        };
        assert(val[off] == Tok::Verbatim(q));
        let name = seq![Tok::Text(crate::value::field_name(shape[k]))];
        let rest = fields_doc(shape, fields, k + 1, false, cfg);
        assert(fields[k] == Some(x));
        assert(d == sep + name + val + rest);
        assert(d[sep.len() as int + 1 + off] == Tok::Verbatim(q));
        sep.len() as int + 1 + off
    } else if j < shape.len() && crate::value::visible(shape[j], cfg) {
        let i2 = lemma_fields_forcing(shape, fields, j + 1, false, cfg, k);
        let rest = fields_doc(shape, fields, j + 1, false, cfg);
        let pre = d.len() - rest.len();
        assert(d == d.subrange(0, pre) + rest);
        assert(d[pre + i2] == rest[i2]);
        pre + i2
    } else {
        lemma_fields_forcing(shape, fields, j + 1, first, cfg, k)
    }
}

/// With strings expanded, an object with a visible field holding a line
/// break never renders on one line, however much room there is.
pub proof fn lemma_expanded_string_breaks_object(
    shape: crate::value::ObjectShape,
    fields: Vec<Option<Value>>,
    k: int,
    cfg: Config,
    room: int,
)
    requires
        0 <= k < fields@.len(),
        k < shape.elements@.len(),
        crate::value::visible(shape.elements@[k], cfg),
        expanded_multiline(fields@[k], cfg),
    ensures
        !fits(value_doc(Value::Object { shape, fields }, cfg), 1, 0, room),
{
    let v = Value::Object { shape, fields };
    let d = value_doc(v, cfg);
    let f = fields_doc(shape.elements@, fields, 0, true, cfg);
    let i = lemma_fields_forcing(shape.elements@, fields, 0, true, cfg, k);
    assert(d[3 + i] == f[i]);
    lemma_value_balanced(v, cfg);
    let inside = d.subrange(1, d.len() - 1);
    lemma_fields_balanced(shape.elements@, fields, 0, true, cfg);
    let head = seq![Tok::Text("Object {"@), Tok::NestStart];
    let tail = inside.subrange(2 + f.len() as int, inside.len() as int);
    assert(inside =~= head + f + tail);
    assert(forall|m: int| 0 <= m < tail.len() ==> delta(#[trigger] tail[m]) == 0);
    lemma_plain_balanced(head);
    lemma_plain_balanced(tail);
    lemma_balanced_concat(head, f);
    lemma_balanced_concat(head + f, tail);
    lemma_forcing_never_fits(d, 1, 0, room, 3 + i);
}

proof fn lemma_fits_shift(toks: Seq<Tok>, j0: int, j: int, depth: nat, room: int)
    requires
        0 <= j0 <= j,
        j0 <= toks.len(),
    ensures
        fits(toks, j, depth, room) == fits(
            toks.subrange(j0, toks.len() as int),
            j - j0,
            depth,
            room,
        ),
    decreases toks.len() - j,
{
    let t = toks.subrange(j0, toks.len() as int);
    if j < toks.len() {
        assert(t[j - j0] == toks[j]);
        match toks[j] {
            Tok::GroupEnd => {
                if depth > 0 {
                    lemma_fits_shift(toks, j0, j + 1, (depth - 1) as nat, room);
                }
            },
            Tok::GroupStart => lemma_fits_shift(toks, j0, j + 1, depth + 1, room),
            Tok::Text(s) => lemma_fits_shift(toks, j0, j + 1, depth, room - s.len()),
            Tok::Verbatim(s) => lemma_fits_shift(toks, j0, j + 1, depth, room - s.len()),
            Tok::Line => lemma_fits_shift(toks, j0, j + 1, depth, room - 1),
            Tok::Alt(f, _) => lemma_fits_shift(toks, j0, j + 1, depth, room - f.len()),
            Tok::Note(_) => {},
            _ => lemma_fits_shift(toks, j0, j + 1, depth, room),
        }
    }
}

/// Rendering from a position depends only on the tokens from there on.
proof fn lemma_render_shift(toks: Seq<Tok>, j0: int, j: int, width: int, indent: int, st: RenderState)
    requires
        0 <= j0 <= j,
        j0 <= toks.len(),
    ensures
        render_from(toks, j, width, indent, st) == render_from(
            toks.subrange(j0, toks.len() as int),
            j - j0,
            width,
            indent,
            st,
        ),
    decreases toks.len() - j,
{
    let t = toks.subrange(j0, toks.len() as int);
    if j < toks.len() {
        assert(t[j - j0] == toks[j]);
        lemma_fits_shift(toks, j0, j + 1, 0, width - st.col);
        assert(step_state(toks, j, st, width, indent) == step_state(t, j - j0, st, width, indent));
        assert(step_out(toks, j, st, indent) == step_out(t, j - j0, st, indent));
        lemma_render_shift(toks, j0, j + 1, width, indent, step_state(toks, j, st, width, indent));
    }
}

/// A value whose document is one piece of text.
pub open spec fn is_atom(v: Value, cfg: Config) -> bool {
    value_doc(v, cfg).len() == 1 && value_doc(v, cfg)[0] is Text
}

pub open spec fn atom_texts(items: Seq<Value>, cfg: Config) -> Seq<Seq<char>> {
    items.map_values(|v: Value| value_doc(v, cfg)[0]->Text_0)
}

pub open spec fn atoms(ts: Seq<Seq<char>>, first: bool) -> Seq<Tok>
    decreases ts.len(),
{
    if ts.len() == 0 {
        Seq::empty()
    } else {
        separator(first) + seq![Tok::Text(ts[0])] + atoms(ts.drop_first(), false)
    }
}

/// Texts each on a line of their own at one level of indentation, each
/// line but the first starting after the comma that ends the one before.
pub open spec fn broken_lines(ts: Seq<Seq<char>>, first: bool, indent: int) -> Seq<char>
    decreases ts.len(),
{
    if ts.len() == 0 {
        Seq::empty()
    } else {
        (if first {
            Seq::empty()
        } else {
            seq![',']
        }) + line_break(1, indent) + ts[0] + broken_lines(ts.drop_first(), false, indent)
    }
}

/// One text per line, indented and comma-terminated, inside braces that
/// stand at the start of their lines.
pub open spec fn broken_list(ts: Seq<Seq<char>>, indent: int) -> Seq<char> {
    seq!['{'] + broken_lines(ts, true, indent) + seq![',', '\n', '}']
}

pub open spec fn closing() -> Seq<Tok> {
    seq![
        Tok::Alt(Seq::empty(), seq![',']),
        Tok::NestEnd,
        Tok::SoftLine,
        Tok::Text(seq!['}']),
        Tok::GroupEnd,
    ]
}

proof fn lemma_elements_atoms(items: Vec<Value>, m: int, cfg: Config)
    requires
        0 <= m <= items@.len(),
        forall|i: int| 0 <= i < items@.len() ==> is_atom(#[trigger] items@[i], cfg),
    ensures
        elements_doc(items, m, items@.len() as int, cfg) == atoms(
            atom_texts(items@.subrange(m, items@.len() as int), cfg),
            m == 0,
        ),
    decreases items@.len() - m,
{
    let n = items@.len() as int;
    let ts = atom_texts(items@.subrange(m, n), cfg);
    if m < n {
        lemma_elements_atoms(items, m + 1, cfg);
        assert(ts.drop_first() =~= atom_texts(items@.subrange(m + 1, n), cfg));
        assert(is_atom(items@[m], cfg));
        assert(value_doc(items@[m], cfg) =~= seq![Tok::Text(ts[0])]);
    } else {
        assert(ts =~= Seq::<Seq<char>>::empty());
    }
}

proof fn lemma_render_closing(width: int, indent: int, st: RenderState)
    requires
        st.modes == seq![false],
        st.level == 1,
        0 <= indent <= usize::MAX,
    ensures
        render_from(closing(), 0, width, indent, st) == seq![',', '\n', '}'],
{
    let c = closing();
    let s1 = step_state(c, 0, st, width, indent);
    let s2 = step_state(c, 1, s1, width, indent);
    let s3 = step_state(c, 2, s2, width, indent);
    let s4 = step_state(c, 3, s3, width, indent);
    let s5 = step_state(c, 4, s4, width, indent);
    assert(render_from(c, 5, width, indent, s5) == Seq::<char>::empty());
    assert(s2.level == 0);
    assert(step_out(c, 0, st, indent) =~= seq![',']);
    assert(step_out(c, 1, s1, indent) =~= Seq::<char>::empty());
    assert(step_out(c, 2, s2, indent) =~= seq!['\n']);
    assert(step_out(c, 3, s3, indent) =~= seq!['}']);
    assert(step_out(c, 4, s4, indent) =~= Seq::<char>::empty());
    assert(render_from(c, 4, width, indent, s4) =~= Seq::<char>::empty());
    assert(render_from(c, 3, width, indent, s3) =~= seq!['}']);
    assert(render_from(c, 2, width, indent, s2) =~= seq!['\n', '}']);
    assert(render_from(c, 1, width, indent, s1) =~= seq!['\n', '}']);
    assert(render_from(c, 0, width, indent, st) =~= seq![',', '\n', '}']);
}

proof fn lemma_render_atoms(ts: Seq<Seq<char>>, width: int, indent: int, st: RenderState)
    requires
        st.modes == seq![false],
        st.level == 1,
        0 <= indent <= usize::MAX,
    ensures
        render_from(atoms(ts, false) + closing(), 0, width, indent, st) == broken_lines(
            ts,
            false,
            indent,
        ) + seq![',', '\n', '}'],
    decreases ts.len(),
{
    let r = atoms(ts, false) + closing();
    if ts.len() == 0 {
        assert(r =~= closing());
        lemma_render_closing(width, indent, st);
    } else {
        let rest = atoms(ts.drop_first(), false) + closing();
        assert(r =~= seq![Tok::Text(seq![',']), Tok::Line, Tok::Text(ts[0])] + rest);
        let s1 = step_state(r, 0, st, width, indent);
        let s2 = step_state(r, 1, s1, width, indent);
        let s3 = step_state(r, 2, s2, width, indent);
        lemma_render_shift(r, 3, 3, width, indent, s3);
        assert(r.subrange(3, r.len() as int) =~= rest);
        lemma_render_atoms(ts.drop_first(), width, indent, s3);
        assert(step_out(r, 0, st, indent) =~= seq![',']);
        assert(step_out(r, 1, s1, indent) == line_break(1, indent));
        assert(step_out(r, 2, s2, indent) == ts[0]);
        assert(s3.modes == seq![false] && s3.level == 1);
        assert(render_from(r, 2, width, indent, s2) == ts[0] + render_from(r, 3, width, indent, s3));
        assert(render_from(r, 1, width, indent, s1) == line_break(1, indent) + render_from(r, 2, width, indent, s2));
        assert(render_from(r, 0, width, indent, st) =~= broken_lines(ts, false, indent) + seq![
            ',',
            '\n',
            '}',
        ]);
    }
}

proof fn lemma_atoms_plain(ts: Seq<Seq<char>>, first: bool)
    ensures
        forall|i: int|
            0 <= i < atoms(ts, first).len() ==> !forcing(#[trigger] atoms(ts, first)[i]),
    decreases ts.len(),
{
    if ts.len() > 0 {
        lemma_atoms_plain(ts.drop_first(), false);
        let a = atoms(ts, first);
        let pre = separator(first) + seq![Tok::Text(ts[0])];
        let rest = atoms(ts.drop_first(), false);
        assert(a == pre + rest);
        assert forall|i: int| 0 <= i < a.len() implies !forcing(#[trigger] a[i]) by {
            if i >= pre.len() {
                assert(a[i] == rest[i - pre.len()]);
            }
        }
    }
}

/// A result of one or more single-text items, not truncated, whose
/// single-line rendering is wider than the line width, is written one
/// item per line, indented one level and ended by a comma, with the
/// closing brace on a line of its own.
#[verifier::rlimit(60)]
pub proof fn lemma_overflowing_result_breaks(items: Vec<Value>, cfg: Config)
    requires
        items@.len() >= 1,
        forall|i: int| 0 <= i < items@.len() ==> is_atom(#[trigger] items@[i], cfg),
        shown_count(items@.len(), cfg.max_items) == items@.len(),
        flat_width(result_doc(items, cfg)) > width_of(cfg),
    ensures
        result_text(items, cfg) == broken_list(atom_texts(items@, cfg), cfg.indent as int),
{
    let n = items@.len() as int;
    let d = result_doc(items, cfg);
    let w = width_of(cfg);
    let ind = cfg.indent as int;
    let ts = atom_texts(items@, cfg);
    lemma_elements_atoms(items, 0, cfg);
    assert(items@.subrange(0, n) =~= items@);
    let body = elements_doc(items, 0, n, cfg);
    assert(body == atoms(ts, true));
    let rest = atoms(ts.drop_first(), false);
    assert(body =~= seq![Tok::SoftLine, Tok::Text(ts[0])] + rest);
    assert(d =~= seq![Tok::GroupStart, Tok::Text(seq!['{']), Tok::NestStart] + body + closing());
    lemma_elements_balanced(items, 0, n, cfg);
    lemma_frame_balanced(seq!['{'], seq!['}'], body, n as nat, n as nat, cfg.max_items, true);
    let inside = frame_inside(seq!['{'], seq!['}'], body, n as nat, n as nat, cfg.max_items, true);
    assert(d.subrange(1, d.len() - 1) =~= inside);
    lemma_atoms_plain(ts, true);
    assert forall|i: int| 0 <= i < d.len() implies !forcing(#[trigger] d[i]) by {
        if 3 <= i < 3 + body.len() {
            assert(d[i] == body[i - 3]);
        }
    }
    lemma_fits_flat(d, 1, 0, w);
    lemma_flat_text_step(d, 0);
    assert(d.subrange(0, d.len() as int) =~= d);
    let st0 = start_state();
    let s1 = step_state(d, 0, st0, w, ind);
    assert(s1.modes == seq![false]);
    let s2 = step_state(d, 1, s1, w, ind);
    let s3 = step_state(d, 2, s2, w, ind);
    let s4 = step_state(d, 3, s3, w, ind);
    let s5 = step_state(d, 4, s4, w, ind);
    assert(s5.level == 1);
    lemma_render_shift(d, 5, 5, w, ind, s5);
    assert(d.subrange(5, d.len() as int) =~= rest + closing());
    lemma_render_atoms(ts.drop_first(), w, ind, s5);
    assert(step_out(d, 3, s3, ind) == line_break(1, ind));
    let tail = broken_lines(ts.drop_first(), false, ind) + seq![',', '\n', '}'];
    assert(render_from(d, 5, w, ind, s5) == tail);
    assert(render_from(d, 4, w, ind, s4) == ts[0] + tail);
    assert(render_from(d, 3, w, ind, s3) == line_break(1, ind) + (ts[0] + tail));
    assert(render_from(d, 2, w, ind, s2) =~= line_break(1, ind) + (ts[0] + tail));
    assert(render_from(d, 1, w, ind, s1) =~= seq!['{'] + (line_break(1, ind) + (ts[0] + tail)));
    assert(render_from(d, 0, w, ind, st0) =~= seq!['{'] + (line_break(1, ind) + (ts[0] + tail)));
    assert(broken_lines(ts, true, ind) =~= line_break(1, ind) + ts[0] + broken_lines(
        ts.drop_first(),
        false,
        ind,
    ));
    assert(result_text(items, cfg) =~= broken_list(ts, ind));
}

} // verus!
