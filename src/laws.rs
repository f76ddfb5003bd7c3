//! Laws of the formatter, over the models of its functions.
use vstd::prelude::*;
use crate::builder::{all_eligible, brk_of, eligible, elems_doc, escape_char, escaped, quoted, value_doc};
use crate::doc::{cat, txt, DocM};
use crate::json::JsonValue;
use crate::prettify::pretty_text;
use crate::render::{fits, flat_len, layout, newline, trail_after};

verus! {

/// Formatting is deterministic: two formattings of one value tree with one
/// configuration give the same text.
pub proof fn lemma_deterministic(v: JsonValue, ind: nat, width: nat, a: Seq<char>, b: Seq<char>)
    requires
        a == pretty_text(v, ind, width),
        b == pretty_text(v, ind, width),
    ensures
        a == b,
{
}

/// The empty array is formatted as `[]` and the empty object as `{}`,
/// whatever the indentation and the width.
pub proof fn lemma_empty_containers(xs: Vec<JsonValue>, ms: Vec<(String, JsonValue)>, ind: nat, width: nat)
    requires
        xs.len() == 0,
        ms.len() == 0,
    ensures
        pretty_text(JsonValue::Array(xs), ind, width) == "[]"@,
        pretty_text(JsonValue::Object(ms), ind, width) == "{}"@,
{
    reveal_strlit("[");
    reveal_strlit("]");
    reveal_strlit("[]");
    reveal_with_fuel(layout, 3);
    let v = JsonValue::Array(xs);
    assert(eligible(v));
    assert(elems_doc(xs@, 0, ind, brk_of(false)) == DocM::Nil);
    let inner = cat(DocM::Line, DocM::Nil);
    let tail = cat(DocM::Line, txt("]"@));
    let nest = DocM::Nest(ind, Box::new(inner));
    let t = trail_after(tail, 0);
    assert(layout(inner, true, ind, 1, width, t).0 =~= Seq::<char>::empty());
    assert(layout(nest, true, 0, 1, width, t) == layout(inner, true, ind, 1, width, t));
    assert(layout(tail, true, 0, 1, width, 0).0 =~= "]"@);
    assert(layout(cat(nest, tail), true, 0, 1, width, 0).0 =~= "]"@);
    assert(value_doc(v, ind) == DocM::Flat(Box::new(cat(txt("["@), cat(nest, tail)))));
    assert(pretty_text(v, ind, width) =~= "[]"@);
}

/// An eligible array is laid out flat wherever it stands: at any mode,
/// indentation, column and width its layout is its flat layout.
pub proof fn lemma_eligible_array_flat(
    v: JsonValue,
    ind: nat,
    flat: bool,
    indent: nat,
    col: nat,
    width: nat,
    trail: nat,
)
    requires
        v is Array,
        eligible(v),
    ensures
        layout(value_doc(v, ind), flat, indent, col, width, trail) == layout(value_doc(v, ind), true, indent, col, width, trail),
{
}

/// No text of `d` holds a newline.
pub open spec fn one_line_texts(d: DocM) -> bool
    decreases d,
{
    match d {
        DocM::Text(s) => !s.contains('\n'),
        DocM::Nest(_, c) => one_line_texts(*c),
        DocM::Concat(a, b) => one_line_texts(*a) && one_line_texts(*b),
        DocM::Group(c) => one_line_texts(*c),
        DocM::Flat(c) => one_line_texts(*c),
        _ => true,
    }
}

/// Laid out flat, a document whose texts hold no newline is one line.
pub proof fn lemma_flat_one_line(d: DocM, indent: nat, col: nat, width: nat, trail: nat)
    requires
        one_line_texts(d),
    ensures
        !layout(d, true, indent, col, width, trail).0.contains('\n'),
    decreases d,
{
    match d {
        DocM::Space => {
            assert(layout(d, true, indent, col, width, trail).0 =~= seq![' ']);
            assert(seq![' '][0] == ' ');
        },
        DocM::Nest(n, c) => lemma_flat_one_line(*c, indent + n, col, width, trail),
        DocM::Concat(a, b) => {
            let ra = layout(*a, true, indent, col, width, trail_after(*b, trail));
            let rb = layout(*b, true, indent, ra.1, width, trail);
            lemma_flat_one_line(*a, indent, col, width, trail_after(*b, trail));
            lemma_flat_one_line(*b, indent, ra.1, width, trail);
            assert forall|i: int| 0 <= i < ra.0.len() + rb.0.len() implies (ra.0 + rb.0)[i] != '\n' by {
                if i < ra.0.len() {
                    assert((ra.0 + rb.0)[i] == ra.0[i]);
                } else {
                    assert((ra.0 + rb.0)[i] == rb.0[i - ra.0.len()]);
                }
            }
        },
        DocM::Group(c) => lemma_flat_one_line(*c, indent, col, width, trail),
        DocM::Flat(c) => lemma_flat_one_line(*c, indent, col, width, trail),
        _ => {},
    }
}

/// No number token of `v`, or of the arrays nested in it, holds a newline.
pub open spec fn numbers_one_line(v: JsonValue) -> bool
    decreases v, 0nat,
{
    match v {
        JsonValue::Number(n) => !n@.contains('\n'),
        JsonValue::Array(xs) => all_numbers_one_line(xs@, xs@.len()),
        _ => true,
    }
}

/// [`numbers_one_line`] holds of each of the first `n` elements of `xs`.
pub open spec fn all_numbers_one_line(xs: Seq<JsonValue>, n: nat) -> bool
    decreases xs, n,
{
    if n == 0 || n > xs.len() {
        n == 0
    } else {
        all_numbers_one_line(xs, (n - 1) as nat) && numbers_one_line(xs[n - 1])
    }
}

/// No string literal that [`quoted`] writes holds a newline.
pub proof fn lemma_quoted_one_line(s: Seq<char>)
    ensures
        !quoted(s).contains('\n'),
{
    lemma_escaped_one_line(s);
    let e = escaped(s);
    assert forall|i: int| 0 <= i < quoted(s).len() implies quoted(s)[i] != '\n' by {
        if 0 < i < e.len() + 1 {
            assert(quoted(s)[i] == e[i - 1]);
        }
    }
}

proof fn lemma_escape_char_one_line(c: char)
    ensures
        !escape_char(c).contains('\n'),
{
    let e = escape_char(c);
    if c != '"' && c != '\\' && c != '\u{8}' && c != '\u{c}' && c != '\n' && c != '\r' && c != '\t' && (c as u32) < 0x20 {
        let hex = seq!['0', '1', '2', '3', '4', '5', '6', '7', '8', '9', 'a', 'b', 'c', 'd', 'e', 'f'];
        assert forall|n: int| 0 <= n < 16 implies hex[n] != '\n' by {}
        assert(e[4] != '\n');
        assert(e[5] != '\n');
    }
    assert forall|i: int| 0 <= i < e.len() implies e[i] != '\n' by {}
}

proof fn lemma_escaped_one_line(s: Seq<char>)
    ensures
        !escaped(s).contains('\n'),
    decreases s.len(),
{
    if s.len() > 0 {
        lemma_escaped_one_line(s.drop_last());
        lemma_escape_char_one_line(s.last());
        let a = escaped(s.drop_last());
        let b = escape_char(s.last());
        assert(escaped(s) == a + b);
        assert forall|i: int| 0 <= i < a.len() + b.len() implies (a + b)[i] != '\n' by {
            if i < a.len() {
                assert((a + b)[i] == a[i]);
            } else {
                assert((a + b)[i] == b[i - a.len()]);
            }
        }
    }
}

proof fn lemma_value_doc_one_line(v: JsonValue, ind: nat)
    requires
        eligible(v),
        numbers_one_line(v),
    ensures
        one_line_texts(value_doc(v, ind)),
    decreases v, 0nat,
{
    reveal_strlit("null");
    reveal_strlit("true");
    reveal_strlit("false");
    reveal_strlit("{}");
    assert(!"null"@.contains('\n'));
    assert(!"true"@.contains('\n'));
    assert(!"false"@.contains('\n'));
    assert(!"{}"@.contains('\n'));
    match v {
        JsonValue::Str(s) => {
            lemma_quoted_one_line(s@);
        },
        JsonValue::Array(xs) => {
            reveal_strlit("[");
            reveal_strlit("]");
            reveal_with_fuel(one_line_texts, 6);
            assert(!"["@.contains('\n'));
            assert(!"]"@.contains('\n'));
            lemma_elems_one_line(xs@, xs@.len(), ind);
        },
        _ => {},
    }
}

proof fn lemma_elems_one_line(xs: Seq<JsonValue>, n: nat, ind: nat)
    requires
        all_eligible(xs, n),
        all_numbers_one_line(xs, n),
    ensures
        one_line_texts(elems_doc(xs, n, ind, brk_of(false))),
    decreases xs, n,
{
    reveal_strlit(",");
    reveal_with_fuel(one_line_texts, 3);
    assert(!","@.contains('\n'));
    if n > 0 && n <= xs.len() {
        lemma_value_doc_one_line(xs[n - 1], ind);
        if n > 1 {
            lemma_elems_one_line(xs, (n - 1) as nat, ind);
            let sep = cat(txt(","@), brk_of(false));
            assert(one_line_texts(sep));
            assert(one_line_texts(cat(sep, value_doc(xs[n - 1], ind))));
        }
    }
}

/// An eligible array whose numbers hold no newline is laid out on one
/// line, wherever it stands.
pub proof fn lemma_eligible_array_one_line(
    v: JsonValue,
    ind: nat,
    flat: bool,
    indent: nat,
    col: nat,
    width: nat,
    trail: nat,
)
    requires
        v is Array,
        eligible(v),
        numbers_one_line(v),
    ensures
        !layout(value_doc(v, ind), flat, indent, col, width, trail).0.contains('\n'),
{
    let d = value_doc(v, ind);
    lemma_value_doc_one_line(v, ind);
    lemma_flat_one_line(d, indent, col, width, trail);
}

/// Whether a non-empty object occurs in `v`, `v` itself included.
pub open spec fn holds_filled_object(v: JsonValue) -> bool
    decreases v, 0nat,
{
    match v {
        JsonValue::Array(xs) => any_filled_object(xs@, xs@.len()),
        JsonValue::Object(m) => m.len() > 0,
        _ => false,
    }
}

/// [`holds_filled_object`] holds of one of the first `n` elements of `xs`.
pub open spec fn any_filled_object(xs: Seq<JsonValue>, n: nat) -> bool
    decreases xs, n,
{
    if n == 0 || n > xs.len() {
        false
    } else {
        any_filled_object(xs, (n - 1) as nat) || holds_filled_object(xs[n - 1])
    }
}

/// A value is eligible for a one-line array exactly when no non-empty
/// object occurs in it.
pub proof fn lemma_eligible_iff_no_filled_object(v: JsonValue)
    ensures
        eligible(v) <==> !holds_filled_object(v),
    decreases v, 0nat,
{
    if let JsonValue::Array(xs) = v {
        lemma_all_eligible_iff_none_filled(xs@, xs@.len());
    }
}

proof fn lemma_all_eligible_iff_none_filled(xs: Seq<JsonValue>, n: nat)
    requires
        n <= xs.len(),
    ensures
        all_eligible(xs, n) <==> !any_filled_object(xs, n),
    decreases xs, n,
{
    if n > 0 {
        lemma_eligible_iff_no_filled_object(xs[n - 1]);
        lemma_all_eligible_iff_none_filled(xs, (n - 1) as nat);
    }
}

/// An array that is not eligible is laid out broken: laid out as a line of
/// its own, a newline follows its opening bracket at once.
pub proof fn lemma_ineligible_array_broken(v: JsonValue, ind: nat, indent: nat, col: nat, width: nat, trail: nat)
    requires
        v is Array,
        !eligible(v),
    ensures
        layout(value_doc(v, ind), false, indent, col, width, trail).0[1] == '\n',
{
    reveal_strlit("[");
    reveal_with_fuel(layout, 3);
    let xs = v->Array_0;
    let body = elems_doc(xs@, xs@.len(), ind, brk_of(true));
    let inner = cat(DocM::Line, body);
    let nest = DocM::Nest(ind, Box::new(inner));
    let tail = cat(DocM::Line, txt("]"@));
    let li = layout(inner, false, indent + ind, col + 1, width, trail_after(tail, trail));
    assert(li.0 =~= newline(indent + ind) + layout(body, false, indent + ind, indent + ind, width, trail_after(tail, trail)).0);
    let ln = layout(cat(nest, tail), false, indent, col + 1, width, trail);
    assert(ln.0 == li.0 + layout(tail, false, indent, li.1, width, trail).0);
    assert(value_doc(v, ind) == cat(txt("["@), cat(nest, tail)));
    let t = layout(value_doc(v, ind), false, indent, col, width, trail).0;
    assert(t == "["@ + ln.0);
    assert(t[1] == ln.0[0]);
}

/// Laid out flat, a document ends its flat length past where it starts.
pub proof fn lemma_flat_end_column(d: DocM, indent: nat, col: nat, width: nat, trail: nat)
    ensures
        layout(d, true, indent, col, width, trail).1 == col + flat_len(d),
    decreases d,
{
    match d {
        DocM::Nest(n, c) => lemma_flat_end_column(*c, indent + n, col, width, trail),
        DocM::Concat(a, b) => {
            lemma_flat_end_column(*a, indent, col, width, trail_after(*b, trail));
            lemma_flat_end_column(*b, indent, col + flat_len(*a), width, trail);
        },
        DocM::Group(c) => lemma_flat_end_column(*c, indent, col, width, trail),
        DocM::Flat(c) => lemma_flat_end_column(*c, indent, col, width, trail),
        _ => {},
    }
}

/// A group that fits is laid out flat, and neither its characters nor the
/// `trail` characters that follow it up to the next break stand at or
/// past column `width`.
pub proof fn lemma_fitting_group_within_width(c: DocM, flat: bool, indent: nat, col: nat, width: nat, trail: nat)
    requires
        fits(c, col, width, trail),
    ensures
        layout(DocM::Group(Box::new(c)), flat, indent, col, width, trail) == layout(c, true, indent, col, width, trail),
        layout(DocM::Group(Box::new(c)), flat, indent, col, width, trail).1 + trail <= width,
{
    lemma_flat_end_column(c, indent, col, width, trail);
}

} // verus!
