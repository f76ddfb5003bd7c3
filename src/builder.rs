//! From a value tree to a layout document.
use vstd::prelude::*;
use vstd::string::StringExecFns;
use crate::doc::{cat, txt, Doc, DocM};
use crate::json::JsonValue;

verus! {

broadcast use vstd::std_specs::vec::group_vec_axioms;

/// The lowercase hexadecimal digit of `n`, for `n < 16`.
pub open spec fn hex_digit(n: u32) -> char {
    seq!['0', '1', '2', '3', '4', '5', '6', '7', '8', '9', 'a', 'b', 'c', 'd', 'e', 'f'][n as int]
}

/// How `c` is written inside a JSON string literal: quote, backslash and
/// the control characters with a short escape get a backslash and a
/// letter, the other control characters a `\u00XX` escape, and any other
/// character stands as it is.
pub open spec fn escape_char(c: char) -> Seq<char> {
    if c == '"' {
        seq!['\\', '"']
    } else if c == '\\' {
        seq!['\\', '\\']
    } else if c == '\u{8}' {
        seq!['\\', 'b']
    } else if c == '\u{c}' {
        seq!['\\', 'f']
    } else if c == '\n' {
        seq!['\\', 'n']
    } else if c == '\r' {
        seq!['\\', 'r']
    } else if c == '\t' {
        seq!['\\', 't']
    } else if (c as u32) < 0x20 {
        seq!['\\', 'u', '0', '0', hex_digit((c as u32) / 16), hex_digit((c as u32) % 16)]
    } else {
        seq![c]
    }
}

/// The characters of `s`, each written as [`escape_char`] says.
pub open spec fn escaped(s: Seq<char>) -> Seq<char>
    decreases s.len(),
{
    if s.len() == 0 {
        seq![]
    } else {
        escaped(s.drop_last()) + escape_char(s.last())
    }
}

/// The JSON string literal, quotes included, that spells `s`.
pub open spec fn quoted(s: Seq<char>) -> Seq<char> {
    seq!['"'] + escaped(s) + seq!['"']
}

/// Relies on serde_json's `Display` for `Value::String`, which writes the
/// string between quotes, escaping each character by its escape table
/// (`format_escaped_str`).
#[verifier::external_body]
fn js_string(s: &String) -> (r: String)
    ensures
        r@ == quoted(s@),
{
    serde_json::Value::String(s.clone()).to_string()
}

/// May an array holding `v` be laid out on one line: scalars, empty
/// objects and arrays of such values may.
pub open spec fn eligible(v: JsonValue) -> bool
    decreases v, 0nat,
{
    match v {
        JsonValue::Array(xs) => all_eligible(xs@, xs@.len()),
        JsonValue::Object(m) => m.len() == 0,
        _ => true,
    }
}

/// Each of the first `n` elements of `xs` is [`eligible`].
pub open spec fn all_eligible(xs: Seq<JsonValue>, n: nat) -> bool
    decreases xs, n,
{
    if n == 0 || n > xs.len() {
        n == 0
    } else {
        all_eligible(xs, (n - 1) as nat) && eligible(xs[n - 1])
    }
}

/// `open`, a `Line` and `body` nested by `ind`, a `Line` and `close`.
pub open spec fn block(open: Seq<char>, body: DocM, close: Seq<char>, ind: nat) -> DocM {
    cat(txt(open), cat(DocM::Nest(ind, Box::new(cat(DocM::Line, body))), cat(DocM::Line, txt(close))))
}

/// The first `n` elements of `xs`, separated by a comma and `brk`.
pub open spec fn elems_doc(xs: Seq<JsonValue>, n: nat, ind: nat, brk: DocM) -> DocM
    decreases xs, n,
{
    if n == 0 || n > xs.len() {
        DocM::Nil
    } else if n == 1 {
        value_doc(xs[0], ind)
    } else {
        cat(
            elems_doc(xs, (n - 1) as nat, ind, brk),
            cat(cat(txt(","@), brk), value_doc(xs[n - 1], ind)),
        )
    }
}

/// One object member: its key, a colon and its value, as one group.
pub open spec fn pair_doc(k: Seq<char>, v: JsonValue, ind: nat) -> DocM
    decreases v, 1nat,
{
    DocM::Group(Box::new(cat(txt(quoted(k)), cat(txt(": "@), value_doc(v, ind)))))
}

/// The first `n` members of `ms`, one per line.
pub open spec fn pairs_doc(ms: Seq<(String, JsonValue)>, n: nat, ind: nat) -> DocM
    decreases ms, n,
{
    if n == 0 || n > ms.len() {
        DocM::Nil
    } else if n == 1 {
        pair_doc(ms[0].0@, ms[0].1, ind)
    } else {
        cat(
            pairs_doc(ms, (n - 1) as nat, ind),
            cat(cat(txt(","@), DocM::Line), pair_doc(ms[n - 1].0@, ms[n - 1].1, ind)),
        )
    }
}

/// The document of a value, with `ind` columns of indentation per level.
pub open spec fn value_doc(v: JsonValue, ind: nat) -> DocM
    decreases v, 0nat,
{
    match v {
        JsonValue::Null => txt("null"@),
        JsonValue::Bool(b) => if b { txt("true"@) } else { txt("false"@) },
        JsonValue::Number(n) => txt(n@),
        JsonValue::Str(s) => txt(quoted(s@)),
        JsonValue::Array(xs) => if eligible(v) {
            DocM::Flat(Box::new(block("["@, elems_doc(xs@, xs@.len(), ind, brk_of(false)), "]"@, ind)))
        } else {
            block("["@, elems_doc(xs@, xs@.len(), ind, brk_of(true)), "]"@, ind)
        },
        JsonValue::Object(m) => if m@.len() == 0 {
            txt("{}"@)
        } else {
            DocM::Group(Box::new(block("{"@, pairs_doc(m@, m@.len(), ind), "}"@, ind)))
        },
    }
}

/// Whether `v` may stand in an array laid out on one line.
pub fn allow_oneline(v: &JsonValue) -> (r: bool)
    ensures
        r == eligible(*v),
    decreases v,
{
    match v {
        JsonValue::Array(xs) => {
            let mut i: usize = 0;
            while i < xs.len()
                invariant
                    *v == JsonValue::Array(*xs),
                    i <= xs.len(),
                    all_eligible(xs@, i as nat),
                decreases xs.len() - i,
            {
                proof {
                    lemma_element_decreases(*v, i as int);
                }
                if !allow_oneline(&xs[i]) {
                    proof {
                        if all_eligible(xs@, xs@.len()) {
                            lemma_all_eligible_prefix(xs@, xs@.len(), (i + 1) as nat);
                        }
                    }
                    return false;
                }
                i = i + 1;
            }
            true
        },
        JsonValue::Object(m) => m.len() == 0,
        _ => true,
    }
}

proof fn lemma_element_decreases(v: JsonValue, i: int)
    requires
        v is Array,
        0 <= i < v->Array_0.len(),
    ensures
        decreases_to!(v => v->Array_0[i]),
{
    let xs = v->Array_0;
    assert(decreases_to!(v => xs));
    assert(decreases_to!(xs => xs[i]));
}

proof fn lemma_all_eligible_prefix(xs: Seq<JsonValue>, n: nat, k: nat)
    requires
        k <= n <= xs.len(),
        all_eligible(xs, n),
    ensures
        all_eligible(xs, k),
    decreases n,
{
    if k < n {
        lemma_all_eligible_prefix(xs, (n - 1) as nat, k);
    }
}

/// The break between the elements of an array: a `Line` when `hard`, else
/// a `Space`.
pub open spec fn brk_of(hard: bool) -> DocM {
    if hard { DocM::Line } else { DocM::Space }
}

fn brk(hard: bool) -> (r: Doc)
    ensures
        r@ == brk_of(hard),
{
    if hard { Doc::Line } else { Doc::Space }
}

/// `open`, a `Line` and `body` nested by `ind`, a `Line` and `close`.
fn alloc_block(open: &str, body: Doc, close: &str, ind: usize) -> (r: Doc)
    ensures
        r@ == block(open@, body@, close@, ind as nat),
{
    Doc::concat(
        Doc::text(String::from_str(open)),
        Doc::concat(
            Doc::nest(ind, Doc::concat(Doc::Line, body)),
            Doc::concat(Doc::Line, Doc::text(String::from_str(close))),
        ),
    )
}

/// The document of an array's elements, separated by a comma and a
/// `Space` (`oneline`) or a `Line`.
fn array_values(xs: &Vec<JsonValue>, oneline: bool, ind: usize) -> (r: Doc)
    ensures
        r@ == elems_doc(xs@, xs.len() as nat, ind as nat, brk_of(!oneline)),
    decreases xs, 0nat,
{
    let mut acc = Doc::Nil;
    let mut i: usize = 0;
    while i < xs.len()
        invariant
            i <= xs.len(),
            acc@ == elems_doc(xs@, i as nat, ind as nat, brk_of(!oneline)),
        decreases xs.len() - i,
    {
        let d = value(&xs[i], ind);
        if i == 0 {
            acc = d;
        } else {
            let sep = brk(!oneline);
            acc = Doc::concat(acc, Doc::concat(Doc::concat(Doc::text(String::from_str(",")), sep), d));
        }
        i = i + 1;
    }
    acc
}

/// One object member as a group: key, colon and value.
fn pair(key: &String, val: &JsonValue, ind: usize) -> (r: Doc)
    ensures
        r@ == pair_doc(key@, *val, ind as nat),
    decreases val, 1nat,
{
    Doc::group(
        Doc::concat(
            Doc::text(js_string(key)),
            Doc::concat(Doc::text(String::from_str(": ")), value(val, ind)),
        ),
    )
}

/// The members of an object, one per line.
fn pairs(ms: &Vec<(String, JsonValue)>, ind: usize) -> (r: Doc)
    ensures
        r@ == pairs_doc(ms@, ms.len() as nat, ind as nat),
    decreases ms, 0nat,
{
    let mut acc = Doc::Nil;
    let mut i: usize = 0;
    while i < ms.len()
        invariant
            i <= ms.len(),
            acc@ == pairs_doc(ms@, i as nat, ind as nat),
        decreases ms.len() - i,
    {
        let d = pair(&ms[i].0, &ms[i].1, ind);
        if i == 0 {
            acc = d;
        } else {
            acc = Doc::concat(acc, Doc::concat(Doc::concat(Doc::text(String::from_str(",")), Doc::Line), d));
        }
        i = i + 1;
    }
    acc
}

/// The document of an object: `{}` when empty, else one group that holds
/// the members one per line.
fn obj_values(ms: &Vec<(String, JsonValue)>, ind: usize) -> (r: Doc)
    ensures
        r@ == value_doc(JsonValue::Object(*ms), ind as nat),
    decreases ms, 1nat,
{
    if ms.len() == 0 {
        Doc::text(String::from_str("{}"))
    } else {
        Doc::group(alloc_block("{", pairs(ms, ind), "}", ind))
    }
}

/// The layout document of `v`, nesting each level by `ind` columns.
pub fn value(v: &JsonValue, ind: usize) -> (r: Doc)
    ensures
        r@ == value_doc(*v, ind as nat),
    decreases v, 0nat,
{
    match v {
        JsonValue::Null => Doc::text(String::from_str("null")),
        JsonValue::Bool(b) => if *b {
            Doc::text(String::from_str("true"))
        } else {
            Doc::text(String::from_str("false"))
        },
        JsonValue::Number(n) => Doc::text(n.clone()),
        JsonValue::Str(s) => Doc::text(js_string(s)),
        JsonValue::Array(xs) => {
            let oneline = allow_oneline(v);
            if oneline {
                let values = array_values(xs, true, ind);
                Doc::flat(alloc_block("[", values, "]", ind))
            } else {
                let values = array_values(xs, false, ind);
                alloc_block("[", values, "]", ind)
            }
        },
        JsonValue::Object(ms) => obj_values(ms, ind),
    }
}

} // verus!
