//! Formatting a value tree as text.
use vstd::prelude::*;
use crate::builder::{value, value_doc};
use crate::json::JsonValue;
use crate::render::{doc_size, render, rendered, size};

verus! {

/// The text of `v`, nested by `ind` columns per level, for lines of
/// `width` columns.
pub open spec fn pretty_text(v: JsonValue, ind: nat, width: nat) -> Seq<char> {
    rendered(value_doc(v, ind), width)
}

/// Formats `v` with `ind` columns of indentation per level for lines of
/// `width` columns; `None` only where the document of `v` is too large
/// for the machine's column arithmetic.
pub fn prettify(v: &JsonValue, ind: usize, width: usize) -> (r: Option<String>)
    ensures
        r is Some <==> size(value_doc(*v, ind as nat)) <= usize::MAX,
        r matches Some(s) ==> s@ == pretty_text(*v, ind as nat, width as nat),
{
    let d = value(v, ind);
    match doc_size(&d) {
        Some(_) => Some(render(&d, width)),
        None => None,
    }
}

} // verus!
