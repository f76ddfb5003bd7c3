//! Width-bounded pretty printing of JSON value trees.
//!
//! A value tree is first turned into a layout document (`builder`), which
//! the layout renderer (`render`) turns into text.
mod builder;
mod doc;
mod json;
mod laws;
mod prettify;
mod render;

pub use builder::{
    all_eligible, allow_oneline, block, brk_of, elems_doc, eligible, escape_char, escaped, hex_digit, pair_doc, pairs_doc, quoted, value,
    value_doc,
};
pub use doc::{cat, model, txt, Doc, DocM};
pub use json::JsonValue;
pub use laws::{lemma_deterministic, lemma_empty_containers, lemma_eligible_array_flat, lemma_ineligible_array_broken,
    lemma_flat_end_column, lemma_fitting_group_within_width, lemma_flat_one_line,
    lemma_eligible_array_one_line, one_line_texts, numbers_one_line, all_numbers_one_line, lemma_quoted_one_line,
    holds_filled_object, any_filled_object, lemma_eligible_iff_no_filled_object};
pub use prettify::{prettify, pretty_text};
pub use render::{doc_size, fits, flat_len, has_break, has_line, head_len, trail_after, layout, newline, render, rendered, size, spaces};
