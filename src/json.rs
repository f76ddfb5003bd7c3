use vstd::prelude::*;

verus! {

/// A parsed JSON value. Numbers are kept as the decimal text that the
/// parser produced; object members keep their order of insertion.
#[derive(Debug)]
pub enum JsonValue {
    Null,
    Bool(bool),
    Number(String),
    Str(String),
    Array(Vec<JsonValue>),
    Object(Vec<(String, JsonValue)>),
}

} // verus!
