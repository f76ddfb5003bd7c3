use vstd::prelude::*;

verus! {

/// A layout document.
///
/// `Line` is a break that is a newline when broken and nothing when flat;
/// `Space` is a newline when broken and one space when flat. A `Group`
/// lays its child out flat when it fits on the current line, and broken
/// otherwise; `Flat` lays its child out flat whatever the width.
pub enum Doc {
    Nil,
    Text(String),
    Line,
    Space,
    Nest(usize, Box<Doc>),
    Concat(Box<Doc>, Box<Doc>),
    Group(Box<Doc>),
    Flat(Box<Doc>),
}

/// The mathematical model of a [`Doc`].
pub enum DocM {
    Nil,
    Text(Seq<char>),
    Line,
    Space,
    Nest(nat, Box<DocM>),
    Concat(Box<DocM>, Box<DocM>),
    Group(Box<DocM>),
    Flat(Box<DocM>),
}

/// The model of a document: its strings as character sequences.
pub open spec fn model(d: Doc) -> DocM
    decreases d,
{
    match d {
        Doc::Nil => DocM::Nil,
        Doc::Text(s) => DocM::Text(s@),
        Doc::Line => DocM::Line,
        Doc::Space => DocM::Space,
        Doc::Nest(n, c) => DocM::Nest(n as nat, Box::new(model(*c))),
        Doc::Concat(a, b) => DocM::Concat(Box::new(model(*a)), Box::new(model(*b))),
        Doc::Group(c) => DocM::Group(Box::new(model(*c))),
        Doc::Flat(c) => DocM::Flat(Box::new(model(*c))),
    }
}

impl View for Doc {
    type V = DocM;

    open spec fn view(&self) -> DocM {
        model(*self)
    }
}

/// `a` followed by `b`.
pub open spec fn cat(a: DocM, b: DocM) -> DocM {
    DocM::Concat(Box::new(a), Box::new(b))
}

pub open spec fn txt(s: Seq<char>) -> DocM {
    DocM::Text(s)
}

impl Doc {
    pub fn text(s: String) -> (r: Doc)
        ensures
            r@ == DocM::Text(s@),
    {
        Doc::Text(s)
    }

    pub fn concat(a: Doc, b: Doc) -> (r: Doc)
        ensures
            r@ == cat(a@, b@),
    {
        Doc::Concat(Box::new(a), Box::new(b))
    }

    pub fn nest(n: usize, c: Doc) -> (r: Doc)
        ensures
            r@ == DocM::Nest(n as nat, Box::new(c@)),
    {
        Doc::Nest(n, Box::new(c))
    }

    pub fn group(c: Doc) -> (r: Doc)
        ensures
            r@ == DocM::Group(Box::new(c@)),
    {
        Doc::Group(Box::new(c))
    }

    pub fn flat(c: Doc) -> (r: Doc)
        ensures
            r@ == DocM::Flat(Box::new(c@)),
    {
        Doc::Flat(Box::new(c))
    }
}

} // verus!
