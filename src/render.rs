//! The layout renderer: from a document and a line width to text.
use vstd::prelude::*;
use vstd::string::{StrSliceExecFns, StringExecFns};
use crate::doc::{Doc, DocM};

verus! {

/// `n` space characters.
pub open spec fn spaces(n: nat) -> Seq<char> {
    Seq::new(n, |_i: int| ' ')
}

/// A newline followed by the indentation `indent`.
pub open spec fn newline(indent: nat) -> Seq<char> {
    seq!['\n'] + spaces(indent)
}

/// Whether `d` holds a `Line` outside of any `Flat`: a line break that no
/// group may lay out flat.
pub open spec fn has_line(d: DocM) -> bool
    decreases d,
{
    match d {
        DocM::Line => true,
        DocM::Nest(_, c) => has_line(*c),
        DocM::Concat(a, b) => has_line(*a) || has_line(*b),
        DocM::Group(c) => has_line(*c),
        _ => false,
    }
}

/// The number of characters of `d` laid out flat.
pub open spec fn flat_len(d: DocM) -> nat
    decreases d,
{
    match d {
        DocM::Text(s) => s.len(),
        DocM::Space => 1,
        DocM::Nest(_, c) => flat_len(*c),
        DocM::Concat(a, b) => flat_len(*a) + flat_len(*b),
        DocM::Group(c) => flat_len(*c),
        DocM::Flat(c) => flat_len(*c),
        _ => 0,
    }
}

/// Whether `d` holds a `Line` or a `Space` outside of any `Flat`: a place
/// where a line may break.
pub open spec fn has_break(d: DocM) -> bool
    decreases d,
{
    match d {
        DocM::Line => true,
        DocM::Space => true,
        DocM::Nest(_, c) => has_break(*c),
        DocM::Concat(a, b) => has_break(*a) || has_break(*b),
        DocM::Group(c) => has_break(*c),
        _ => false,
    }
}

/// The number of characters of `d` before its first `Line` or `Space`
/// outside of any `Flat`; all of `d` laid out flat where it has none.
pub open spec fn head_len(d: DocM) -> nat
    decreases d,
{
    match d {
        DocM::Text(s) => s.len(),
        DocM::Nest(_, c) => head_len(*c),
        DocM::Concat(a, b) => if has_break(*a) {
            head_len(*a)
        } else {
            head_len(*a) + head_len(*b)
        },
        DocM::Group(c) => head_len(*c),
        DocM::Flat(c) => flat_len(*c),
        _ => 0,
    }
}

/// The characters that follow `a` on its line up to the next break, where
/// `b` follows `a` and `trail` characters follow `b` up to the next break.
pub open spec fn trail_after(b: DocM, trail: nat) -> nat {
    if has_break(b) {
        head_len(b)
    } else {
        head_len(b) + trail
    }
}

/// A group holding `d` that starts at column `col`, followed by `trail`
/// characters up to the next break, fits: it holds no `Line`, and laid
/// out flat, neither it nor what follows it up to the next break puts a
/// character at or past column `width`.
pub open spec fn fits(d: DocM, col: nat, width: nat, trail: nat) -> bool {
    !has_line(d) && col + flat_len(d) + trail <= width
}

/// The text of `d` laid out flat or broken, at indentation `indent`,
/// starting at column `col`, with `trail` characters after it up to the
/// next break; and the column where it ends.
pub open spec fn layout(d: DocM, flat: bool, indent: nat, col: nat, width: nat, trail: nat) -> (
    Seq<char>,
    nat,
)
    decreases d,
{
    match d {
        DocM::Nil => (seq![], col),
        DocM::Text(s) => (s, col + s.len()),
        DocM::Line => if flat {
            (seq![], col)
        } else {
            (newline(indent), indent)
        },
        DocM::Space => if flat {
            (seq![' '], col + 1)
        } else {
            (newline(indent), indent)
        },
        DocM::Nest(n, c) => layout(*c, flat, indent + n, col, width, trail),
        DocM::Concat(a, b) => {
            let ra = layout(*a, flat, indent, col, width, trail_after(*b, trail));
            let rb = layout(*b, flat, indent, ra.1, width, trail);
            (ra.0 + rb.0, rb.1)
        },
        DocM::Group(c) => layout(*c, flat || fits(*c, col, width, trail), indent, col, width, trail),
        DocM::Flat(c) => layout(*c, true, indent, col, width, trail),
    }
}

/// The text of `d` for lines of `width` columns: laid out broken from
/// column 0, without indentation.
pub open spec fn rendered(d: DocM, width: nat) -> Seq<char> {
    layout(d, false, 0, 0, width, 0).0
}

/// A bound on every column and indentation that laying out `d` reaches,
/// beyond those it starts from.
pub open spec fn size(d: DocM) -> nat
    decreases d,
{
    match d {
        DocM::Text(s) => s.len(),
        DocM::Space => 1,
        DocM::Nest(n, c) => n + size(*c),
        DocM::Concat(a, b) => size(*a) + size(*b),
        DocM::Group(c) => size(*c),
        DocM::Flat(c) => size(*c),
        _ => 0,
    }
}

proof fn lemma_end_column(d: DocM, flat: bool, indent: nat, col: nat, width: nat, trail: nat)
    ensures
        layout(d, flat, indent, col, width, trail).1 <= (if col >= indent { col } else { indent }) + size(d),
    decreases d,
{
    match d {
        DocM::Nest(n, c) => lemma_end_column(*c, flat, indent + n, col, width, trail),
        DocM::Concat(a, b) => {
            let ra = layout(*a, flat, indent, col, width, trail_after(*b, trail));
            lemma_end_column(*a, flat, indent, col, width, trail_after(*b, trail));
            lemma_end_column(*b, flat, indent, ra.1, width, trail);
        },
        DocM::Group(c) => lemma_end_column(*c, flat || fits(*c, col, width, trail), indent, col, width, trail),
        DocM::Flat(c) => lemma_end_column(*c, true, indent, col, width, trail),
        _ => {},
    }
}

proof fn lemma_head_len_le_flat_len(d: DocM)
    ensures
        head_len(d) <= flat_len(d),
    decreases d,
{
    match d {
        DocM::Nest(_, c) => lemma_head_len_le_flat_len(*c),
        DocM::Concat(a, b) => {
            lemma_head_len_le_flat_len(*a);
            lemma_head_len_le_flat_len(*b);
        },
        DocM::Group(c) => lemma_head_len_le_flat_len(*c),
        _ => {},
    }
}

proof fn lemma_flat_len_le_size(d: DocM)
    ensures
        flat_len(d) <= size(d),
    decreases d,
{
    match d {
        DocM::Nest(_, c) => lemma_flat_len_le_size(*c),
        DocM::Concat(a, b) => {
            lemma_flat_len_le_size(*a);
            lemma_flat_len_le_size(*b);
        },
        DocM::Group(c) => lemma_flat_len_le_size(*c),
        DocM::Flat(c) => lemma_flat_len_le_size(*c),
        _ => {},
    }
}

/// Whether `d` holds a `Line`.
fn doc_has_line(d: &Doc) -> (r: bool)
    ensures
        r == has_line(d@),
    decreases d,
{
    match d {
        Doc::Line => true,
        Doc::Nest(_, c) => doc_has_line(c),
        Doc::Concat(a, b) => doc_has_line(a) || doc_has_line(b),
        Doc::Group(c) => doc_has_line(c),
        _ => false,
    }
}

/// Whether `d` holds a `Line` or a `Space` outside of any `Flat`.
fn doc_has_break(d: &Doc) -> (r: bool)
    ensures
        r == has_break(d@),
    decreases d,
{
    match d {
        Doc::Line => true,
        Doc::Space => true,
        Doc::Nest(_, c) => doc_has_break(c),
        Doc::Concat(a, b) => doc_has_break(a) || doc_has_break(b),
        Doc::Group(c) => doc_has_break(c),
        _ => false,
    }
}

/// The number of characters of `d` before its first break.
fn doc_head_len(d: &Doc) -> (r: usize)
    requires
        size(d@) <= usize::MAX,
    ensures
        r == head_len(d@),
    decreases d,
{
    proof {
        lemma_head_len_le_flat_len(d@);
        lemma_flat_len_le_size(d@);
    }
    match d {
        Doc::Text(s) => s.as_str().unicode_len(),
        Doc::Nest(_, c) => doc_head_len(c),
        Doc::Concat(a, b) => {
            proof {
                lemma_head_len_le_flat_len(a@);
                lemma_flat_len_le_size(a@);
                lemma_head_len_le_flat_len(b@);
                lemma_flat_len_le_size(b@);
            }
            if doc_has_break(a) {
                doc_head_len(a)
            } else {
                doc_head_len(a) + doc_head_len(b)
            }
        },
        Doc::Group(c) => doc_head_len(c),
        Doc::Flat(c) => doc_flat_len(c),
        _ => 0,
    }
}

/// The number of characters of `d` laid out flat.
fn doc_flat_len(d: &Doc) -> (r: usize)
    requires
        size(d@) <= usize::MAX,
    ensures
        r == flat_len(d@),
    decreases d,
{
    proof {
        lemma_flat_len_le_size(d@);
    }
    match d {
        Doc::Text(s) => s.as_str().unicode_len(),
        Doc::Space => 1,
        Doc::Nest(_, c) => doc_flat_len(c),
        Doc::Concat(a, b) => {
            proof {
                lemma_flat_len_le_size(a@);
                lemma_flat_len_le_size(b@);
            }
            doc_flat_len(a) + doc_flat_len(b)
        },
        Doc::Group(c) => doc_flat_len(c),
        Doc::Flat(c) => doc_flat_len(c),
        _ => 0,
    }
}

/// Appends a newline and `indent` spaces to `out`.
fn push_newline(indent: usize, out: &mut String)
    ensures
        final(out)@ == old(out)@ + newline(indent as nat),
{
    out.append("\n");
    let mut k: usize = 0;
    proof {
        reveal_strlit("\n");
        assert(out@ =~= old(out)@ + seq!['\n'] + spaces(0));
    }
    while k < indent
        invariant
            k <= indent,
            out@ == old(out)@ + seq!['\n'] + spaces(k as nat),
        decreases indent - k,
    {
        out.append(" ");
        proof {
            reveal_strlit(" ");
            assert(spaces((k + 1) as nat) =~= spaces(k as nat) + seq![' ']);
        }
        k = k + 1;
    }
    proof {
        assert(old(out)@ + seq!['\n'] + spaces(indent as nat) =~= old(out)@ + newline(indent as nat));
    }
}

/// Appends the layout of `d` to `out` and returns the column where it ends.
fn layout_into(
    d: &Doc,
    flat: bool,
    indent: usize,
    col: usize,
    width: usize,
    trail: usize,
    out: &mut String,
) -> (r: usize)
    requires
        col + size(d@) + trail <= usize::MAX,
        indent + size(d@) + trail <= usize::MAX,
    ensures
        final(out)@ == old(out)@ + layout(d@, flat, indent as nat, col as nat, width as nat, trail as nat).0,
        r == layout(d@, flat, indent as nat, col as nat, width as nat, trail as nat).1,
    decreases d,
{
    match d {
        Doc::Nil => {
            assert(out@ =~= old(out)@ + Seq::<char>::empty());
            col
        },
        Doc::Text(s) => {
            let n = s.as_str().unicode_len();
            out.append(s.as_str());
            col + n
        },
        Doc::Line => {
            if flat {
                assert(out@ =~= old(out)@ + Seq::<char>::empty());
                col
            } else {
                push_newline(indent, out);
                indent
            }
        },
        Doc::Space => {
            if flat {
                out.append(" ");
                proof {
                    reveal_strlit(" ");
                }
                col + 1
            } else {
                push_newline(indent, out);
                indent
            }
        },
        Doc::Nest(n, c) => layout_into(c, flat, indent + *n, col, width, trail, out),
        Doc::Concat(a, b) => {
            proof {
                lemma_head_len_le_flat_len(b@);
                lemma_flat_len_le_size(b@);
            }
            let after = if doc_has_break(b) {
                doc_head_len(b)
            } else {
                doc_head_len(b) + trail
            };
            proof {
                lemma_end_column(a@, flat, indent as nat, col as nat, width as nat, after as nat);
            }
            let mid = layout_into(a, flat, indent, col, width, after, out);
            let end = layout_into(b, flat, indent, mid, width, trail, out);
            proof {
                let ra = layout(a@, flat, indent as nat, col as nat, width as nat, after as nat);
                let rb = layout(b@, flat, indent as nat, mid as nat, width as nat, trail as nat);
                assert(final(out)@ =~= old(out)@ + (ra.0 + rb.0));
            }
            end
        },
        Doc::Group(c) => {
            proof {
                lemma_flat_len_le_size(c@);
            }
            let f = flat || (!doc_has_line(c) && col + doc_flat_len(c) + trail <= width);
            layout_into(c, f, indent, col, width, trail, out)
        },
        Doc::Flat(c) => layout_into(c, true, indent, col, width, trail, out),
    }
}

/// The [`size`] of `d`, or `None` where it exceeds `usize::MAX`.
pub fn doc_size(d: &Doc) -> (r: Option<usize>)
    ensures
        r is Some <==> size(d@) <= usize::MAX,
        r matches Some(n) ==> n == size(d@),
    decreases d,
{
    match d {
        Doc::Text(s) => Some(s.as_str().unicode_len()),
        Doc::Space => Some(1),
        Doc::Nest(n, c) => match doc_size(c) {
            Some(k) => n.checked_add(k),
            None => None,
        },
        Doc::Concat(a, b) => match (doc_size(a), doc_size(b)) {
            (Some(x), Some(y)) => x.checked_add(y),
            _ => None,
        },
        Doc::Group(c) => doc_size(c),
        Doc::Flat(c) => doc_size(c),
        _ => Some(0),
    }
}

/// Renders `d` for lines of `width` columns.
pub fn render(d: &Doc, width: usize) -> (r: String)
    requires
        size(d@) <= usize::MAX,
    ensures
        r@ == rendered(d@, width as nat),
{
    let mut out = String::new();
    layout_into(d, false, 0, 0, width, 0, &mut out);
    assert(out@ =~= rendered(d@, width as nat));
    out
}

} // verus!
