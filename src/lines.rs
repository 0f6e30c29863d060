//! Splitting a document into lines.

use vstd::prelude::*;

verus! {

/// Position of the first newline in `s`, or `s.len()` when there is none.
pub open spec fn first_newline(s: Seq<char>) -> int
    decreases s.len(),
{
    if s.len() == 0 {
        0
    } else if s[0] == '\n' {
        0
    } else {
        1 + first_newline(s.drop_first())
    }
}

/// A line without the carriage return of a `"\r\n"` line ending.
pub open spec fn strip_cr(line: Seq<char>) -> Seq<char> {
    if line.len() > 0 && line.last() == '\r' {
        line.drop_last()
    } else {
        line
    }
}

/// The pieces of a text between successive newlines, each without a `'\r'`
/// that stands just before its newline. A final newline opens no further
/// piece, and an empty text has none.
pub open spec fn line_pieces(doc: Seq<char>) -> Seq<Seq<char>>
    decreases doc.len(),
{
    let i = first_newline(doc);
    if doc.len() == 0 {
        seq![]
    } else if 0 <= i < doc.len() {
        seq![strip_cr(doc.take(i))] + line_pieces(doc.skip(i + 1))
    } else {
        seq![doc]
    }
}

/// The lines of a document: its pieces between newlines. A document that is
/// a single newline and nothing else has no lines, as an empty one has none.
pub open spec fn lines_of(doc: Seq<char>) -> Seq<Seq<char>> {
    if doc == seq!['\n'] {
        seq![]
    } else {
        line_pieces(doc)
    }
}

/// The character sequences that a sequence of string slices shows.
pub open spec fn views_of(s: Seq<&str>) -> Seq<Seq<char>> {
    s.map_values(|l: &str| l@)
}

pub(crate) proof fn lemma_first_newline_at(head: Seq<char>, tail: Seq<char>)
    requires
        !head.contains('\n'),
    ensures
        first_newline(head + seq!['\n'] + tail) == head.len(),
    decreases head.len(),
{
    let s = head + seq!['\n'] + tail;
    if head.len() > 0 {
        assert(head[0] != '\n');
        assert(s.drop_first() =~= head.drop_first() + seq!['\n'] + tail);
        assert forall|c: char| head.drop_first().contains(c) implies head.contains(c) by {
            let k = choose|k: int| 0 <= k < head.drop_first().len() && head.drop_first()[k] == c;
            assert(head[k + 1] == c);
        }
        lemma_first_newline_at(head.drop_first(), tail);
    } else {
        assert(s[0] == '\n');
    }
}

proof fn lemma_first_newline_none(s: Seq<char>)
    requires
        !s.contains('\n'),
    ensures
        first_newline(s) == s.len(),
    decreases s.len(),
{
    if s.len() > 0 {
        assert(s[0] != '\n');
        assert forall|c: char| s.drop_first().contains(c) implies s.contains(c) by {
            let k = choose|k: int| 0 <= k < s.drop_first().len() && s.drop_first()[k] == c;
            assert(s[k + 1] == c);
        }
        lemma_first_newline_none(s.drop_first());
    }
}

/// Relies on `str::split_once` with a `char` pattern: the text before the
/// first newline and the text after it, or `None` when there is no newline.
#[verifier::external_body]
fn split_at_newline<'a>(s: &'a str) -> (r: Option<(&'a str, &'a str)>)
    ensures
        match r {
            None => !s@.contains('\n'),
            Some(parts) => s@ == parts.0@ + seq!['\n'] + parts.1@ && !parts.0@.contains('\n'),
        },
{
    s.split_once('\n')
}

/// `line` without a final carriage return.
fn trim_cr<'a>(line: &'a str) -> (r: &'a str)
    ensures
        r@ == strip_cr(line@),
{
    let n = line.unicode_len();
    if n > 0 && line.get_char(n - 1) == '\r' {
        line.substring_char(0, n - 1)
    } else {
        line
    }
}

/// The lines of `contents`, as slices of it.
pub fn split_lines<'a>(contents: &'a str) -> (r: Vec<&'a str>)
    ensures
        views_of(r@) == lines_of(contents@),
{
    let mut out: Vec<&'a str> = Vec::new();
    if let Some(parts) = split_at_newline(contents) {
        if parts.0.is_empty() && parts.1.is_empty() {
            assert(contents@ =~= seq!['\n']);
            return out;
        }
    }
    let mut rest: &'a str = contents;
    loop
        invariant_except_break
            lines_of(contents@) == views_of(out@) + line_pieces(rest@),
        ensures
            views_of(out@) == lines_of(contents@),
        decreases rest@.len(),
    {
        if rest.is_empty() {
            assert(views_of(out@) + line_pieces(rest@) =~= views_of(out@));
            break;
        }
        let ghost prev = out@;
        match split_at_newline(rest) {
            Some(parts) => {
                let (head, tail) = parts;
                proof {
                    lemma_first_newline_at(head@, tail@);
                    assert(rest@.take(head@.len() as int) =~= head@);
                    assert(rest@.skip(head@.len() as int + 1) =~= tail@);
                }
                let line = trim_cr(head);
                out.push(line);
                assert(views_of(out@) =~= views_of(prev) + seq![line@]);
                rest = tail;
            },
            None => {
                proof {
                    lemma_first_newline_none(rest@);
                    assert(line_pieces(rest@) == seq![rest@]);
                }
                out.push(rest);
                assert(views_of(out@) =~= views_of(prev) + seq![rest@]);
                break;
            },
        }
    }
    out
}

} // verus!
