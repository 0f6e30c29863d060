//! Properties of search that relate its results to the document as a whole.

use vstd::prelude::*;
use crate::lines::{first_newline, lemma_first_newline_at, line_pieces, lines_of};
use crate::search::{keep_matching, line_matches, lower_of, matching_lines};
use crate::text::has_substring;

verus! {

/// Where in `lines` each kept line comes from: the positions are increasing,
/// every kept line matches and equals the line at its position, and every
/// matching line has its position among them.
proof fn lemma_keep_positions(lines: Seq<Seq<char>>, query: Seq<char>, ignore_case: bool) -> (idx:
    Seq<int>)
    ensures
        idx.len() == keep_matching(lines, query, ignore_case).len(),
        forall|k: int|
            0 <= k < idx.len() ==> 0 <= #[trigger] idx[k] < lines.len() && keep_matching(
                lines,
                query,
                ignore_case,
            )[k] == lines[idx[k]] && line_matches(lines[idx[k]], query, ignore_case),
        forall|a: int, b: int| 0 <= a < b < idx.len() ==> #[trigger] idx[a] < #[trigger] idx[b],
        forall|i: int|
            0 <= i < lines.len() && line_matches(#[trigger] lines[i], query, ignore_case)
                ==> exists|k: int| 0 <= k < idx.len() && idx[k] == i,
    decreases lines.len(),
{
    if lines.len() == 0 {
        Seq::empty()
    } else {
        let init = lines.drop_last();
        let prev = lemma_keep_positions(init, query, ignore_case);
        let n = lines.len() - 1;
        assert forall|i: int| 0 <= i < n implies lines[i] == #[trigger] init[i] by {}
        if line_matches(lines.last(), query, ignore_case) {
            let idx = prev.push(n);
            assert forall|i: int|
                0 <= i < lines.len() && line_matches(#[trigger] lines[i], query, ignore_case)
                implies exists|k: int| 0 <= k < idx.len() && idx[k] == i by {
                if i == n {
                    assert(idx[prev.len() as int] == i);
                } else {
                    assert(line_matches(init[i], query, ignore_case));
                    let k = choose|k: int| 0 <= k < prev.len() && prev[k] == i;
                    assert(idx[k] == i);
                }
            }
            idx
        } else {
            assert forall|i: int|
                0 <= i < lines.len() && line_matches(#[trigger] lines[i], query, ignore_case)
                implies exists|k: int| 0 <= k < prev.len() && prev[k] == i by {
                assert(i != n);
                assert(line_matches(init[i], query, ignore_case));
            }
            prev
        }
    }
}

/// An exact-case search returns only lines that contain the query, in the
/// order of the document, and every line that contains it exactly once: the
/// returned positions pick out each such line and no other.
pub proof fn lemma_exact_search_selects_matches(query: Seq<char>, doc: Seq<char>) -> (idx: Seq<int>)
    ensures
        idx.len() == matching_lines(query, doc, false).len(),
        forall|k: int|
            0 <= k < idx.len() ==> 0 <= #[trigger] idx[k] < lines_of(doc).len() && matching_lines(
                query,
                doc,
                false,
            )[k] == lines_of(doc)[idx[k]] && has_substring(matching_lines(query, doc, false)[k], query),
        forall|a: int, b: int| 0 <= a < b < idx.len() ==> #[trigger] idx[a] < #[trigger] idx[b],
        forall|i: int|
            0 <= i < lines_of(doc).len() && has_substring(#[trigger] lines_of(doc)[i], query)
                ==> exists|k: int| 0 <= k < idx.len() && idx[k] == i,
{
    let lines = lines_of(doc);
    let idx = lemma_keep_positions(lines, query, false);
    assert forall|i: int|
        0 <= i < lines.len() && has_substring(#[trigger] lines[i], query) implies exists|k: int|
        0 <= k < idx.len() && idx[k] == i by {
        assert(line_matches(lines[i], query, false));
    }
    idx
}

/// A case-insensitive search returns exactly the lines whose lowercase form
/// contains the lowercase query, in the order of the document, each as it
/// stands in the document rather than in its folded form.
pub proof fn lemma_folded_search_selects_matches(query: Seq<char>, doc: Seq<char>) -> (idx: Seq<
    int,
>)
    ensures
        idx.len() == matching_lines(query, doc, true).len(),
        forall|k: int|
            0 <= k < idx.len() ==> 0 <= #[trigger] idx[k] < lines_of(doc).len() && matching_lines(
                query,
                doc,
                true,
            )[k] == lines_of(doc)[idx[k]] && has_substring(
                lower_of(matching_lines(query, doc, true)[k]),
                lower_of(query),
            ),
        forall|a: int, b: int| 0 <= a < b < idx.len() ==> #[trigger] idx[a] < #[trigger] idx[b],
        forall|i: int|
            0 <= i < lines_of(doc).len() && has_substring(
                lower_of(#[trigger] lines_of(doc)[i]),
                lower_of(query),
            ) ==> exists|k: int| 0 <= k < idx.len() && idx[k] == i,
{
    let lines = lines_of(doc);
    let idx = lemma_keep_positions(lines, query, true);
    assert forall|i: int|
        0 <= i < lines.len() && has_substring(
            lower_of(#[trigger] lines[i]),
            lower_of(query),
        ) implies exists|k: int| 0 <= k < idx.len() && idx[k] == i by {
        assert(line_matches(lines[i], query, true));
    }
    idx
}

/// Searching is a function of its inputs: two searches with the same query,
/// document and mode give the same lines in the same order.
pub proof fn lemma_search_deterministic(
    query: Seq<char>,
    doc: Seq<char>,
    ignore_case: bool,
    first: Seq<Seq<char>>,
    second: Seq<Seq<char>>,
)
    requires
        first == matching_lines(query, doc, ignore_case),
        second == matching_lines(query, doc, ignore_case),
    ensures
        first == second,
{
}

/// An empty document gives no lines, whatever the query.
pub proof fn lemma_empty_document(query: Seq<char>, ignore_case: bool)
    ensures
        matching_lines(query, Seq::empty(), ignore_case) == Seq::<Seq<char>>::empty(),
{
    assert(lines_of(Seq::empty()) == Seq::<Seq<char>>::empty());
}

/// A document that is a single newline gives no lines, whatever the query
/// and mode.
pub proof fn lemma_lone_newline(query: Seq<char>, ignore_case: bool)
    ensures
        matching_lines(query, seq!['\n'], ignore_case) == Seq::<Seq<char>>::empty(),
{
    assert(lines_of(seq!['\n']) == Seq::<Seq<char>>::empty());
}

/// `first_newline` finds the first newline, or the end when there is none.
proof fn lemma_first_newline_bounds(s: Seq<char>)
    ensures
        0 <= first_newline(s) <= s.len(),
        first_newline(s) < s.len() ==> s[first_newline(s)] == '\n',
        forall|j: int| 0 <= j < first_newline(s) ==> s[j] != '\n',
    decreases s.len(),
{
    if s.len() > 0 && s[0] != '\n' {
        lemma_first_newline_bounds(s.drop_first());
        assert forall|j: int| 0 <= j < first_newline(s) implies s[j] != '\n' by {
            if j > 0 {
                assert(s[j] == s.drop_first()[j - 1]);
            }
        }
    }
}

/// A newline after a text that does not already end a line adds no piece.
proof fn lemma_pieces_trailing_newline(doc: Seq<char>)
    requires
        doc.len() > 0,
        doc.last() != '\n',
        doc.last() != '\r',
    ensures
        line_pieces(doc + seq!['\n']) == line_pieces(doc),
    decreases doc.len(),
{
    let s = doc + seq!['\n'];
    let f = first_newline(doc);
    lemma_first_newline_bounds(doc);
    let head = doc.take(f);
    assert(!head.contains('\n')) by {
        assert forall|k: int| 0 <= k < head.len() implies head[k] != '\n' by {
            assert(head[k] == doc[k]);
        }
    }
    if f < doc.len() {
        let rest = doc.skip(f + 1);
        assert(s =~= head + seq!['\n'] + (rest + seq!['\n']));
        lemma_first_newline_at(head, rest + seq!['\n']);
        assert(s.take(f) =~= head);
        assert(s.skip(f + 1) =~= rest + seq!['\n']);
        assert(rest.len() > 0);
        assert(rest.last() == doc.last());
        lemma_pieces_trailing_newline(rest);
    } else {
        assert(s =~= head + seq!['\n'] + Seq::<char>::empty());
        assert(head =~= doc);
        lemma_first_newline_at(head, Seq::<char>::empty());
        assert(s.take(f) =~= doc);
        assert(s.skip(f + 1) =~= Seq::<char>::empty());
        assert(line_pieces(s.skip(f + 1)) == Seq::<Seq<char>>::empty());
        assert(line_pieces(s) =~= seq![doc]);
    }
}

/// A final newline after a document that does not already end a line (it is
/// empty, or its last character is neither a newline nor a carriage return)
/// changes no search result.
pub proof fn lemma_trailing_newline(query: Seq<char>, doc: Seq<char>, ignore_case: bool)
    requires
        doc.len() == 0 || (doc.last() != '\n' && doc.last() != '\r'),
    ensures
        matching_lines(query, doc + seq!['\n'], ignore_case) == matching_lines(
            query,
            doc,
            ignore_case,
        ),
{
    if doc.len() == 0 {
        assert(doc + seq!['\n'] =~= seq!['\n']);
        assert(lines_of(doc) == Seq::<Seq<char>>::empty());
    } else {
        assert((doc + seq!['\n']).len() > 1);
        assert(doc != seq!['\n']);
        lemma_pieces_trailing_newline(doc);
    }
}

} // verus!
