//! Selecting the lines of a document that contain a query.

use vstd::prelude::*;
use crate::lines::{lines_of, split_lines, views_of};
use crate::text::{has_substring, line_contains};

verus! {

/// The lowercase form of a text, as `str::to_lowercase` gives it.
pub uninterp spec fn lower_of(s: Seq<char>) -> Seq<char>;

/// Relies on `str::to_lowercase`: the folded text depends on the characters
/// alone, and an empty text stays empty.
#[verifier::external_body]
fn lowercase(s: &str) -> (r: String)
    ensures
        r@ == lower_of(s@),
        s@.len() == 0 ==> r@.len() == 0,
{
    s.to_lowercase()
}

/// Whether a line is selected for `query`: it contains the query exactly, or,
/// when `ignore_case` holds, its lowercase form contains the lowercase query.
pub open spec fn line_matches(line: Seq<char>, query: Seq<char>, ignore_case: bool) -> bool {
    if ignore_case {
        has_substring(lower_of(line), lower_of(query))
    } else {
        has_substring(line, query)
    }
}

/// The lines among `lines` that match `query`, in their order.
pub open spec fn keep_matching(lines: Seq<Seq<char>>, query: Seq<char>, ignore_case: bool) -> Seq<
    Seq<char>,
>
    decreases lines.len(),
{
    if lines.len() == 0 {
        seq![]
    } else {
        let before = keep_matching(lines.drop_last(), query, ignore_case);
        if line_matches(lines.last(), query, ignore_case) {
            before.push(lines.last())
        } else {
            before
        }
    }
}

/// What a search for `query` in `doc` returns.
pub open spec fn matching_lines(query: Seq<char>, doc: Seq<char>, ignore_case: bool) -> Seq<
    Seq<char>,
> {
    keep_matching(lines_of(doc), query, ignore_case)
}

/// Every line matches the empty query when the folded empty query is empty.
proof fn lemma_empty_pattern_keeps_all(lines: Seq<Seq<char>>, query: Seq<char>, ignore_case: bool)
    requires
        forall|l: Seq<char>| line_matches(l, query, ignore_case),
    ensures
        keep_matching(lines, query, ignore_case) == lines,
    decreases lines.len(),
{
    if lines.len() > 0 {
        lemma_empty_pattern_keeps_all(lines.drop_last(), query, ignore_case);
        assert(lines.drop_last().push(lines.last()) =~= lines);
    }
}

proof fn lemma_empty_pattern_occurs(text: Seq<char>, pattern: Seq<char>)
    requires
        pattern.len() == 0,
    ensures
        has_substring(text, pattern),
{
    assert(text.subrange(0, 0 + pattern.len() as int) =~= pattern);
}

/// The lines of `contents` that contain `query`, compared exactly, in the
/// order of the document.
pub fn search<'a>(query: &str, contents: &'a str) -> (r: Vec<&'a str>)
    ensures
        views_of(r@) == matching_lines(query@, contents@, false),
        query@.len() == 0 ==> views_of(r@) == lines_of(contents@),
{
    let lines = split_lines(contents);
    let mut out: Vec<&'a str> = Vec::new();
    let mut i: usize = 0;
    while i < lines.len()
        invariant
            views_of(lines@) == lines_of(contents@),
            i <= lines@.len(),
            views_of(out@) == keep_matching(views_of(lines@).take(i as int), query@, false),
        decreases lines@.len() - i,
    {
        let line = lines[i];
        let ghost prev = out@;
        proof {
            assert(views_of(lines@).take(i + 1).drop_last() =~= views_of(lines@).take(i as int));
        }
        if line_contains(line, query) {
            out.push(line);
            assert(views_of(out@) =~= views_of(prev).push(line@));
        }
        i = i + 1;
    }
    proof {
        assert(views_of(lines@).take(i as int) =~= views_of(lines@));
        if query@.len() == 0 {
            assert forall|l: Seq<char>| line_matches(l, query@, false) by {
                lemma_empty_pattern_occurs(l, query@);
            }
            lemma_empty_pattern_keeps_all(lines_of(contents@), query@, false);
        }
    }
    out
}

/// The character sequences of a sequence of strings.
pub open spec fn string_views(s: Seq<String>) -> Seq<Seq<char>> {
    s.map_values(|t: String| t@)
}

/// The lines among `lines` whose folded form, at the same position in
/// `folded`, contains `folded_query`; in their order.
pub open spec fn keep_folded(
    lines: Seq<Seq<char>>,
    folded: Seq<Seq<char>>,
    folded_query: Seq<char>,
) -> Seq<Seq<char>>
    decreases lines.len(),
{
    if lines.len() == 0 {
        seq![]
    } else {
        let before = keep_folded(lines.drop_last(), folded, folded_query);
        if has_substring(folded[lines.len() - 1], folded_query) {
            before.push(lines.last())
        } else {
            before
        }
    }
}

/// Selecting by the folded forms is selecting case-insensitively, when the
/// folded forms are those of the lines and of the query.
proof fn lemma_keep_folded_is_insensitive(
    lines: Seq<Seq<char>>,
    folded: Seq<Seq<char>>,
    query: Seq<char>,
)
    requires
        folded.len() >= lines.len(),
        forall|j: int| 0 <= j < lines.len() ==> folded[j] == lower_of(#[trigger] lines[j]),
    ensures
        keep_folded(lines, folded, lower_of(query)) == keep_matching(lines, query, true),
    decreases lines.len(),
{
    if lines.len() > 0 {
        let init = lines.drop_last();
        assert forall|j: int| 0 <= j < init.len() implies folded[j] == lower_of(
            #[trigger] init[j],
        ) by {
            assert(init[j] == lines[j]);
        }
        lemma_keep_folded_is_insensitive(init, folded, query);
        assert(folded[lines.len() - 1] == lower_of(lines[lines.len() - 1]));
    }
}

/// The lines of `lines` whose folded form (the entry of `folded_lines` at
/// the same position) contains `folded_query`, in their order.
pub fn select_folded<'a>(lines: &Vec<&'a str>, folded_lines: &Vec<String>, folded_query: &str) -> (r:
    Vec<&'a str>)
    requires
        folded_lines@.len() == lines@.len(),
    ensures
        views_of(r@) == keep_folded(views_of(lines@), string_views(folded_lines@), folded_query@),
{
    let mut out: Vec<&'a str> = Vec::new();
    let mut i: usize = 0;
    while i < lines.len()
        invariant
            folded_lines@.len() == lines@.len(),
            i <= lines@.len(),
            views_of(out@) == keep_folded(
                views_of(lines@).take(i as int),
                string_views(folded_lines@),
                folded_query@,
            ),
        decreases lines@.len() - i,
    {
        let line = lines[i];
        let ghost prev = out@;
        proof {
            assert(views_of(lines@).take(i + 1).drop_last() =~= views_of(lines@).take(i as int));
        }
        if line_contains(folded_lines[i].as_str(), folded_query) {
            out.push(line);
            assert(views_of(out@) =~= views_of(prev).push(line@));
        }
        i = i + 1;
    }
    assert(views_of(lines@).take(i as int) =~= views_of(lines@));
    out
}

/// The lines of `contents` whose lowercase form contains the lowercase form
/// of `query`, in the order of the document and as they stand in it.
pub fn search_insensitive<'a>(query: &str, contents: &'a str) -> (r: Vec<&'a str>)
    ensures
        views_of(r@) == matching_lines(query@, contents@, true),
        query@.len() == 0 ==> views_of(r@) == lines_of(contents@),
{
    let folded_query = lowercase(query);
    let lines = split_lines(contents);
    let mut folded_lines: Vec<String> = Vec::new();
    let mut i: usize = 0;
    while i < lines.len()
        invariant
            i <= lines@.len(),
            folded_lines@.len() == i,
            forall|j: int|
                0 <= j < i ==> string_views(folded_lines@)[j] == lower_of(
                    #[trigger] views_of(lines@)[j],
                ),
        decreases lines@.len() - i,
    {
        folded_lines.push(lowercase(lines[i]));
        i = i + 1;
    }
    let out = select_folded(&lines, &folded_lines, folded_query.as_str());
    proof {
        lemma_keep_folded_is_insensitive(views_of(lines@), string_views(folded_lines@), query@);
        if query@.len() == 0 {
            assert forall|l: Seq<char>| line_matches(l, query@, true) by {
                lemma_empty_pattern_occurs(lower_of(l), lower_of(query@));
            }
            lemma_empty_pattern_keeps_all(lines_of(contents@), query@, true);
        }
    }
    out
}

/// Search in the mode that `ignore_case` selects.
pub fn search_lines<'a>(query: &str, contents: &'a str, ignore_case: bool) -> (r: Vec<&'a str>)
    ensures
        views_of(r@) == matching_lines(query@, contents@, ignore_case),
        query@.len() == 0 ==> views_of(r@) == lines_of(contents@),
{
    if ignore_case {
        search_insensitive(query, contents)
    } else {
        search(query, contents)
    }
}

} // verus!
