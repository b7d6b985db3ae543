//! The search engine: the trimmed lines of a text that contain a query, in
//! the order in which they occur.

use crate::text::{
    chars_of, contains, contains_in, lines_from, lines_of, lower_of, lowercase, occurs_at, strip_cr,
    trim_bounds, trimmed,
};
use vstd::prelude::*;

verus! {

/// Whether `line` is a match for `query`: it contains the query exactly, or,
/// with `ignore_case`, its lowercase form contains the query's lowercase form.
pub open spec fn line_matches(query: Seq<char>, line: Seq<char>, ignore_case: bool) -> bool {
    if ignore_case {
        contains(lower_of(line), lower_of(query))
    } else {
        contains(line, query)
    }
}

/// The matching lines among `lines`, each trimmed, in their order.
pub open spec fn select(lines: Seq<Seq<char>>, query: Seq<char>, ignore_case: bool) -> Seq<
    Seq<char>,
>
    decreases lines.len(),
{
    if lines.len() == 0 {
        seq![]
    } else {
        let rest = select(lines.drop_last(), query, ignore_case);
        if line_matches(query, lines.last(), ignore_case) {
            rest.push(trimmed(lines.last()))
        } else {
            rest
        }
    }
}

/// What a case-sensitive search of `contents` for `query` yields.
pub open spec fn search_result(query: Seq<char>, contents: Seq<char>) -> Seq<Seq<char>> {
    select(lines_of(contents), query, false)
}

/// What a case-insensitive search of `contents` for `query` yields.
pub open spec fn search_ci_result(query: Seq<char>, contents: Seq<char>) -> Seq<Seq<char>> {
    select(lines_of(contents), query, true)
}

/// The texts of a sequence of string slices.
pub open spec fn texts(r: Seq<&str>) -> Seq<Seq<char>> {
    r.map_values(|s: &str| s@)
}

/// The lines among `lines` that match `query`, in their order.
pub open spec fn matching_lines(lines: Seq<Seq<char>>, query: Seq<char>, ignore_case: bool) -> Seq<
    Seq<char>,
> {
    lines.filter(|l: Seq<char>| line_matches(query, l, ignore_case))
}

/// Each of `lines`, trimmed.
pub open spec fn trimmed_lines(lines: Seq<Seq<char>>) -> Seq<Seq<char>> {
    lines.map_values(|l: Seq<char>| trimmed(l))
}

/// Whether the folded line contains the folded query; both are already in
/// lowercase form.
pub fn matches_folded(folded_query: &str, folded_line: &str) -> (r: bool)
    ensures
        r == contains(folded_line@, folded_query@),
{
    let q = chars_of(folded_query);
    let l = chars_of(folded_line);
    assert(l@.subrange(0, l@.len() as int) =~= l@);
    contains_in(&l, 0, l.len(), &q)
}

/// Appends the trimmed line `lo..hi` of `contents` to `out` when it matches.
fn take_line<'a>(
    contents: &'a str,
    cs: &Vec<char>,
    lo: usize,
    hi: usize,
    query: &Vec<char>,
    folded_query: &str,
    ignore_case: bool,
    out: &mut Vec<&'a str>,
)
    requires
        cs@ == contents@,
        lo <= hi <= cs.len(),
    ensures
        ({
            let line = contents@.subrange(lo as int, hi as int);
            if (ignore_case && contains(lower_of(line), folded_query@)) || (!ignore_case
                && contains(line, query@)) {
                texts(final(out)@) == texts(old(out)@).push(trimmed(line))
            } else {
                final(out)@ == old(out)@
            }
        }),
{
    let hit = if ignore_case {
        let folded_line = lowercase(contents.substring_char(lo, hi));
        matches_folded(folded_query, folded_line.as_str())
    } else {
        contains_in(cs, lo, hi, query)
    };
    if hit {
        let (a, b) = trim_bounds(cs, lo, hi);
        let piece = contents.substring_char(a, b);
        out.push(piece);
        assert(texts(final(out)@) =~= texts(old(out)@).push(trimmed(
            contents@.subrange(lo as int, hi as int),
        )));
    }
}

/// The matching lines of `contents`, each trimmed, in order.
fn select_lines<'a>(query: &str, contents: &'a str, ignore_case: bool) -> (r: Vec<&'a str>)
    ensures
        texts(r@) == select(lines_of(contents@), query@, ignore_case),
        query@.len() == 0 ==> lower_of(query@).len() == 0,
{
    let q = chars_of(query);
    let folded_query = lowercase(query);
    let cs = chars_of(contents);
    let n = cs.len();
    let mut out: Vec<&'a str> = Vec::new();
    let ghost mut done: Seq<Seq<char>> = seq![];
    let mut st: usize = 0;
    let mut i: usize = 0;
    while i < n
        invariant
            cs@ == contents@,
            q@ == query@,
            folded_query@ == lower_of(query@),
            n == cs.len(),
            st <= i <= n,
            lines_of(contents@) == done + lines_from(contents@, st as int, i as int),
            texts(out@) == select(done, query@, ignore_case),
        decreases n - i,
    {
        if cs[i] == '\n' {
            let mut e: usize = i;
            if e > st && cs[e - 1] == '\r' {
                e = e - 1;
            }
            let ghost line = strip_cr(contents@.subrange(st as int, i as int));
            assert(line =~= contents@.subrange(st as int, e as int));
            take_line(contents, &cs, st, e, &q, folded_query.as_str(), ignore_case, &mut out);
            proof {
                let rest = lines_from(contents@, i + 1, i + 1);
                assert(lines_from(contents@, st as int, i as int) == seq![line] + rest);
                assert(done + (seq![line] + rest) =~= done.push(line) + rest);
                assert(done.push(line).drop_last() =~= done);
                done = done.push(line);
            }
            st = i + 1;
        }
        i = i + 1;
    }
    if st < n {
        let ghost line = contents@.subrange(st as int, n as int);
        take_line(contents, &cs, st, n, &q, folded_query.as_str(), ignore_case, &mut out);
        proof {
            assert(done.push(line).drop_last() =~= done);
            assert(done + seq![line] =~= done.push(line));
            done = done.push(line);
        }
    } else {
        assert(done + seq![] =~= done);
    }
    out
}

/// Every line of `contents` that contains `query` exactly, trimmed of
/// surrounding whitespace, in the order of the text.
pub fn search<'a>(query: &str, contents: &'a str) -> (r: Vec<&'a str>)
    ensures
        texts(r@) == search_result(query@, contents@),
        query@.len() == 0 ==> texts(r@) == trimmed_lines(lines_of(contents@)),
{
    let r = select_lines(query, contents, false);
    proof {
        if query@.len() == 0 {
            assert(query@ =~= Seq::<char>::empty());
            lemma_empty_query(contents@);
        }
    }
    r
}

/// Every line of `contents` whose lowercase form contains the lowercase form
/// of `query`, trimmed of surrounding whitespace, in the order of the text.
/// The lines are returned as they stand, not lowercased.
pub fn search_case_insensitive<'a>(query: &str, contents: &'a str) -> (r: Vec<&'a str>)
    ensures
        texts(r@) == search_ci_result(query@, contents@),
        query@.len() == 0 ==> texts(r@) == trimmed_lines(lines_of(contents@)),
{
    let r = select_lines(query, contents, true);
    proof {
        if query@.len() == 0 {
            lemma_empty_folded_query(query@, contents@);
        }
    }
    r
}

/// `select` keeps exactly the matching lines, in order, and trims each.
proof fn lemma_select_filter(lines: Seq<Seq<char>>, query: Seq<char>, ignore_case: bool)
    ensures
        select(lines, query, ignore_case) == trimmed_lines(
            matching_lines(lines, query, ignore_case),
        ),
    decreases lines.len(),
{
    let pred = |l: Seq<char>| line_matches(query, l, ignore_case);
    if lines.len() > 0 {
        let init = lines.drop_last();
        lemma_select_filter(init, query, ignore_case);
        init.lemma_filter_push(lines.last(), pred);
        assert(init.push(lines.last()) =~= lines);
        let sub = init.filter(pred);
        assert(trimmed_lines(sub.push(lines.last())) =~= trimmed_lines(sub).push(
            trimmed(lines.last()),
        ));
    } else {
        reveal(Seq::filter);
        assert(trimmed_lines(lines.filter(pred)) =~= seq![]);
    }
}

/// `select` over lines that all match yields every line, trimmed.
proof fn lemma_select_every(lines: Seq<Seq<char>>, query: Seq<char>, ignore_case: bool)
    requires
        forall|j: int| 0 <= j < lines.len() ==> line_matches(query, #[trigger] lines[j], ignore_case),
    ensures
        select(lines, query, ignore_case) == trimmed_lines(lines),
    decreases lines.len(),
{
    if lines.len() > 0 {
        let init = lines.drop_last();
        assert forall|j: int| 0 <= j < init.len() implies line_matches(
            query,
            #[trigger] init[j],
            ignore_case,
        ) by {
            assert(init[j] == lines[j]);
        }
        lemma_select_every(init, query, ignore_case);
        assert(line_matches(query, lines[lines.len() - 1], ignore_case));
        assert(trimmed_lines(init).push(trimmed(lines.last())) =~= trimmed_lines(lines));
    } else {
        assert(trimmed_lines(lines) =~= seq![]);
    }
}

/// Where every line that matches exactly also matches ignoring case, `select`
/// ignoring case keeps at least as many lines.
proof fn lemma_select_wider(lines: Seq<Seq<char>>, query: Seq<char>)
    requires
        forall|j: int|
            0 <= j < lines.len() && line_matches(query, #[trigger] lines[j], false)
                ==> line_matches(query, lines[j], true),
    ensures
        select(lines, query, false).len() <= select(lines, query, true).len(),
    decreases lines.len(),
{
    if lines.len() > 0 {
        let init = lines.drop_last();
        assert forall|j: int|
            0 <= j < init.len() && line_matches(query, #[trigger] init[j], false)
                implies line_matches(query, init[j], true) by {
            assert(init[j] == lines[j]);
        }
        lemma_select_wider(init, query);
        assert(lines.last() == lines[lines.len() - 1]);
    }
}

/// A search returns exactly the lines of the text that contain the query,
/// each trimmed, in the order in which they occur in the text.
pub proof fn lemma_search_keeps_matching_lines(query: Seq<char>, contents: Seq<char>)
    ensures
        search_result(query, contents) == trimmed_lines(
            matching_lines(lines_of(contents), query, false),
        ),
        search_ci_result(query, contents) == trimmed_lines(
            matching_lines(lines_of(contents), query, true),
        ),
{
    lemma_select_filter(lines_of(contents), query, false);
    lemma_select_filter(lines_of(contents), query, true);
}

/// Where every line that contains the query also contains it after both are
/// lowercased, the case-insensitive search finds at least as many lines as
/// the case-sensitive one.
pub proof fn lemma_case_insensitive_finds_at_least(query: Seq<char>, contents: Seq<char>)
    requires
        forall|l: Seq<char>|
            lines_of(contents).contains(l) && contains(l, query) ==> contains(
                lower_of(l),
                lower_of(query),
            ),
    ensures
        search_result(query, contents).len() <= search_ci_result(query, contents).len(),
{
    let lines = lines_of(contents);
    assert forall|j: int|
        0 <= j < lines.len() && line_matches(query, #[trigger] lines[j], false)
            implies line_matches(query, lines[j], true) by {
        assert(lines.contains(lines[j]));
    }
    lemma_select_wider(lines, query);
}

/// Searching the same text for the same query twice gives the same lines.
pub proof fn lemma_search_repeatable(
    query: Seq<char>,
    contents: Seq<char>,
    first: Seq<&str>,
    second: Seq<&str>,
)
    requires
        texts(first) == search_result(query, contents),
        texts(second) == search_result(query, contents),
    ensures
        texts(first) == texts(second),
{
}

/// An empty text has no lines, so neither search finds anything in it.
pub proof fn lemma_empty_contents(query: Seq<char>)
    ensures
        search_result(query, seq![]) == Seq::<Seq<char>>::empty(),
        search_ci_result(query, seq![]) == Seq::<Seq<char>>::empty(),
{
    assert(lines_of(seq![]) == Seq::<Seq<char>>::empty());
}

/// The empty query occurs in every line, so a search for it returns every
/// line of the text, trimmed.
pub proof fn lemma_empty_query(contents: Seq<char>)
    ensures
        search_result(seq![], contents) == trimmed_lines(lines_of(contents)),
{
    let lines = lines_of(contents);
    let empty = Seq::<char>::empty();
    assert forall|j: int| 0 <= j < lines.len() implies line_matches(
        empty,
        #[trigger] lines[j],
        false,
    ) by {
        assert(lines[j].subrange(0, 0) =~= empty);
        assert(occurs_at(lines[j], empty, 0));
    }
    lemma_select_every(lines, empty, false);
}

/// A query whose lowercase form is empty occurs in every lowercased line, so
/// a case-insensitive search for it returns every line of the text, trimmed.
pub proof fn lemma_empty_folded_query(query: Seq<char>, contents: Seq<char>)
    requires
        lower_of(query).len() == 0,
    ensures
        search_ci_result(query, contents) == trimmed_lines(lines_of(contents)),
{
    let lines = lines_of(contents);
    assert forall|j: int| 0 <= j < lines.len() implies line_matches(
        query,
        #[trigger] lines[j],
        true,
    ) by {
        assert(lower_of(lines[j]).subrange(0, 0) =~= lower_of(query));
        assert(occurs_at(lower_of(lines[j]), lower_of(query), 0));
    }
    lemma_select_every(lines, query, true);
}

} // verus!
