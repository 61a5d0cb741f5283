//! Laws of the search model: exactness of a search run, the
//! case-insensitive run as an order-preserving superset of the
//! case-sensitive one, and the empty query matching every line.

use vstd::prelude::*;

use crate::text::contains_at;
use crate::text::filter_lines;
use crate::text::lemma_filter_lines_push;
use crate::text::line_matches;
use crate::text::lower_seq;
use crate::text::matching_lines;
use crate::text::mode_seq;
use crate::text::split_lines;

verus! {

/// `sub` is obtained from `full` by deleting elements: `sub`'s elements
/// all occur in `full`, in the same order.
pub open spec fn subsequence_of<A>(sub: Seq<A>, full: Seq<A>) -> bool
    decreases full.len(),
{
    if sub.len() == 0 {
        true
    } else if full.len() == 0 {
        false
    } else if sub.last() == full.last() {
        subsequence_of(sub.drop_last(), full.drop_last())
    } else {
        subsequence_of(sub, full.drop_last())
    }
}

proof fn lemma_subsequence_drop_last<A>(sub: Seq<A>, full: Seq<A>)
    requires
        subsequence_of(sub, full),
        sub.len() > 0,
    ensures
        subsequence_of(sub.drop_last(), full),
    decreases full.len(),
{
    let t = full.drop_last();
    let s2 = sub.drop_last();
    if sub.last() == full.last() {
        if s2.len() == 0 {
        } else if s2.last() == full.last() {
            lemma_subsequence_drop_last(s2, t);
        }
    } else {
        lemma_subsequence_drop_last(sub, t);
        if s2.len() == 0 {
        } else if s2.last() == full.last() {
            lemma_subsequence_drop_last(s2, t);
        }
    }
}

proof fn lemma_subsequence_push<A>(sub: Seq<A>, full: Seq<A>, x: A)
    requires
        subsequence_of(sub, full),
    ensures
        subsequence_of(sub, full.push(x)),
{
    assert(full.push(x).drop_last() =~= full);
    if sub.len() == 0 {
    } else if sub.last() == x {
        lemma_subsequence_drop_last(sub, full);
    }
}

proof fn lemma_filter_lines_subsequence(query: Seq<char>, lines: Seq<Seq<char>>, cs: bool)
    ensures
        subsequence_of(filter_lines(query, lines, cs), lines),
    decreases lines.len(),
{
    if lines.len() == 0 {
    } else {
        let t = lines.drop_last();
        let x = lines.last();
        lemma_filter_lines_subsequence(query, t, cs);
        let f = filter_lines(query, t, cs);
        if line_matches(x, query, cs) {
            assert(f.push(x).drop_last() =~= f);
        } else {
            lemma_subsequence_push(f, t, x);
            assert(t.push(x) =~= lines);
        }
    }
}

proof fn lemma_filter_lines_exact(query: Seq<char>, lines: Seq<Seq<char>>, cs: bool)
    ensures
        forall|i: int|
            0 <= i < filter_lines(query, lines, cs).len() ==> line_matches(
                #[trigger] filter_lines(query, lines, cs)[i],
                query,
                cs,
            ),
        forall|i: int|
            0 <= i < lines.len() && line_matches(#[trigger] lines[i], query, cs)
                ==> filter_lines(query, lines, cs).contains(lines[i]),
    decreases lines.len(),
{
    if lines.len() == 0 {
    } else {
        let t = lines.drop_last();
        let x = lines.last();
        lemma_filter_lines_exact(query, t, cs);
        let f = filter_lines(query, t, cs);
        let f2 = filter_lines(query, lines, cs);
        assert forall|i: int|
            0 <= i < lines.len() && line_matches(#[trigger] lines[i], query, cs) implies f2.contains(
            lines[i],
        ) by {
            if i < lines.len() - 1 {
                assert(lines[i] == t[i]);
                assert(f.contains(t[i]));
                let j = choose|j: int| 0 <= j < f.len() && f[j] == t[i];
                assert(f2[j] == lines[i]);
            } else {
                assert(lines[i] == x);
                assert(f2.last() == x);
            }
        }
    }
}

/// A search run is exact: every reported line contains the query under
/// the given mode, every line of the contents that contains it is
/// reported, and the report keeps the original order of the lines.
pub proof fn lemma_search_exact(query: Seq<char>, contents: Seq<char>, case_sensitive: bool)
    ensures
        forall|i: int|
            0 <= i < matching_lines(query, contents, case_sensitive).len() ==> line_matches(
                #[trigger] matching_lines(query, contents, case_sensitive)[i],
                query,
                case_sensitive,
            ),
        forall|i: int|
            0 <= i < split_lines(contents).len() && line_matches(
                #[trigger] split_lines(contents)[i],
                query,
                case_sensitive,
            ) ==> matching_lines(query, contents, case_sensitive).contains(split_lines(contents)[i]),
        subsequence_of(matching_lines(query, contents, case_sensitive), split_lines(contents)),
{
    lemma_filter_lines_exact(query, split_lines(contents), case_sensitive);
    lemma_filter_lines_subsequence(query, split_lines(contents), case_sensitive);
}

/// A case-sensitive match is also a case-insensitive one.
proof fn lemma_matches_implies_ci(line: Seq<char>, query: Seq<char>)
    requires
        line_matches(line, query, true),
    ensures
        line_matches(line, query, false),
{
    let i = choose|i: int| contains_at(line, query, i);
    assert(contains_at(line, query, i));
    assert forall|k: int| 0 <= k < query.len() implies lower_seq(line)[i + k] == lower_seq(query)[k] by {
        assert(line.subrange(i, i + query.len() as int)[k] == query[k]);
        assert(line[i + k] == query[k]);
    }
    assert(lower_seq(line).subrange(i, i + lower_seq(query).len() as int) =~= lower_seq(query));
    assert(contains_at(lower_seq(line), lower_seq(query), i));
}

proof fn lemma_filter_lines_mode(query: Seq<char>, lines: Seq<Seq<char>>)
    ensures
        subsequence_of(filter_lines(query, lines, true), filter_lines(query, lines, false)),
        filter_lines(query, filter_lines(query, lines, false), true) == filter_lines(
            query,
            lines,
            true,
        ),
    decreases lines.len(),
{
    if lines.len() == 0 {
    } else {
        let t = lines.drop_last();
        let x = lines.last();
        lemma_filter_lines_mode(query, t);
        let fs = filter_lines(query, t, true);
        let fc = filter_lines(query, t, false);
        if line_matches(x, query, true) {
            lemma_matches_implies_ci(x, query);
            assert(fs.push(x).drop_last() =~= fs);
            assert(fc.push(x).drop_last() =~= fc);
            lemma_filter_lines_push(query, fc, x, true);
        } else if line_matches(x, query, false) {
            lemma_subsequence_push(fs, fc, x);
            lemma_filter_lines_push(query, fc, x, true);
        }
    }
}

/// The case-insensitive run reports an order-preserving superset of the
/// case-sensitive run: the case-sensitive report is a subsequence of the
/// case-insensitive one, and is exactly what a case-sensitive pass keeps
/// of it.
pub proof fn lemma_case_insensitive_superset(query: Seq<char>, contents: Seq<char>)
    ensures
        subsequence_of(
            matching_lines(query, contents, true),
            matching_lines(query, contents, false),
        ),
        filter_lines(query, matching_lines(query, contents, false), true) == matching_lines(
            query,
            contents,
            true,
        ),
{
    lemma_filter_lines_mode(query, split_lines(contents));
}

/// The empty query matches every line.
proof fn lemma_empty_query_matches(line: Seq<char>, cs: bool)
    ensures
        line_matches(line, Seq::<char>::empty(), cs),
{
    let h = mode_seq(line, cs);
    let nd = mode_seq(Seq::<char>::empty(), cs);
    assert(nd.len() == 0);
    assert(h.subrange(0, 0) =~= nd);
    assert(contains_at(h, nd, 0));
}

proof fn lemma_filter_lines_all_match(query: Seq<char>, lines: Seq<Seq<char>>, cs: bool)
    requires
        forall|i: int| 0 <= i < lines.len() ==> line_matches(#[trigger] lines[i], query, cs),
    ensures
        filter_lines(query, lines, cs) == lines,
    decreases lines.len(),
{
    if lines.len() == 0 {
        assert(filter_lines(query, lines, cs) =~= lines);
    } else {
        let t = lines.drop_last();
        assert(forall|i: int| 0 <= i < t.len() ==> t[i] == #[trigger] lines[i]);
        lemma_filter_lines_all_match(query, t, cs);
        assert(line_matches(lines.last(), query, cs));
        assert(t.push(lines.last()) =~= lines);
    }
}

/// An empty query reports every line of the contents unchanged, in
/// either matching mode.
pub proof fn lemma_empty_query_identity(contents: Seq<char>, case_sensitive: bool)
    ensures
        matching_lines(Seq::<char>::empty(), contents, case_sensitive) == split_lines(contents),
{
    let lines = split_lines(contents);
    assert forall|i: int| 0 <= i < lines.len() implies line_matches(
        #[trigger] lines[i],
        Seq::<char>::empty(),
        case_sensitive,
    ) by {
        lemma_empty_query_matches(lines[i], case_sensitive);
    }
    lemma_filter_lines_all_match(Seq::<char>::empty(), lines, case_sensitive);
}

} // verus!
