//! The mathematical model of the search: ASCII lowercasing, substring
//! containment, line splitting, and the selection of matching lines.

use vstd::prelude::*;

verus! {

/// ASCII lowercasing of one character: `'A'` through `'Z'` map to their
/// lowercase counterparts, every other character is kept unchanged.
pub open spec fn lower_char(c: char) -> char {
    match c {
        'A' => 'a',
        'B' => 'b',
        'C' => 'c',
        'D' => 'd',
        'E' => 'e',
        'F' => 'f',
        'G' => 'g',
        'H' => 'h',
        'I' => 'i',
        'J' => 'j',
        'K' => 'k',
        'L' => 'l',
        'M' => 'm',
        'N' => 'n',
        'O' => 'o',
        'P' => 'p',
        'Q' => 'q',
        'R' => 'r',
        'S' => 's',
        'T' => 't',
        'U' => 'u',
        'V' => 'v',
        'W' => 'w',
        'X' => 'x',
        'Y' => 'y',
        'Z' => 'z',
        _ => c,
    }
}

/// Pointwise ASCII lowercasing of a character sequence.
pub open spec fn lower_seq(s: Seq<char>) -> Seq<char> {
    Seq::new(s.len(), |i: int| lower_char(s[i]))
}

/// The sequence a matcher actually compares: the text itself in
/// case-sensitive mode, its ASCII lowercasing otherwise.
pub open spec fn mode_seq(s: Seq<char>, case_sensitive: bool) -> Seq<char> {
    if case_sensitive {
        s
    } else {
        lower_seq(s)
    }
}

/// `needle` occurs in `hay` as the contiguous substring starting at `i`.
pub open spec fn contains_at(hay: Seq<char>, needle: Seq<char>, i: int) -> bool {
    &&& 0 <= i
    &&& i + needle.len() <= hay.len()
    &&& hay.subrange(i, i + needle.len()) == needle
}

/// `needle` occurs somewhere in `hay` as a contiguous substring.
pub open spec fn contains_seq(hay: Seq<char>, needle: Seq<char>) -> bool {
    exists|i: int| contains_at(hay, needle, i)
}

/// One line satisfies the query under the given matching mode: the query
/// occurs in the line, both sides lowercased first in case-insensitive
/// mode.
pub open spec fn line_matches(line: Seq<char>, query: Seq<char>, case_sensitive: bool) -> bool {
    contains_seq(mode_seq(line, case_sensitive), mode_seq(query, case_sensitive))
}

/// Index of the first `'\n'` in `s`, or `s.len()` if there is none.
pub open spec fn first_newline(s: Seq<char>) -> int
    decreases s.len(),
{
    if s.len() == 0 {
        0
    } else if s[0] == '\n' {
        0
    } else {
        1 + first_newline(s.subrange(1, s.len() as int))
    }
}

pub proof fn lemma_first_newline_bounds(s: Seq<char>)
    ensures
        0 <= first_newline(s) <= s.len(),
        first_newline(s) < s.len() ==> s[first_newline(s)] == '\n',
        forall|j: int| 0 <= j < first_newline(s) ==> s[j] != '\n',
    decreases s.len(),
{
    if s.len() == 0 {
    } else if s[0] == '\n' {
    } else {
        let t = s.subrange(1, s.len() as int);
        lemma_first_newline_bounds(t);
        assert forall|j: int| 0 <= j < first_newline(s) implies s[j] != '\n' by {
            if j > 0 {
                assert(s[j] == t[j - 1]);
            }
        }
    }
}

/// `first_newline` is the one position with no newline before it that
/// either carries a newline or is the end of the sequence.
pub proof fn lemma_first_newline_at(s: Seq<char>, k: int)
    requires
        0 <= k <= s.len(),
        forall|j: int| 0 <= j < k ==> s[j] != '\n',
        k < s.len() ==> s[k] == '\n',
    ensures
        first_newline(s) == k,
    decreases s.len(),
{
    if s.len() == 0 {
    } else if s[0] == '\n' {
        assert(k == 0);
    } else {
        let t = s.subrange(1, s.len() as int);
        assert(forall|j: int| 0 <= j < k - 1 ==> t[j] != '\n');
        lemma_first_newline_at(t, k - 1);
    }
}

/// A line terminated by a newline drops one carriage return directly
/// before the terminator, as the usual line-splitting primitive does.
pub open spec fn strip_trailing_cr(s: Seq<char>) -> Seq<char> {
    if s.len() > 0 && s[s.len() - 1] == '\r' {
        s.drop_last()
    } else {
        s
    }
}

/// The lines of `s`: the segments separated by `'\n'`, a terminator after
/// the last segment optional, with a `'\r'` directly before each
/// terminator dropped.
pub open spec fn split_lines(s: Seq<char>) -> Seq<Seq<char>>
    decreases s.len(),
    via split_lines_decreases
{
    if s.len() == 0 {
        Seq::empty()
    } else {
        let k = first_newline(s);
        if k == s.len() {
            seq![s]
        } else {
            seq![strip_trailing_cr(s.subrange(0, k))] + split_lines(
                s.subrange(k + 1, s.len() as int),
            )
        }
    }
}

#[via_fn]
proof fn split_lines_decreases(s: Seq<char>) {
    lemma_first_newline_bounds(s);
}

/// Unfolds `split_lines` once at a leading newline-free segment that ends
/// in a terminator at position `k`.
pub proof fn lemma_split_lines_step(s: Seq<char>, k: int)
    requires
        0 <= k < s.len(),
        s[k] == '\n',
        forall|j: int| 0 <= j < k ==> s[j] != '\n',
    ensures
        split_lines(s) == seq![strip_trailing_cr(s.subrange(0, k))] + split_lines(
            s.subrange(k + 1, s.len() as int),
        ),
{
    lemma_first_newline_at(s, k);
}

/// `split_lines` of a newline-free sequence: no lines at all when it is
/// empty, the whole sequence as the single line otherwise.
pub proof fn lemma_split_lines_no_newline(s: Seq<char>)
    requires
        forall|j: int| 0 <= j < s.len() ==> s[j] != '\n',
    ensures
        s.len() == 0 ==> split_lines(s) == Seq::<Seq<char>>::empty(),
        s.len() > 0 ==> split_lines(s) == seq![s],
{
    if s.len() > 0 {
        lemma_first_newline_at(s, s.len() as int);
    }
}

/// The lines among `lines` that satisfy the query under the given mode,
/// in their original order.
pub open spec fn filter_lines(
    query: Seq<char>,
    lines: Seq<Seq<char>>,
    case_sensitive: bool,
) -> Seq<Seq<char>>
    decreases lines.len(),
{
    if lines.len() == 0 {
        Seq::empty()
    } else {
        let rest = filter_lines(query, lines.drop_last(), case_sensitive);
        if line_matches(lines.last(), query, case_sensitive) {
            rest.push(lines.last())
        } else {
            rest
        }
    }
}

/// Unfolds `filter_lines` at the end of the line sequence.
pub proof fn lemma_filter_lines_push(
    query: Seq<char>,
    lines: Seq<Seq<char>>,
    line: Seq<char>,
    case_sensitive: bool,
)
    ensures
        filter_lines(query, lines.push(line), case_sensitive) == if line_matches(
            line,
            query,
            case_sensitive,
        ) {
            filter_lines(query, lines, case_sensitive).push(line)
        } else {
            filter_lines(query, lines, case_sensitive)
        },
{
    assert(lines.push(line).drop_last() =~= lines);
    assert(lines.push(line).last() == line);
}

/// The lines of `contents` in which `query` occurs under the given
/// matching mode, in their original order: what one search run reports.
pub open spec fn matching_lines(
    query: Seq<char>,
    contents: Seq<char>,
    case_sensitive: bool,
) -> Seq<Seq<char>> {
    filter_lines(query, split_lines(contents), case_sensitive)
}

} // verus!
