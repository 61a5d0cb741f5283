//! Executable search: line splitting, substring matching in both modes,
//! and the public search functions, each proved against the model in
//! `text`.

use vstd::prelude::*;

use crate::config::Config;
use crate::text::contains_at;
use crate::text::contains_seq;
use crate::text::filter_lines;
use crate::text::lemma_filter_lines_push;
use crate::text::lemma_split_lines_no_newline;
use crate::text::lemma_split_lines_step;
use crate::text::line_matches;
use crate::text::lower_char;
use crate::text::matching_lines;
use crate::text::mode_seq;
use crate::text::split_lines;
use crate::text::strip_trailing_cr;

verus! {

/// ASCII lowercasing of one character, the executable counterpart of
/// `lower_char`.
fn to_lower_char(c: char) -> (r: char)
    ensures
        r == lower_char(c),
{
    match c {
        'A' => 'a',
        'B' => 'b',
        'C' => 'c',
        'D' => 'd',
        'E' => 'e',
        'F' => 'f',
        'G' => 'g',
        'H' => 'h',
        'I' => 'i',
        'J' => 'j',
        'K' => 'k',
        'L' => 'l',
        'M' => 'm',
        'N' => 'n',
        'O' => 'o',
        'P' => 'p',
        'Q' => 'q',
        'R' => 'r',
        'S' => 's',
        'T' => 't',
        'U' => 'u',
        'V' => 'v',
        'W' => 'w',
        'X' => 'x',
        'Y' => 'y',
        'Z' => 'z',
        _ => c,
    }
}

/// Character comparison under a matching mode: identity in
/// case-sensitive mode, equality after ASCII lowercasing otherwise.
fn chars_equal(a: char, b: char, case_sensitive: bool) -> (r: bool)
    ensures
        r == if case_sensitive {
            a == b
        } else {
            lower_char(a) == lower_char(b)
        },
{
    if case_sensitive {
        a == b
    } else {
        to_lower_char(a) == to_lower_char(b)
    }
}

/// Does the query occur in `hay` starting at character position `i`,
/// under the given matching mode?
fn match_at(hay: &str, needle: &str, i: usize, case_sensitive: bool) -> (r: bool)
    requires
        i + needle@.len() <= hay@.len(),
    ensures
        r == contains_at(
            mode_seq(hay@, case_sensitive),
            mode_seq(needle@, case_sensitive),
            i as int,
        ),
{
    let ghost h = mode_seq(hay@, case_sensitive);
    let ghost nd = mode_seq(needle@, case_sensitive);
    let hn = hay.unicode_len();
    let m = needle.unicode_len();
    let mut j: usize = 0;
    while j < m
        invariant
            j <= m,
            m == needle@.len(),
            hn == hay@.len(),
            i + m <= hay@.len(),
            h == mode_seq(hay@, case_sensitive),
            nd == mode_seq(needle@, case_sensitive),
            forall|k: int| 0 <= k < j ==> h[i + k] == nd[k],
        decreases m - j,
    {
        let hc = hay.get_char(i + j);
        let nc = needle.get_char(j);
        if !chars_equal(hc, nc, case_sensitive) {
            proof {
                assert(h[i + j] != nd[j as int]);
                if contains_at(h, nd, i as int) {
                    assert(h.subrange(i as int, i + m)[j as int] == nd[j as int]);
                }
            }
            return false;
        }
        j += 1;
    }
    proof {
        assert(h.subrange(i as int, i + m) =~= nd);
    }
    true
}

/// Does the query occur anywhere in `hay` as a contiguous substring,
/// under the given matching mode?
fn contains_substr(hay: &str, needle: &str, case_sensitive: bool) -> (r: bool)
    ensures
        r == contains_seq(mode_seq(hay@, case_sensitive), mode_seq(needle@, case_sensitive)),
{
    let ghost h = mode_seq(hay@, case_sensitive);
    let ghost nd = mode_seq(needle@, case_sensitive);
    let n = hay.unicode_len();
    let m = needle.unicode_len();
    if m > n {
        proof {
            assert(forall|k: int| !contains_at(h, nd, k));
        }
        return false;
    }
    if m == 0 {
        proof {
            assert(h.subrange(0, 0) =~= nd);
            assert(contains_at(h, nd, 0));
        }
        return true;
    }
    let mut i: usize = 0;
    while i <= n - m
        invariant
            1 <= m <= n,
            n == hay@.len(),
            m == needle@.len(),
            i <= n - m + 1,
            h == mode_seq(hay@, case_sensitive),
            nd == mode_seq(needle@, case_sensitive),
            forall|k: int| 0 <= k < i ==> !contains_at(h, nd, k),
        decreases n - m + 1 - i,
    {
        if match_at(hay, needle, i, case_sensitive) {
            return true;
        }
        i += 1;
    }
    proof {
        assert forall|k: int| !contains_at(h, nd, k) by {
            if 0 <= k && k + nd.len() <= h.len() {
                assert(!contains_at(h, nd, k));
            }
        }
    }
    false
}

/// The lines of `s`, as borrowed slices of it, one per element of
/// `split_lines(s@)` and in the same order.
fn split_into_lines<'a>(s: &'a str) -> (r: Vec<&'a str>)
    ensures
        r.deep_view() == split_lines(s@),
{
    let n = s.unicode_len();
    let mut lines: Vec<&'a str> = Vec::new();
    let mut start: usize = 0;
    let mut i: usize = 0;
    proof {
        assert(s@.subrange(0, n as int) =~= s@);
        assert(lines.deep_view() + split_lines(s@) =~= split_lines(s@));
    }
    while i < n
        invariant
            n == s@.len(),
            start <= i <= n,
            forall|j: int| start <= j < i ==> s@[j] != '\n',
            split_lines(s@) == lines.deep_view() + split_lines(
                s@.subrange(start as int, n as int),
            ),
        decreases n - i,
    {
        if s.get_char(i) == '\n' {
            let line: &'a str = if i > start && s.get_char(i - 1) == '\r' {
                s.substring_char(start, i - 1)
            } else {
                s.substring_char(start, i)
            };
            proof {
                let rest = s@.subrange(start as int, n as int);
                let k = i - start;
                assert(rest[k as int] == s@[i as int]);
                assert forall|j: int| 0 <= j < k implies rest[j] != '\n' by {
                    assert(rest[j] == s@[start + j]);
                }
                lemma_split_lines_step(rest, k as int);
                let seg = rest.subrange(0, k as int);
                assert(seg =~= s@.subrange(start as int, i as int));
                if i > start && s@[i - 1] == '\r' {
                    assert(seg.len() > 0 && seg[seg.len() - 1] == '\r');
                    assert(strip_trailing_cr(seg) =~= s@.subrange(start as int, i - 1));
                    assert(line@ == strip_trailing_cr(seg));
                } else {
                    assert(line@ == strip_trailing_cr(seg));
                }
                assert(rest.subrange(k + 1, rest.len() as int) =~= s@.subrange(
                    i + 1,
                    n as int,
                ));
            }
            let ghost prev = lines.deep_view();
            lines.push(line);
            proof {
                assert(lines.deep_view() =~= prev.push(line@));
                assert(prev.push(line@) + split_lines(s@.subrange(i + 1, n as int)) =~= prev + (
                seq![line@] + split_lines(s@.subrange(i + 1, n as int))));
            }
            start = i + 1;
        }
        i += 1;
    }
    let ghost rest = s@.subrange(start as int, n as int);
    proof {
        assert forall|j: int| 0 <= j < rest.len() implies rest[j] != '\n' by {
            assert(rest[j] == s@[start + j]);
        }
        lemma_split_lines_no_newline(rest);
    }
    if start < n {
        let line = s.substring_char(start, n);
        let ghost prev = lines.deep_view();
        lines.push(line);
        proof {
            assert(lines.deep_view() =~= prev.push(line@));
            assert(prev.push(line@) =~= prev + seq![rest]);
        }
    } else {
        proof {
            assert(lines.deep_view() + split_lines(rest) =~= lines.deep_view());
        }
    }
    lines
}

/// Shared body of the two public search functions: splits the contents
/// into lines and keeps those the query matches under the given mode.
fn search_lines<'a>(query: &str, contents: &'a str, case_sensitive: bool) -> (r: Vec<&'a str>)
    ensures
        r.deep_view() == matching_lines(query@, contents@, case_sensitive),
{
    let lines = split_into_lines(contents);
    let mut out: Vec<&'a str> = Vec::new();
    let n = lines.len();
    let mut idx: usize = 0;
    proof {
        assert(lines.deep_view().subrange(0, 0) =~= Seq::<Seq<char>>::empty());
    }
    while idx < n
        invariant
            n == lines@.len(),
            idx <= n,
            lines.deep_view() == split_lines(contents@),
            out.deep_view() == filter_lines(
                query@,
                lines.deep_view().subrange(0, idx as int),
                case_sensitive,
            ),
        decreases n - idx,
    {
        let line = lines[idx];
        let found = contains_substr(line, query, case_sensitive);
        proof {
            let dv = lines.deep_view();
            assert(line@ == dv[idx as int]);
            assert(dv.subrange(0, idx + 1) =~= dv.subrange(0, idx as int).push(dv[idx as int]));
            lemma_filter_lines_push(query@, dv.subrange(0, idx as int), dv[idx as int],
                case_sensitive);
            assert(found == line_matches(dv[idx as int], query@, case_sensitive));
        }
        if found {
            let ghost prev = out.deep_view();
            out.push(line);
            proof {
                assert(out.deep_view() =~= prev.push(line@));
            }
        }
        idx += 1;
    }
    proof {
        assert(lines.deep_view().subrange(0, n as int) =~= lines.deep_view());
    }
    out
}

/// Case-sensitive search: the lines of `contents`, in their original
/// order, in which `query` occurs as a contiguous substring.
pub fn search<'a>(query: &str, contents: &'a str) -> (r: Vec<&'a str>)
    ensures
        r.deep_view() == matching_lines(query@, contents@, true),
{
    search_lines(query, contents, true)
}

/// Case-insensitive search: the lines of `contents`, in their original
/// order, in which `query` occurs as a contiguous substring after ASCII
/// lowercasing of both the line and the query.
pub fn search_case_insensitive<'a>(query: &str, contents: &'a str) -> (r: Vec<&'a str>)
    ensures
        r.deep_view() == matching_lines(query@, contents@, false),
{
    search_lines(query, contents, false)
}

/// Dispatches one run's search on already-read file contents: the
/// matcher is chosen by the configured mode and the matching lines are
/// returned in their original order.
pub fn run_search<'a>(config: &Config, contents: &'a str) -> (r: Vec<&'a str>)
    ensures
        r.deep_view() == matching_lines(config.query@, contents@, config.case_sensitive),
{
    if config.case_sensitive {
        search(config.query.as_str(), contents)
    } else {
        search_case_insensitive(config.query.as_str(), contents)
    }
}

} // verus!
