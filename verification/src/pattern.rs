//! Regular-expression matching, relied on from the `regex` crate. A compiled
//! expression is opaque; its observable behaviour is named here and pinned
//! down only where the crate's documentation pins it down: a pattern made of
//! plain characters compiles, and matches a line exactly when it occurs in it
//! as a substring.

use vstd::prelude::*;
use crate::text::{has_substring, lines_of, split_lines};

verus! {

#[verifier::external_type_specification]
#[verifier::external_body]
pub struct ExRegex(regex::Regex);

/// Whether `regex::Regex::new` accepts `pattern`; left open for patterns not
/// covered by the plain-character rule below.
pub uninterp spec fn regex_accepts_unknown(pattern: Seq<char>) -> bool;

/// Whether the expression compiled from `pattern` matches somewhere in `line`;
/// left open for patterns not covered by the plain-character rule below.
pub uninterp spec fn regex_match_unknown(pattern: Seq<char>, line: Seq<char>) -> bool;

/// The pattern a compiled `regex::Regex` was built from.
pub uninterp spec fn regex_pattern(re: regex::Regex) -> Seq<char>;

/// Characters that regular-expression syntax treats as themselves: they are
/// neither meta characters nor escapes.
pub open spec fn plain_regex_char(c: char) -> bool {
    ('a' <= c && c <= 'z') || ('A' <= c && c <= 'Z') || ('0' <= c && c <= '9') || c == ' ' || c
        == '=' || c == '\'' || c == '_' || c == ',' || c == ';' || c == ':' || c == '/' || c == '"'
}

/// A short pattern of plain characters. Such a pattern always compiles, and
/// the compiled expression matches a haystack exactly when the pattern occurs
/// in it as a substring.
pub open spec fn literal_pattern(pattern: Seq<char>) -> bool {
    pattern.len() <= 1024 && forall|i: int| 0 <= i < pattern.len() ==> plain_regex_char(pattern[i])
}

/// Whether `regex::Regex::new` accepts `pattern`.
pub open spec fn regex_valid(pattern: Seq<char>) -> bool {
    literal_pattern(pattern) || regex_accepts_unknown(pattern)
}

/// Whether the expression compiled from `pattern` matches somewhere in `line`.
pub open spec fn regex_matches(pattern: Seq<char>, line: Seq<char>) -> bool {
    if literal_pattern(pattern) {
        has_substring(line, pattern)
    } else {
        regex_match_unknown(pattern, line)
    }
}

/// Relies on `regex::Regex::new`: whether a pattern compiles depends on the
/// pattern alone (the size limit is the default one), a pattern of plain
/// characters always compiles, and the compiled value stands for its pattern.
#[verifier::external_body]
pub(crate) fn regex_new(pattern: &str) -> (r: Option<regex::Regex>)
    ensures
        r is Some <==> (literal_pattern(pattern@) || regex_accepts_unknown(pattern@)),
        r matches Some(re) ==> regex_pattern(re) == pattern@,
{
    regex::Regex::new(pattern).ok()
}

/// Relies on `regex::Regex::is_match`: whether there is a match anywhere in
/// `line` is a function of the compiled pattern and `line` alone, and an
/// expression compiled from plain characters matches exactly the lines that
/// hold the pattern as a substring.
#[verifier::external_body]
pub(crate) fn regex_is_match(re: &regex::Regex, line: &str) -> (r: bool)
    ensures
        literal_pattern(regex_pattern(*re)) ==> r == has_substring(line@, regex_pattern(*re)),
        !literal_pattern(regex_pattern(*re)) ==> r == regex_match_unknown(
            regex_pattern(*re),
            line@,
        ),
{
    re.is_match(line)
}

/// Whether `pattern` compiles as a regular expression.
pub fn regex_compiles(pattern: &str) -> (r: bool)
    ensures
        r == regex_valid(pattern@),
{
    match regex_new(pattern) {
        Some(_) => true,
        None => false,
    }
}

/// The lines of `ls` on which the expression compiled from `q` matches, in
/// their original order.
pub open spec fn matching_lines(q: Seq<char>, ls: Seq<Seq<char>>) -> Seq<Seq<char>>
    decreases ls.len(),
{
    if ls.len() == 0 {
        Seq::<Seq<char>>::empty()
    } else {
        let rest = matching_lines(q, ls.drop_first());
        if regex_matches(q, ls[0]) {
            seq![ls[0]] + rest
        } else {
            rest
        }
    }
}

/// Every line of `contents` on which `query`, compiled as a regular
/// expression, matches, in file order. A query that does not compile is
/// outside this function's contract; callers that cannot know test it with
/// `regex_compiles` first, as `run` does.
pub fn search<'a>(query: &str, contents: &'a str) -> (r: Vec<&'a str>)
    requires
        regex_valid(query@),
    ensures
        r.deep_view() == matching_lines(query@, lines_of(contents@)),
{
    let re_opt = regex_new(query);
    let re = match re_opt {
        Some(re) => re,
        None => {
            proof {
                assert(false);
            }
            return Vec::new();
        },
    };
    let ls = split_lines(contents);
    let mut r: Vec<&'a str> = Vec::new();
    let mut i: usize = 0;
    let n = ls.len();
    proof {
        assert(ls.deep_view().skip(0) =~~= ls.deep_view());
    }
    while i < n
        invariant
            n == ls.len(),
            i <= n,
            ls.deep_view() =~~= lines_of(contents@),
            regex_pattern(re) == query@,
            matching_lines(query@, lines_of(contents@)) =~~= r.deep_view() + matching_lines(
                query@,
                ls.deep_view().skip(i as int),
            ),
        decreases n - i,
    {
        let line = ls[i];
        proof {
            let tail = ls.deep_view().skip(i as int);
            assert(tail[0] =~= ls.deep_view()[i as int]);
            assert(tail.drop_first() =~~= ls.deep_view().skip(i + 1));
        }
        if regex_is_match(&re, line) {
            r.push(line);
            proof {
                assert(r.deep_view() =~~= r.deep_view().drop_last().push(line@));
            }
        }
        i += 1;
    }
    proof {
        assert(ls.deep_view().skip(n as int) =~~= Seq::<Seq<char>>::empty());
    }
    r
}

} // verus!
