//! Highlighting of search matches. The styling itself comes from the `colored`
//! crate and depends on the environment (whether the output is a terminal),
//! so the library only knows that a styled marker wraps the text it was made
//! from; everything around the marker is computed and verified here.

use vstd::prelude::*;
use vstd::string::*;
use colored::Colorize;
use crate::text::{index_of_first, lemma_index_of_first, replace_all, replace_str};

verus! {

/// An ANSI select-graphic-rendition sequence: the escape character, `[`,
/// parameter digits and semicolons, and a closing `m`.
pub open spec fn ansi_style_seq(s: Seq<char>) -> bool {
    &&& s.len() >= 3
    &&& s[0] == '\u{1b}'
    &&& s[1] == '['
    &&& s.last() == 'm'
    &&& forall|j: int| 2 <= j < s.len() - 1 ==> (('0' <= s[j] && s[j] <= '9') || s[j] == ';')
}

/// `marker` is `pat` itself, or `pat` wrapped in one ANSI style sequence on
/// each side — as long as `pat` brings no escape character of its own.
pub open spec fn styled_marker(marker: Seq<char>, pat: Seq<char>) -> bool {
    !pat.contains('\u{1b}') ==> (marker == pat || exists|pre: Seq<char>, post: Seq<char>|
        ansi_style_seq(pre) && ansi_style_seq(post) && marker == pre + pat + post)
}

/// The characters of `s` with every ANSI escape sequence removed: from each
/// escape character, everything up to and including the next `m` falls away
/// (and everything to the end, when no `m` follows).
pub open spec fn strip_ansi(s: Seq<char>) -> Seq<char>
    decreases s.len(),
{
    if s.len() == 0 {
        s
    } else if s[0] == '\u{1b}' {
        let k = index_of_first(s, 'm');
        if k < s.len() {
            strip_ansi(s.skip(k as int + 1))
        } else {
            Seq::<char>::empty()
        }
    } else {
        seq![s[0]] + strip_ansi(s.drop_first())
    }
}

/// Relies on colored's `Colorize::red`, `Colorize::bold` and the `Display`
/// impl of `ColoredString`: with colors off (or a plain style) printing
/// writes the text verbatim; otherwise it writes the computed style — the
/// escape character, `[`, style and color codes joined by `;`, and `m` —
/// then the text, then the reset sequence `ESC [0m`. A text that holds an
/// escape character of its own may also be rewritten inside, so nothing is
/// claimed of it.
#[verifier::external_body]
pub(crate) fn red_bold(s: &str) -> (r: String)
    ensures
        styled_marker(r@, s@),
{
    s.red().bold().to_string()
}

/// The highlighted form of `content`: every occurrence of `pat` replaced by
/// `marker`, either across the whole text, or only before the first separator
/// when one is given (and the text unchanged when the separator is absent).
pub open spec fn highlight_spec(
    content: Seq<char>,
    pat: Seq<char>,
    marker: Seq<char>,
    sep: Option<char>,
) -> Seq<char> {
    match sep {
        Option::Some(c) => {
            let i = index_of_first(content, c) as int;
            if i < content.len() {
                replace_all(content.subrange(0, i), pat, marker) + seq![c] + content.subrange(
                    i + 1,
                    content.len() as int,
                )
            } else {
                content
            }
        },
        Option::None => replace_all(content, pat, marker),
    }
}

/// Highlights every occurrence of `pattern` in `content` with the given
/// marker text, before the first `separator` only when one is given.
pub fn highlight_with_marker(
    content: &str,
    pattern: &str,
    marker: &str,
    separator: Option<char>,
) -> (r: String)
    ensures
        r@ == highlight_spec(content@, pattern@, marker@, separator),
{
    match separator {
        Some(c) => {
            let n = content.unicode_len();
            let i = find_sep(content, c, n);
            if i < n {
                let left = content.substring_char(0, i);
                let sep_piece = content.substring_char(i, i + 1);
                let right = content.substring_char(i + 1, n);
                let mut out = replace_str(left, pattern, marker);
                out.append(sep_piece);
                out.append(right);
                proof {
                    lemma_index_of_first(content@, c);
                    assert(sep_piece@ =~= seq![c]);
                }
                out
            } else {
                let mut out = String::new();
                out.append(content);
                out
            }
        },
        None => replace_str(content, pattern, marker),
    }
}

/// Index of the first `separator`, or `n` when absent.
fn find_sep(content: &str, c: char, n: usize) -> (r: usize)
    requires
        n == content@.len(),
    ensures
        r == index_of_first(content@, c),
        r <= n,
{
    proof {
        lemma_index_of_first(content@, c);
    }
    crate::text::find_char(content, c)
}

/// Highlights every occurrence of `search_pattern` in `content` with the
/// bold red form of the pattern itself, as the terminal will render it.
pub fn highlight_search_pattern(content: &str, search_pattern: &str, separator: Option<char>) -> (r:
    String)
    ensures
        exists|m: Seq<char>|
            styled_marker(m, search_pattern@) && r@ == highlight_spec(
                content@,
                search_pattern@,
                m,
                separator,
            ),
{
    let marker = red_bold(search_pattern);
    let r = highlight_with_marker(content, search_pattern, marker.as_str(), separator);
    proof {
        assert(styled_marker(marker@, search_pattern@) && r@ == highlight_spec(
            content@,
            search_pattern@,
            marker@,
            separator,
        ));
    }
    r
}

} // verus!
