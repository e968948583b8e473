//! The general guarantees of the store, stated and proved once over the spec
//! model that the operations' contracts use: searches keep file order, adding
//! to an empty file yields exactly one alias line, a second add of the same
//! name fails and leaves the file alone, and a quoted command is rejected
//! without any file change.

use vstd::prelude::*;
use crate::pattern::{literal_pattern, matching_lines, regex_matches};
use crate::store::{
    add_check_pattern, add_outcome, alias_line, alias_selected, is_append, line_modified,
    modified_contents, modified_count, shown_aliases, AliasError, OpReport,
};
use crate::style::{ansi_style_seq, highlight_spec, strip_ansi, styled_marker};
use crate::text::{
    has_substring, index_of_first, lemma_index_of_first, lemma_index_of_first_is,
    lemma_lines_head, lines_of, occurs_at, replace_all, split_raw, strip_cr,
    lemma_split_raw_concat, lemma_split_raw_no_nl, lemma_split_raw_len,
};

verus! {

// ---------------------------------------------------------------------------
// Order: what a search returns is a subsequence of the file's lines
// ---------------------------------------------------------------------------

/// `x` can be read off `y` left to right, skipping elements.
pub open spec fn subsequence_of<A>(x: Seq<A>, y: Seq<A>) -> bool
    decreases y.len(),
{
    if x.len() == 0 {
        true
    } else if y.len() == 0 {
        false
    } else {
        subsequence_of(x, y.drop_last()) || (x.last() == y.last() && subsequence_of(
            x.drop_last(),
            y.drop_last(),
        ))
    }
}

proof fn lemma_subseq_cons_right<A>(x: Seq<A>, y: Seq<A>, e: A)
    requires
        subsequence_of(x, y),
    ensures
        subsequence_of(x, seq![e] + y),
    decreases y.len(),
{
    if x.len() == 0 {
    } else if y.len() == 0 {
    } else {
        let z = seq![e] + y;
        assert(z.drop_last() =~= seq![e] + y.drop_last());
        assert(z.last() == y.last());
        if subsequence_of(x, y.drop_last()) {
            lemma_subseq_cons_right(x, y.drop_last(), e);
        } else {
            lemma_subseq_cons_right(x.drop_last(), y.drop_last(), e);
        }
    }
}

proof fn lemma_subseq_cons_both<A>(x: Seq<A>, y: Seq<A>, e: A)
    requires
        subsequence_of(x, y),
    ensures
        subsequence_of(seq![e] + x, seq![e] + y),
    decreases y.len(),
{
    let zx = seq![e] + x;
    let zy = seq![e] + y;
    if x.len() == 0 {
        assert(zx.len() == 1 && zy.len() >= 1);
        if y.len() == 0 {
            assert(zx.last() == zy.last());
            assert(zx.drop_last() =~= Seq::<A>::empty());
            assert(subsequence_of(zx.drop_last(), zy.drop_last()));
        } else {
            lemma_subseq_cons_both(x, y.drop_last(), e);
            assert(zy.drop_last() =~= seq![e] + y.drop_last());
        }
    } else if y.len() == 0 {
    } else {
        assert(zy.drop_last() =~= seq![e] + y.drop_last());
        assert(zx.drop_last() =~= seq![e] + x.drop_last());
        assert(zx.last() == x.last() && zy.last() == y.last());
        if subsequence_of(x, y.drop_last()) {
            lemma_subseq_cons_both(x, y.drop_last(), e);
        } else {
            lemma_subseq_cons_both(x.drop_last(), y.drop_last(), e);
        }
    }
}

/// `list` and `search` keep file order: the lines a pattern selects are a
/// subsequence of the file's lines, in their original order.
pub proof fn lemma_search_keeps_file_order(q: Seq<char>, ls: Seq<Seq<char>>)
    ensures
        subsequence_of(matching_lines(q, ls), ls),
    decreases ls.len(),
{
    if ls.len() == 0 {
    } else {
        let rest = ls.drop_first();
        lemma_search_keeps_file_order(q, rest);
        assert(ls =~= seq![ls[0]] + rest);
        if regex_matches(q, ls[0]) {
            lemma_subseq_cons_both(matching_lines(q, rest), rest, ls[0]);
        } else {
            lemma_subseq_cons_right(matching_lines(q, rest), rest, ls[0]);
        }
    }
}

/// Listing the `[alias]` section keeps file order too: its lines are a
/// subsequence of the file's lines.
pub proof fn lemma_git_list_keeps_file_order(ls: Seq<Seq<char>>, in_sec: bool)
    ensures
        subsequence_of(crate::store::git_section_lines(ls, in_sec), ls),
    decreases ls.len(),
{
    if ls.len() == 0 {
    } else {
        let rest = ls.drop_first();
        assert(ls =~= seq![ls[0]] + rest);
        if crate::text::has_prefix(ls[0], "[alias]"@) {
            lemma_git_list_keeps_file_order(rest, true);
            lemma_subseq_cons_right(crate::store::git_section_lines(rest, true), rest, ls[0]);
        } else if crate::text::has_prefix(ls[0], "["@) {
            lemma_git_list_keeps_file_order(rest, false);
            lemma_subseq_cons_right(crate::store::git_section_lines(rest, false), rest, ls[0]);
        } else if in_sec {
            lemma_git_list_keeps_file_order(rest, true);
            lemma_subseq_cons_both(crate::store::git_section_lines(rest, true), rest, ls[0]);
        } else {
            lemma_git_list_keeps_file_order(rest, false);
            lemma_subseq_cons_right(crate::store::git_section_lines(rest, false), rest, ls[0]);
        }
    }
}

/// The alias lines a search for `name` selects, unhighlighted, in order.
pub open spec fn selected_alias_lines(
    ls: Seq<Seq<char>>,
    name: Seq<char>,
    content_mode: bool,
) -> Seq<Seq<char>>
    decreases ls.len(),
{
    if ls.len() == 0 {
        Seq::<Seq<char>>::empty()
    } else {
        let rest = selected_alias_lines(ls.drop_first(), name, content_mode);
        if alias_selected(ls[0], name, content_mode) {
            seq![ls[0]] + rest
        } else {
            rest
        }
    }
}

/// `find` keeps file order too: what it shows are exactly the selected lines,
/// one highlighted line for each, in the order of the file.
pub proof fn lemma_find_keeps_file_order(
    ls: Seq<Seq<char>>,
    name: Seq<char>,
    marker: Seq<char>,
    content_mode: bool,
)
    ensures
        subsequence_of(selected_alias_lines(ls, name, content_mode), ls),
        shown_aliases(ls, name, marker, content_mode).len() == selected_alias_lines(
            ls,
            name,
            content_mode,
        ).len(),
        forall|k: int|
            0 <= k < shown_aliases(ls, name, marker, content_mode).len() ==> shown_aliases(
                ls,
                name,
                marker,
                content_mode,
            )[k] == highlight_spec(
                selected_alias_lines(ls, name, content_mode)[k],
                name,
                marker,
                if content_mode {
                    Option::<char>::None
                } else {
                    Option::Some('=')
                },
            ),
    decreases ls.len(),
{
    if ls.len() == 0 {
    } else {
        let rest = ls.drop_first();
        lemma_find_keeps_file_order(rest, name, marker, content_mode);
        assert(ls =~= seq![ls[0]] + rest);
        if alias_selected(ls[0], name, content_mode) {
            lemma_subseq_cons_both(selected_alias_lines(rest, name, content_mode), rest, ls[0]);
        } else {
            lemma_subseq_cons_right(selected_alias_lines(rest, name, content_mode), rest, ls[0]);
        }
    }
}

// ---------------------------------------------------------------------------
// Round trip: add on an empty file
// ---------------------------------------------------------------------------

/// Adding to an empty file: nothing exists there to collide with, so by
/// `add_outcome` a quote-free command is accepted and the append makes the
/// whole file exactly `alias <name>='<command>'` with one final newline.
pub proof fn lemma_add_round_trip(name: Seq<char>, command: Seq<char>, r: OpReport)
    requires
        !has_substring(command, "'"@),
        add_outcome(Seq::<char>::empty(), name, command, r),
    ensures
        r.status == Result::<(), AliasError>::Ok(()),
        is_append(r.file, alias_line(name, command) + "\n"@),
        Seq::<char>::empty() + (alias_line(name, command) + "\n"@) == alias_line(name, command)
            + "\n"@,
{
    assert(split_raw(Seq::<char>::empty()) =~~= seq![Seq::<char>::empty()]);
    assert(lines_of(Seq::<char>::empty()) =~~= Seq::<Seq<char>>::empty());
    assert(matching_lines(add_check_pattern(name), lines_of(Seq::<char>::empty())).len() == 0);
    assert(Seq::<char>::empty() + (alias_line(name, command) + "\n"@) =~= alias_line(name, command)
        + "\n"@);
}

// ---------------------------------------------------------------------------
// A second add of the same name fails and changes nothing
// ---------------------------------------------------------------------------

/// Some line the pattern matches makes the selection non-empty.
proof fn lemma_matching_lines_nonempty(q: Seq<char>, ls: Seq<Seq<char>>, i: int)
    requires
        0 <= i < ls.len(),
        regex_matches(q, ls[i]),
    ensures
        matching_lines(q, ls).len() > 0,
    decreases ls.len(),
{
    if i == 0 {
    } else {
        lemma_matching_lines_nonempty(q, ls.drop_first(), i - 1);
    }
}

/// After a file comes to end with the line a successful `add` appended, the
/// add probe for that name matches in the file: a second `add` of the same
/// name therefore fails with `AlreadyExists` and, by `add_outcome`, asks for
/// no file change. The name must spell a plain pattern (no regular-expression
/// meta characters) and the first command must bring no newline of its own.
pub proof fn lemma_add_twice(
    c: Seq<char>,
    name: Seq<char>,
    command: Seq<char>,
    command2: Seq<char>,
    r2: OpReport,
)
    requires
        literal_pattern(add_check_pattern(name)),
        forall|j: int| 0 <= j < command.len() ==> command[j] != '\n',
        !has_substring(command2, "'"@),
        add_outcome(c + alias_line(name, command) + "\n"@, name, command2, r2),
    ensures
        r2.status == Result::<(), AliasError>::Err(AliasError::AlreadyExists),
        r2.file is Unchanged,
{
    reveal_strlit("alias ");
    reveal_strlit("=");
    reveal_strlit("='");
    reveal_strlit("'");
    reveal_strlit("\n");
    let w = alias_line(name, command);
    let pat = add_check_pattern(name);
    let c2 = c + w + "\n"@;
    // the appended line holds no newline and does not end in a carriage return
    assert(forall|j: int| 0 <= j < pat.len() ==> crate::pattern::plain_regex_char(pat[j]));
    assert(forall|j: int| 0 <= j < name.len() ==> name[j] != '\n') by {
        assert(forall|j: int| 0 <= j < name.len() ==> pat["alias "@.len() + j] == name[j]);
    }
    assert(forall|j: int| 0 <= j < w.len() ==> w[j] != '\n');
    assert(w.len() == pat.len() + command.len() + 2);
    assert(w.last() == '\'');
    // the probe pattern is a prefix of the appended line
    assert(w.subrange(0, pat.len() as int) =~= pat);
    // the raw pieces of the new contents: the last is empty, the one before
    // holds the appended line as a suffix
    assert("\n"@ =~= seq!['\n']);
    lemma_split_raw_concat(c, w + "\n"@);
    lemma_split_raw_len(c);
    assert((w + "\n"@).drop_last() =~= w);
    lemma_split_raw_no_nl(w);
    assert(split_raw(w + "\n"@) =~~= seq![w].push(Seq::<char>::empty()));
    let u = split_raw(c).last();
    assert(c2 =~= c + (w + "\n"@));
    assert(split_raw(w + "\n"@)[0] =~= w);
    assert(split_raw(w + "\n"@).drop_first() =~~= seq![Seq::<char>::empty()]);
    assert(u + split_raw(w + "\n"@)[0] =~= u + w);
    assert(split_raw(c2) =~~= split_raw(c).drop_last() + seq![u + w] + seq![
        Seq::<char>::empty(),
    ]);
    let raw = split_raw(c2);
    assert(raw.last() =~= Seq::<char>::empty());
    assert(raw.drop_last() =~~= split_raw(c).drop_last() + seq![u + w]);
    let lastline = strip_cr(u + w);
    assert((u + w).last() == '\'');
    assert(lastline =~= u + w);
    let k = lines_of(c2).len() - 1;
    assert(lines_of(c2) =~~= raw.drop_last().map_values(|p: Seq<char>| strip_cr(p)));
    assert(lines_of(c2)[k] == strip_cr(raw.drop_last()[k]));
    assert(raw.drop_last()[k] == u + w);
    assert(lines_of(c2)[k] == u + w);
    // the pattern occurs in that line, where the appended line begins
    assert((u + w).subrange(u.len() as int, u.len() + pat.len() as int) =~= w.subrange(
        0,
        pat.len() as int,
    ));
    assert(occurs_at(u + w, pat, u.len() as int));
    assert(has_substring(u + w, pat));
    assert(regex_matches(pat, u + w));
    lemma_matching_lines_nonempty(pat, lines_of(c2), k);
}

// ---------------------------------------------------------------------------
// A remove/edit rewrite reads back as exactly the kept lines
// ---------------------------------------------------------------------------

/// An ordinary line of text: no newline inside, no trailing carriage return.
/// Every line `str::lines` yields is of this shape, except possibly a final
/// unterminated line that ends in a carriage return.
pub open spec fn clean_line(l: Seq<char>) -> bool {
    (forall|j: int| 0 <= j < l.len() ==> l[j] != '\n') && (l.len() > 0 ==> l.last() != '\r')
}

/// The lines that survive a remove/edit pass, in order: each matched line is
/// dropped, or replaced when a replacement is given; all others stand
/// unchanged.
pub open spec fn kept_lines(ls: Seq<Seq<char>>, pat: Seq<char>, rep: Option<Seq<char>>) -> Seq<
    Seq<char>,
>
    decreases ls.len(),
{
    if ls.len() == 0 {
        Seq::<Seq<char>>::empty()
    } else {
        let rest = kept_lines(ls.drop_first(), pat, rep);
        if line_modified(pat, ls[0]) {
            match rep {
                Option::Some(r) => seq![r] + rest,
                Option::None => rest,
            }
        } else {
            seq![ls[0]] + rest
        }
    }
}

/// Unrelated lines are untouched and keep their order: reading the rewritten
/// file back yields exactly the kept lines, one for one.
pub proof fn lemma_modify_rewrite_reads_back(
    ls: Seq<Seq<char>>,
    pat: Seq<char>,
    rep: Option<Seq<char>>,
)
    requires
        forall|i: int| 0 <= i < ls.len() ==> clean_line(#[trigger] ls[i]),
        rep matches Option::Some(r) ==> clean_line(r),
    ensures
        lines_of(modified_contents(ls, pat, rep)) =~~= kept_lines(ls, pat, rep),
    decreases ls.len(),
{
    if ls.len() == 0 {
        assert(split_raw(Seq::<char>::empty()) =~~= seq![Seq::<char>::empty()]);
        assert(lines_of(Seq::<char>::empty()) =~~= Seq::<Seq<char>>::empty());
    } else {
        let rest = ls.drop_first();
        assert(forall|i: int| 0 <= i < rest.len() ==> clean_line(#[trigger] rest[i])) by {
            assert(forall|i: int| 0 <= i < rest.len() ==> rest[i] == ls[i + 1]);
        }
        lemma_modify_rewrite_reads_back(rest, pat, rep);
        let rest_mc = modified_contents(rest, pat, rep);
        if line_modified(pat, ls[0]) && rep is None {
            assert(modified_contents(ls, pat, rep) == rest_mc);
        } else {
            let piece = if line_modified(pat, ls[0]) {
                rep->Some_0
            } else {
                ls[0]
            };
            assert(clean_line(piece));
            let s = piece + seq!['\n'] + rest_mc;
            assert(modified_contents(ls, pat, rep) == s);
            let j = piece.len() as int;
            assert(s[j] == '\n');
            assert(forall|k: int| 0 <= k < j ==> s[k] == piece[k]);
            lemma_lines_head(s, j);
            assert(s.subrange(0, j) =~= piece);
            assert(strip_cr(piece) =~= piece);
            assert(s.subrange(j + 1, s.len() as int) =~= rest_mc);
        }
    }
}

/// Once removed, gone: no line of the rewritten file matches the pattern
/// again, so a second remove of the same name finds nothing.
pub proof fn lemma_remove_then_remove(ls: Seq<Seq<char>>, pat: Seq<char>)
    requires
        forall|i: int| 0 <= i < ls.len() ==> clean_line(#[trigger] ls[i]),
    ensures
        modified_count(lines_of(modified_contents(ls, pat, Option::None)), pat) == 0,
{
    lemma_modify_rewrite_reads_back(ls, pat, Option::None);
    lemma_kept_lines_unmatched(ls, pat);
}

/// No kept line of a remove pass matches the pattern.
proof fn lemma_kept_lines_unmatched(ls: Seq<Seq<char>>, pat: Seq<char>)
    ensures
        modified_count(kept_lines(ls, pat, Option::None), pat) == 0,
    decreases ls.len(),
{
    if ls.len() == 0 {
    } else {
        let rest = ls.drop_first();
        lemma_kept_lines_unmatched(rest, pat);
        if line_modified(pat, ls[0]) {
        } else {
            let k = seq![ls[0]] + kept_lines(rest, pat, Option::None);
            assert(k.drop_first() =~~= kept_lines(rest, pat, Option::None));
        }
    }
}

// ---------------------------------------------------------------------------
// Highlighting is cosmetic: stripping the styling yields the text back
// ---------------------------------------------------------------------------

proof fn lemma_strip_ansi_clean(s: Seq<char>)
    requires
        forall|j: int| 0 <= j < s.len() ==> s[j] != '\u{1b}',
    ensures
        strip_ansi(s) =~= s,
    decreases s.len(),
{
    if s.len() == 0 {
    } else {
        lemma_strip_ansi_clean(s.drop_first());
        assert(seq![s[0]] + s.drop_first() =~= s);
    }
}

proof fn lemma_strip_ansi_concat_clean(a: Seq<char>, b: Seq<char>)
    requires
        forall|j: int| 0 <= j < a.len() ==> a[j] != '\u{1b}',
    ensures
        strip_ansi(a + b) =~= a + strip_ansi(b),
    decreases a.len(),
{
    if a.len() == 0 {
        assert(a + b =~= b);
        assert(a + strip_ansi(b) =~= strip_ansi(b));
    } else {
        let s = a + b;
        assert(s[0] == a[0]);
        assert(s.drop_first() =~= a.drop_first() + b);
        lemma_strip_ansi_concat_clean(a.drop_first(), b);
        assert(seq![a[0]] + (a.drop_first() + strip_ansi(b)) =~= a + strip_ansi(b));
    }
}

proof fn lemma_strip_ansi_skips_seq(p: Seq<char>, b: Seq<char>)
    requires
        ansi_style_seq(p),
    ensures
        strip_ansi(p + b) =~= strip_ansi(b),
{
    let s = p + b;
    assert(s[0] == '\u{1b}');
    assert(s[p.len() - 1] == 'm');
    assert forall|j: int| 0 <= j < p.len() - 1 implies s[j] != 'm' by {
        assert(s[j] == p[j]);
    }
    lemma_index_of_first_is(s, 'm', p.len() - 1);
    assert(s.skip(p.len() as int) =~= b);
}

proof fn lemma_strip_replace_tail(s: Seq<char>, pat: Seq<char>, m: Seq<char>, tail: Seq<char>)
    requires
        pat.len() > 0,
        forall|j: int| 0 <= j < s.len() ==> s[j] != '\u{1b}',
        forall|j: int| 0 <= j < pat.len() ==> pat[j] != '\u{1b}',
        m == pat || exists|pre: Seq<char>, post: Seq<char>|
            ansi_style_seq(pre) && ansi_style_seq(post) && m == pre + pat + post,
    ensures
        strip_ansi(replace_all(s, pat, m) + tail) =~= s + strip_ansi(tail),
    decreases s.len(),
{
    let pl = pat.len() as int;
    if s.len() < pat.len() {
        assert(replace_all(s, pat, m) == s);
        lemma_strip_ansi_concat_clean(s, tail);
    } else if s.subrange(0, pl) == pat {
        let rest = replace_all(s.skip(pl), pat, m);
        assert(replace_all(s, pat, m) == m + rest);
        lemma_strip_replace_tail(s.skip(pl), pat, m, tail);
        assert(s =~= pat + s.skip(pl));
        if m == pat {
            assert((m + rest) + tail =~= pat + (rest + tail));
            lemma_strip_ansi_concat_clean(pat, rest + tail);
            assert(pat + (s.skip(pl) + strip_ansi(tail)) =~= s + strip_ansi(tail));
        } else {
            let (pre, post) = choose|pre: Seq<char>, post: Seq<char>|
                ansi_style_seq(pre) && ansi_style_seq(post) && m == pre + pat + post;
            assert((m + rest) + tail =~= pre + (pat + (post + (rest + tail))));
            lemma_strip_ansi_skips_seq(pre, pat + (post + (rest + tail)));
            lemma_strip_ansi_concat_clean(pat, post + (rest + tail));
            lemma_strip_ansi_skips_seq(post, rest + tail);
            assert(pat + (s.skip(pl) + strip_ansi(tail)) =~= s + strip_ansi(tail));
        }
    } else {
        assert(replace_all(s, pat, m) == seq![s[0]] + replace_all(s.drop_first(), pat, m));
        lemma_strip_replace_tail(s.drop_first(), pat, m, tail);
        assert((seq![s[0]] + replace_all(s.drop_first(), pat, m)) + tail =~= seq![s[0]] + (
        replace_all(s.drop_first(), pat, m) + tail));
        lemma_strip_ansi_concat_clean(seq![s[0]], replace_all(s.drop_first(), pat, m) + tail);
        assert(seq![s[0]] + (s.drop_first() + strip_ansi(tail)) =~= s + strip_ansi(tail));
    }
}

/// Highlighting is cosmetic marking only: stripping every ANSI style sequence
/// from a highlighted text yields the text itself, for a non-empty pattern
/// and text and pattern that bring no escape character of their own. The
/// marker is what `red_bold` returns, as `highlight_search_pattern` uses it.
pub proof fn lemma_highlight_round_trip(
    content: Seq<char>,
    pat: Seq<char>,
    m: Seq<char>,
    sep: Option<char>,
)
    requires
        pat.len() > 0,
        forall|j: int| 0 <= j < content.len() ==> content[j] != '\u{1b}',
        forall|j: int| 0 <= j < pat.len() ==> pat[j] != '\u{1b}',
        styled_marker(m, pat),
    ensures
        strip_ansi(highlight_spec(content, pat, m, sep)) =~= content,
{
    assert(!pat.contains('\u{1b}'));
    match sep {
        Option::None => {
            lemma_strip_replace_tail(content, pat, m, Seq::<char>::empty());
            assert(replace_all(content, pat, m) + Seq::<char>::empty() =~= replace_all(
                content,
                pat,
                m,
            ));
            assert(content + strip_ansi(Seq::<char>::empty()) =~= content);
        },
        Option::Some(c) => {
            lemma_index_of_first(content, c);
            let i = index_of_first(content, c) as int;
            if i < content.len() {
                let left = content.subrange(0, i);
                let right = content.subrange(i + 1, content.len() as int);
                let tail = seq![c] + right;
                assert(highlight_spec(content, pat, m, sep) == replace_all(left, pat, m) + seq![c]
                    + right);
                assert(replace_all(left, pat, m) + seq![c] + right =~= replace_all(left, pat, m)
                    + tail);
                assert(content[i] == c);
                lemma_strip_replace_tail(left, pat, m, tail);
                lemma_strip_ansi_clean(tail);
                assert(left + tail =~= content);
            } else {
                lemma_strip_ansi_clean(content);
            }
        },
    }
}

// ---------------------------------------------------------------------------
// A quoted command is rejected before anything happens
// ---------------------------------------------------------------------------

/// A command holding a single quote is rejected with `InvalidInput`, and the
/// report asks for no file change, whatever the file holds.
pub proof fn lemma_add_rejects_quote(c: Seq<char>, name: Seq<char>, command: Seq<char>, r: OpReport)
    requires
        has_substring(command, "'"@),
        add_outcome(c, name, command, r),
    ensures
        r.status == Result::<(), AliasError>::Err(AliasError::InvalidInput),
        r.file is Unchanged,
{
}

/// The same holds of `edit`: a replacement command holding a single quote is
/// rejected with `InvalidInput`, and the report asks for no file change,
/// whatever the file holds.
pub proof fn lemma_edit_rejects_quote(
    c: Seq<char>,
    name: Seq<char>,
    command: Seq<char>,
    r: OpReport,
)
    requires
        has_substring(command, "'"@),
        crate::store::modify_outcome(c, name, Option::Some(command), r),
    ensures
        r.status == Result::<(), AliasError>::Err(AliasError::InvalidInput),
        r.file is Unchanged,
{
}

} // verus!
