//! The mathematical model of the text this library works on: a configuration
//! file is a sequence of characters, read as a sequence of lines exactly the
//! way `str::lines` reads it, together with the executable primitives that
//! scan and rebuild such text.

use vstd::prelude::*;
use vstd::string::*;

verus! {

// ---------------------------------------------------------------------------
// Substring occurrence
// ---------------------------------------------------------------------------

/// `pat` occurs in `s` starting at position `i`.
pub open spec fn occurs_at(s: Seq<char>, pat: Seq<char>, i: int) -> bool {
    0 <= i && i + pat.len() <= s.len() && s.subrange(i, i + pat.len() as int) == pat
}

/// `pat` occurs somewhere in `s` (what `str::contains` decides).
pub open spec fn has_substring(s: Seq<char>, pat: Seq<char>) -> bool {
    exists|i: int| occurs_at(s, pat, i)
}

/// `pat` is a prefix of `s`.
pub open spec fn has_prefix(s: Seq<char>, pat: Seq<char>) -> bool {
    pat.len() <= s.len() && s.subrange(0, pat.len() as int) == pat
}

/// Tests whether `s[i .. i + pat.len()]` equals `pat`.
fn matches_at(s: &str, pat: &str, i: usize, s_len: usize, pat_len: usize) -> (r: bool)
    requires
        s_len == s@.len(),
        pat_len == pat@.len(),
        i + pat_len <= s_len,
    ensures
        r == occurs_at(s@, pat@, i as int),
{
    let mut j: usize = 0;
    while j < pat_len
        invariant
            s_len == s@.len(),
            pat_len == pat@.len(),
            i + pat_len <= s_len,
            j <= pat_len,
            forall|k: int| 0 <= k < j ==> s@[i + k] == pat@[k],
        decreases pat_len - j,
    {
        if s.get_char(i + j) != pat.get_char(j) {
            assert(s@.subrange(i as int, i + pat_len as int)[j as int] != pat@[j as int]);
            return false;
        }
        j += 1;
    }
    assert(s@.subrange(i as int, i + pat_len as int) =~= pat@);
    true
}

/// What `str::contains` returns: whether `pat` occurs anywhere in `s`.
pub fn contains_str(s: &str, pat: &str) -> (r: bool)
    ensures
        r == has_substring(s@, pat@),
{
    let s_len = s.unicode_len();
    let pat_len = pat.unicode_len();
    if pat_len > s_len {
        assert(forall|i: int| !occurs_at(s@, pat@, i));
        return false;
    }
    if pat_len == 0 {
        assert(s@.subrange(0, 0) =~= pat@);
        assert(occurs_at(s@, pat@, 0));
        return true;
    }
    let mut i: usize = 0;
    while i <= s_len - pat_len
        invariant
            s_len == s@.len(),
            pat_len == pat@.len(),
            0 < pat_len <= s_len,
            i <= s_len - pat_len + 1,
            forall|k: int| 0 <= k < i ==> !occurs_at(s@, pat@, k),
        decreases s_len - i,
    {
        if matches_at(s, pat, i, s_len, pat_len) {
            return true;
        }
        i += 1;
    }
    assert(forall|k: int| !occurs_at(s@, pat@, k));
    false
}

/// Tests whether `pat` is a prefix of `s` (what `str::starts_with` decides).
pub fn starts_with_str(s: &str, pat: &str) -> (r: bool)
    ensures
        r == has_prefix(s@, pat@),
{
    let s_len = s.unicode_len();
    let pat_len = pat.unicode_len();
    if pat_len > s_len {
        return false;
    }
    matches_at(s, pat, 0, s_len, pat_len)
}

// ---------------------------------------------------------------------------
// First occurrence of a single character
// ---------------------------------------------------------------------------

/// Index of the first occurrence of `c` in `s`; `s.len()` when `c` is absent.
pub open spec fn index_of_first(s: Seq<char>, c: char) -> nat
    decreases s.len(),
{
    if s.len() == 0 {
        0
    } else if s[0] == c {
        0
    } else {
        1 + index_of_first(s.drop_first(), c)
    }
}

pub proof fn lemma_index_of_first(s: Seq<char>, c: char)
    ensures
        index_of_first(s, c) <= s.len(),
        index_of_first(s, c) < s.len() ==> s[index_of_first(s, c) as int] == c,
        forall|j: int| 0 <= j < index_of_first(s, c) ==> s[j] != c,
    decreases s.len(),
{
    if s.len() == 0 {
    } else if s[0] == c {
    } else {
        lemma_index_of_first(s.drop_first(), c);
        assert forall|j: int| 0 <= j < index_of_first(s, c) implies s[j] != c by {
            if j > 0 {
                assert(s.drop_first()[j - 1] != c);
            }
        }
    }
}

/// The index is pinned by its characteristic properties.
pub proof fn lemma_index_of_first_is(s: Seq<char>, c: char, i: int)
    requires
        0 <= i < s.len(),
        s[i] == c,
        forall|j: int| 0 <= j < i ==> s[j] != c,
    ensures
        index_of_first(s, c) == i,
{
    lemma_index_of_first(s, c);
    if index_of_first(s, c) < i {
        assert(s[index_of_first(s, c) as int] == c);
    }
}

pub proof fn lemma_index_of_first_absent(s: Seq<char>, c: char)
    requires
        forall|j: int| 0 <= j < s.len() ==> s[j] != c,
    ensures
        index_of_first(s, c) == s.len(),
{
    lemma_index_of_first(s, c);
    if index_of_first(s, c) < s.len() {
        assert(s[index_of_first(s, c) as int] == c);
    }
}

/// Index of the first occurrence of `c`, or `s.len()` when absent.
pub fn find_char(s: &str, c: char) -> (r: usize)
    ensures
        r == index_of_first(s@, c),
{
    let s_len = s.unicode_len();
    let mut i: usize = 0;
    while i < s_len
        invariant
            s_len == s@.len(),
            i <= s_len,
            forall|j: int| 0 <= j < i ==> s@[j] != c,
        decreases s_len - i,
    {
        if s.get_char(i) == c {
            proof {
                lemma_index_of_first_is(s@, c, i as int);
            }
            return i;
        }
        i += 1;
    }
    proof {
        lemma_index_of_first_absent(s@, c);
    }
    s_len
}

// ---------------------------------------------------------------------------
// Lines
// ---------------------------------------------------------------------------

/// The pieces of `s` between newline characters, keeping a trailing empty
/// piece after a final newline (and one empty piece for the empty text).
pub open spec fn split_raw(s: Seq<char>) -> Seq<Seq<char>>
    decreases s.len(),
{
    if s.len() == 0 {
        seq![Seq::<char>::empty()]
    } else {
        let p = split_raw(s.drop_last());
        if s.last() == '\n' {
            p.push(Seq::<char>::empty())
        } else {
            p.update(p.len() - 1, p.last().push(s.last()))
        }
    }
}

/// Drops one trailing carriage return, as `str::lines` does on a piece that a
/// newline terminated.
pub open spec fn strip_cr(p: Seq<char>) -> Seq<char> {
    if p.len() > 0 && p.last() == '\r' {
        p.drop_last()
    } else {
        p
    }
}

/// The lines of `s`, exactly as `str::lines` yields them: pieces between
/// newlines, a carriage return stripped from each terminated piece, and no
/// empty line after a final newline.
pub open spec fn lines_of(s: Seq<char>) -> Seq<Seq<char>> {
    let raw = split_raw(s);
    let terminated = raw.drop_last().map_values(|p: Seq<char>| strip_cr(p));
    if raw.last().len() == 0 {
        terminated
    } else {
        terminated.push(raw.last())
    }
}

pub proof fn lemma_split_raw_len(s: Seq<char>)
    ensures
        split_raw(s).len() >= 1,
    decreases s.len(),
{
    if s.len() > 0 {
        lemma_split_raw_len(s.drop_last());
    }
}

/// A text without newline is a single raw piece.
pub proof fn lemma_split_raw_no_nl(s: Seq<char>)
    requires
        forall|j: int| 0 <= j < s.len() ==> s[j] != '\n',
    ensures
        split_raw(s) =~~= seq![s],
    decreases s.len(),
{
    if s.len() == 0 {
        assert(split_raw(s) =~~= seq![s]);
    } else {
        lemma_split_raw_no_nl(s.drop_last());
        assert(s.last() != '\n');
        assert(split_raw(s) =~~= seq![s.drop_last().push(s.last())]);
        assert(s.drop_last().push(s.last()) =~= s);
    }
}

/// How the raw pieces of a concatenation come from the pieces of the parts:
/// the seam pieces merge, everything else stands unchanged.
pub proof fn lemma_split_raw_concat(a: Seq<char>, b: Seq<char>)
    ensures
        split_raw(a + b) =~~= split_raw(a).drop_last() + seq![
            split_raw(a).last() + split_raw(b)[0],
        ] + split_raw(b).drop_first(),
    decreases b.len(),
{
    lemma_split_raw_len(a);
    lemma_split_raw_len(b);
    if b.len() == 0 {
        assert(a + b =~= a);
        assert(split_raw(b)[0] =~= Seq::<char>::empty());
        assert(split_raw(a).last() + split_raw(b)[0] =~= split_raw(a).last());
        assert(split_raw(a).drop_last() + seq![split_raw(a).last()] + split_raw(
            b,
        ).drop_first() =~~= split_raw(a));
    } else {
        let b0 = b.drop_last();
        let c = b.last();
        lemma_split_raw_concat(a, b0);
        lemma_split_raw_len(b0);
        assert((a + b).drop_last() =~= a + b0);
        assert((a + b).last() == c);
        let pa = split_raw(a);
        let p0 = split_raw(b0);
        let merged = pa.drop_last() + seq![pa.last() + p0[0]] + p0.drop_first();
        assert(split_raw(a + b0) =~~= merged);
        if c == '\n' {
            assert(split_raw(a + b) =~~= merged.push(Seq::<char>::empty()));
            assert(split_raw(b) =~~= p0.push(Seq::<char>::empty()));
            assert(merged.push(Seq::<char>::empty()) =~~= pa.drop_last() + seq![
                pa.last() + p0[0],
            ] + p0.push(Seq::<char>::empty()).drop_first());
        } else {
            assert(merged.len() == pa.len() + p0.len() - 1);
            assert(split_raw(a + b) =~~= merged.update(
                merged.len() - 1,
                merged.last().push(c),
            ));
            let q = p0.update(p0.len() - 1, p0.last().push(c));
            assert(split_raw(b) =~~= q);
            if p0.len() == 1 {
                assert(merged.last() == pa.last() + p0[0]);
                assert(merged.last().push(c) =~= pa.last() + q[0]);
                assert(merged.update(merged.len() - 1, merged.last().push(c)) =~~= pa.drop_last()
                    + seq![pa.last() + q[0]] + q.drop_first());
            } else {
                assert(merged.last() == p0.last());
                assert(q[0] == p0[0]);
                assert(merged.update(merged.len() - 1, merged.last().push(c)) =~~= pa.drop_last()
                    + seq![pa.last() + q[0]] + q.drop_first());
            }
        }
    }
}

/// Peeling the first line off a text whose first newline stands at `j`.
pub proof fn lemma_lines_head(s: Seq<char>, j: int)
    requires
        0 <= j < s.len(),
        s[j] == '\n',
        forall|k: int| 0 <= k < j ==> s[k] != '\n',
    ensures
        lines_of(s) =~~= seq![strip_cr(s.subrange(0, j))] + lines_of(
            s.subrange(j + 1, s.len() as int),
        ),
{
    let head = s.subrange(0, j + 1);
    let rest = s.subrange(j + 1, s.len() as int);
    assert(s =~= head + rest);
    lemma_split_raw_concat(head, rest);
    lemma_split_raw_len(rest);
    let head0 = s.subrange(0, j);
    assert(head.drop_last() =~= head0);
    lemma_split_raw_no_nl(head0);
    assert(split_raw(head) =~~= seq![head0].push(Seq::<char>::empty()));
    assert(split_raw(head).drop_last() =~~= seq![head0]);
    assert(split_raw(head).last() =~= Seq::<char>::empty());
    assert(split_raw(head).last() + split_raw(rest)[0] =~= split_raw(rest)[0]);
    assert(split_raw(s) =~~= seq![head0] + split_raw(rest));
    let rr = split_raw(rest);
    assert(split_raw(s).last() == rr.last());
    assert(split_raw(s).drop_last() =~~= seq![head0] + rr.drop_last());
    assert(split_raw(s).drop_last().map_values(|p: Seq<char>| strip_cr(p)) =~~= seq![
        strip_cr(head0),
    ] + rr.drop_last().map_values(|p: Seq<char>| strip_cr(p)));
}

/// A text without newline is its own single line, unless it is empty.
pub proof fn lemma_lines_no_nl(s: Seq<char>)
    requires
        forall|j: int| 0 <= j < s.len() ==> s[j] != '\n',
    ensures
        s.len() == 0 ==> lines_of(s) =~~= Seq::<Seq<char>>::empty(),
        s.len() > 0 ==> lines_of(s) =~~= seq![s],
{
    lemma_split_raw_no_nl(s);
}

/// No line holds a newline character.
pub proof fn lemma_lines_have_no_nl(s: Seq<char>)
    ensures
        forall|i: int, j: int|
            0 <= i < lines_of(s).len() && 0 <= j < lines_of(s)[i].len() ==> lines_of(s)[i][j]
                != '\n',
    decreases s.len(),
{
    if s.len() == 0 {
    } else {
        let n = s.len() as int;
        lemma_index_of_first(s, '\n');
        let f = index_of_first(s, '\n') as int;
        if f == n {
            lemma_lines_no_nl(s);
        } else {
            lemma_lines_head(s, f);
            lemma_lines_have_no_nl(s.subrange(f + 1, n));
            assert(forall|j: int| 0 <= j < strip_cr(s.subrange(0, f)).len() ==> strip_cr(
                s.subrange(0, f),
            )[j] != '\n');
        }
    }
}

/// The lines of a single newline-free piece of text.
pub proof fn lemma_lines_single(l: Seq<char>)
    requires
        forall|j: int| 0 <= j < l.len() ==> l[j] != '\n',
    ensures
        l.len() == 0 ==> lines_of(l).len() == 0,
        l.len() > 0 ==> lines_of(l) =~~= seq![l],
{
    lemma_lines_no_nl(l);
}

/// The lines of `s`, as `str::lines` yields them.
pub fn split_lines<'a>(s: &'a str) -> (r: Vec<&'a str>)
    ensures
        r.deep_view() =~~= lines_of(s@),
{
    let s_len = s.unicode_len();
    let mut r: Vec<&'a str> = Vec::new();
    let mut start: usize = 0;
    let mut i: usize = 0;
    proof {
        assert(s@.subrange(0, s_len as int) =~= s@);
        assert(r.deep_view() =~~= Seq::<Seq<char>>::empty());
    }
    while i < s_len
        invariant
            s_len == s@.len(),
            start <= i <= s_len,
            forall|j: int| start <= j < i ==> s@[j] != '\n',
            lines_of(s@) =~~= r.deep_view() + lines_of(s@.subrange(start as int, s_len as int)),
        decreases s_len - i,
    {
        if s.get_char(i) == '\n' {
            let end = if i > start && s.get_char(i - 1) == '\r' {
                i - 1
            } else {
                i
            };
            let piece = s.substring_char(start, end);
            proof {
                let tail = s@.subrange(start as int, s_len as int);
                lemma_lines_head(tail, i - start);
                assert(tail.subrange(0, i - start) =~= s@.subrange(start as int, i as int));
                assert(strip_cr(s@.subrange(start as int, i as int)) =~= piece@);
                assert(tail.subrange(i - start + 1, tail.len() as int) =~= s@.subrange(
                    i + 1,
                    s_len as int,
                ));
                assert(lines_of(s@) =~~= r.deep_view().push(piece@) + lines_of(
                    s@.subrange(i + 1, s_len as int),
                ));
            }
            r.push(piece);
            proof {
                assert(r.deep_view() =~~= r.deep_view().drop_last().push(piece@));
            }
            start = i + 1;
        }
        i += 1;
    }
    proof {
        lemma_lines_single(s@.subrange(start as int, s_len as int));
    }
    if start < s_len {
        let piece = s.substring_char(start, s_len);
        r.push(piece);
        proof {
            assert(r.deep_view() =~~= r.deep_view().drop_last().push(piece@));
        }
    }
    r
}

// ---------------------------------------------------------------------------
// Replacement (what `str::replace` computes)
// ---------------------------------------------------------------------------

/// `rep` around and between every character of `s`: what replacing the empty
/// pattern yields.
pub open spec fn interleave_rep(s: Seq<char>, rep: Seq<char>) -> Seq<char>
    decreases s.len(),
{
    if s.len() == 0 {
        rep
    } else {
        rep + seq![s[0]] + interleave_rep(s.drop_first(), rep)
    }
}

/// `s` with every non-overlapping occurrence of `pat` replaced by `rep`, left
/// to right: what `str::replace` computes.
pub open spec fn replace_all(s: Seq<char>, pat: Seq<char>, rep: Seq<char>) -> Seq<char>
    decreases s.len(),
{
    if pat.len() == 0 {
        interleave_rep(s, rep)
    } else if s.len() < pat.len() {
        s
    } else if s.subrange(0, pat.len() as int) == pat {
        rep + replace_all(s.skip(pat.len() as int), pat, rep)
    } else {
        seq![s[0]] + replace_all(s.drop_first(), pat, rep)
    }
}

/// `s` with every occurrence of `pat` replaced by `rep`.
pub fn replace_str(s: &str, pat: &str, rep: &str) -> (r: String)
    ensures
        r@ == replace_all(s@, pat@, rep@),
{
    let s_len = s.unicode_len();
    let pat_len = pat.unicode_len();
    let mut out = String::new();
    if pat_len == 0 {
        let mut i: usize = 0;
        proof {
            assert(s@.subrange(0, s_len as int) =~= s@);
        }
        while i < s_len
            invariant
                s_len == s@.len(),
                i <= s_len,
                interleave_rep(s@, rep@) == out@ + interleave_rep(
                    s@.subrange(i as int, s_len as int),
                    rep@,
                ),
            decreases s_len - i,
        {
            out.append(rep);
            let piece = s.substring_char(i, i + 1);
            out.append(piece);
            proof {
                let tail = s@.subrange(i as int, s_len as int);
                assert(seq![tail[0]] =~= piece@);
                assert(tail.drop_first() =~= s@.subrange(i + 1, s_len as int));
            }
            i += 1;
        }
        out.append(rep);
        proof {
            assert(s@.subrange(s_len as int, s_len as int) =~= Seq::<char>::empty());
        }
        return out;
    }
    let mut i: usize = 0;
    proof {
        assert(s@.subrange(0, s_len as int) =~= s@);
    }
    while i < s_len
        invariant
            s_len == s@.len(),
            pat_len == pat@.len(),
            0 < pat_len,
            i <= s_len,
            replace_all(s@, pat@, rep@) == out@ + replace_all(
                s@.subrange(i as int, s_len as int),
                pat@,
                rep@,
            ),
        decreases s_len - i,
    {
        let tail_len = s_len - i;
        if pat_len <= tail_len && matches_at(s, pat, i, s_len, pat_len) {
            out.append(rep);
            proof {
                let tail = s@.subrange(i as int, s_len as int);
                assert(tail.subrange(0, pat_len as int) =~= s@.subrange(
                    i as int,
                    i + pat_len as int,
                ));
                assert(tail.skip(pat_len as int) =~= s@.subrange(i + pat_len, s_len as int));
            }
            i += pat_len;
        } else {
            let piece = s.substring_char(i, i + 1);
            out.append(piece);
            proof {
                let tail = s@.subrange(i as int, s_len as int);
                if pat_len <= tail_len {
                    assert(tail.subrange(0, pat_len as int) =~= s@.subrange(
                        i as int,
                        i + pat_len as int,
                    ));
                }
                assert(seq![tail[0]] =~= piece@);
                assert(tail.drop_first() =~= s@.subrange(i + 1, s_len as int));
            }
            i += 1;
        }
    }
    proof {
        assert(s@.subrange(s_len as int, s_len as int) =~= Seq::<char>::empty());
    }
    out
}

// ---------------------------------------------------------------------------
// Whitespace and trimming (what `str::trim` strips)
// ---------------------------------------------------------------------------

/// The characters `char::is_whitespace` accepts.
pub open spec fn is_space_char(c: char) -> bool {
    c == ' ' || c == '\t' || c == '\n' || c == '\u{b}' || c == '\u{c}' || c == '\r' || c
        == '\u{85}' || c == '\u{a0}' || c == '\u{1680}' || ('\u{2000}' <= c && c <= '\u{200a}') || c
        == '\u{2028}' || c == '\u{2029}' || c == '\u{202f}' || c == '\u{205f}' || c == '\u{3000}'
}

/// Whether `c` counts as whitespace, exactly as `char::is_whitespace` does.
pub fn space_char(c: char) -> (r: bool)
    ensures
        r == is_space_char(c),
{
    c == ' ' || c == '\t' || c == '\n' || c == '\u{b}' || c == '\u{c}' || c == '\r' || c
        == '\u{85}' || c == '\u{a0}' || c == '\u{1680}' || ('\u{2000}' <= c && c <= '\u{200a}') || c
        == '\u{2028}' || c == '\u{2029}' || c == '\u{202f}' || c == '\u{205f}' || c == '\u{3000}'
}

/// `s` without leading and trailing whitespace: what `str::trim` returns.
pub open spec fn trim_spec(s: Seq<char>) -> Seq<char> {
    let a = first_non_space(s);
    let b = last_non_space_end(s);
    if a < b {
        s.subrange(a as int, b as int)
    } else {
        Seq::<char>::empty()
    }
}

/// Index of the first character that is not whitespace; `s.len()` when all are.
pub open spec fn first_non_space(s: Seq<char>) -> nat
    decreases s.len(),
{
    if s.len() == 0 {
        0
    } else if !is_space_char(s[0]) {
        0
    } else {
        1 + first_non_space(s.drop_first())
    }
}

/// One past the index of the last character that is not whitespace; 0 when all are.
pub open spec fn last_non_space_end(s: Seq<char>) -> nat
    decreases s.len(),
{
    if s.len() == 0 {
        0
    } else if !is_space_char(s.last()) {
        s.len()
    } else {
        last_non_space_end(s.drop_last())
    }
}

pub proof fn lemma_first_non_space(s: Seq<char>)
    ensures
        first_non_space(s) <= s.len(),
        first_non_space(s) < s.len() ==> !is_space_char(s[first_non_space(s) as int]),
        forall|j: int| 0 <= j < first_non_space(s) ==> is_space_char(s[j]),
    decreases s.len(),
{
    if s.len() == 0 {
    } else if !is_space_char(s[0]) {
    } else {
        lemma_first_non_space(s.drop_first());
        assert forall|j: int| 0 <= j < first_non_space(s) implies is_space_char(s[j]) by {
            if j > 0 {
                assert(is_space_char(s.drop_first()[j - 1]));
            }
        }
    }
}

pub proof fn lemma_last_non_space_end(s: Seq<char>)
    ensures
        last_non_space_end(s) <= s.len(),
        last_non_space_end(s) > 0 ==> !is_space_char(s[last_non_space_end(s) - 1]),
        forall|j: int| last_non_space_end(s) <= j < s.len() ==> is_space_char(s[j]),
    decreases s.len(),
{
    if s.len() == 0 {
    } else if !is_space_char(s.last()) {
    } else {
        lemma_last_non_space_end(s.drop_last());
        assert forall|j: int| last_non_space_end(s) <= j < s.len() implies is_space_char(
            s[j],
        ) by {
            if j < s.len() - 1 {
                assert(is_space_char(s.drop_last()[j]));
            }
        }
    }
}

pub proof fn lemma_first_non_space_is(s: Seq<char>, i: int)
    requires
        0 <= i <= s.len(),
        i < s.len() ==> !is_space_char(s[i]),
        forall|j: int| 0 <= j < i ==> is_space_char(s[j]),
    ensures
        first_non_space(s) == i,
{
    lemma_first_non_space(s);
    if first_non_space(s) < i {
        assert(is_space_char(s[first_non_space(s) as int]));
    }
}

pub proof fn lemma_last_non_space_end_is(s: Seq<char>, i: int)
    requires
        0 <= i <= s.len(),
        i > 0 ==> !is_space_char(s[i - 1]),
        forall|j: int| i <= j < s.len() ==> is_space_char(s[j]),
    ensures
        last_non_space_end(s) == i,
{
    lemma_last_non_space_end(s);
    if last_non_space_end(s) < i {
        assert(is_space_char(s[last_non_space_end(s) as int]));
    }
    if i < last_non_space_end(s) {
        assert(is_space_char(s[last_non_space_end(s) - 1]));
    }
}

/// `s` without leading and trailing whitespace, as `str::trim` returns it.
pub fn trim_str<'a>(s: &'a str) -> (r: &'a str)
    ensures
        r@ == trim_spec(s@),
{
    let s_len = s.unicode_len();
    let mut a: usize = 0;
    while a < s_len && space_char(s.get_char(a))
        invariant
            s_len == s@.len(),
            a <= s_len,
            forall|j: int| 0 <= j < a ==> is_space_char(s@[j]),
        decreases s_len - a,
    {
        a += 1;
    }
    if a == s_len {
        proof {
            lemma_first_non_space(s@);
            lemma_last_non_space_end(s@);
            if last_non_space_end(s@) > 0 {
                assert(is_space_char(s@[last_non_space_end(s@) - 1]));
            }
        }
        let r = s.substring_char(s_len, s_len);
        proof {
            assert(r@ =~= Seq::<char>::empty());
        }
        return r;
    }
    proof {
        lemma_first_non_space_is(s@, a as int);
    }
    let mut b: usize = s_len;
    while b > a && space_char(s.get_char(b - 1))
        invariant
            s_len == s@.len(),
            a <= b <= s_len,
            a < s_len,
            !is_space_char(s@[a as int]),
            forall|j: int| b <= j < s_len ==> is_space_char(s@[j]),
        decreases b,
    {
        b -= 1;
    }
    proof {
        if b == a {
            assert(!is_space_char(s@[a as int]));
            assert(is_space_char(s@[b as int]));
        }
        lemma_last_non_space_end_is(s@, b as int);
    }
    s.substring_char(a, b)
}

// ---------------------------------------------------------------------------
// Joining lines with newlines (what `[String]::join("\n")` builds)
// ---------------------------------------------------------------------------

/// The pieces of `ls` joined with single newlines.
pub open spec fn join_nl(ls: Seq<Seq<char>>) -> Seq<char>
    decreases ls.len(),
{
    if ls.len() == 0 {
        Seq::<char>::empty()
    } else if ls.len() == 1 {
        ls[0]
    } else {
        join_nl(ls.drop_last()) + seq!['\n'] + ls.last()
    }
}

} // verus!
