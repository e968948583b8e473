//! The alias store: listing, searching, adding, removing and editing the
//! `alias <name>='<command>'` lines of a shell configuration file, and the
//! `[alias]` section of a Git configuration file. Every operation works on the
//! file's contents handed in as text and reports the lines it prints, the file
//! update it asks for, and how it ended; reading and writing the file itself
//! is the caller's business.

use vstd::prelude::*;
use vstd::string::*;
use crate::funcs::{func_definitions, func_open_pattern, funcs_of, shown_funcs};
use crate::pattern::{matching_lines, regex_matches, regex_valid, search};
use crate::style::{highlight_spec, highlight_with_marker, red_bold, styled_marker};
use crate::text::{
    has_prefix, has_substring, index_of_first, lemma_index_of_first, lines_of, contains_str,
    find_char, split_lines, starts_with_str,
};

verus! {

// ---------------------------------------------------------------------------
// Requests and outcomes
// ---------------------------------------------------------------------------

/// What the user asked the store to do.
#[allow(inconsistent_fields)]
pub enum Operation {
    /// Show all aliases, or the ones that contain `name`.
    Sh { name: Option<String> },
    /// Add a new alias.
    Add { name: String, command: String },
    /// Delete an alias.
    Del { name: String },
    /// Replace the command of an alias.
    Mod { name: String, command: String },
}

/// An operation together with the two mode flags of the command line.
pub struct Args {
    /// Match against whole lines and bodies, not only names.
    pub content: bool,
    /// Work on the Git configuration's `[alias]` section.
    pub git: bool,
    /// The operation to run.
    pub operation: Operation,
}

/// Why an operation failed.
#[derive(Clone, Copy, Debug, PartialEq, Eq, Structural)]
pub enum AliasError {
    /// No alias matched the name.
    NotFound,
    /// An alias of that name already exists.
    AlreadyExists,
    /// The input cannot be written as an alias line, or does not compile as a
    /// search pattern.
    InvalidInput,
}

/// The line the tool reports for a failure.
pub open spec fn error_message(e: AliasError) -> Seq<char> {
    match e {
        AliasError::NotFound => "Alias not found"@,
        AliasError::AlreadyExists => "Alias already exists"@,
        AliasError::InvalidInput => "Command cannot contain single quotes"@,
    }
}

impl AliasError {
    /// The line the tool reports for this failure.
    pub fn message(&self) -> (r: String)
        ensures
            r@ == error_message(*self),
    {
        match self {
            AliasError::NotFound => String::from_str("Alias not found"),
            AliasError::AlreadyExists => String::from_str("Alias already exists"),
            AliasError::InvalidInput => String::from_str("Command cannot contain single quotes"),
        }
    }
}

/// What should happen to the configuration file.
#[derive(Debug, PartialEq, Eq)]
pub enum FileUpdate {
    /// Leave the file as it is.
    Unchanged,
    /// Append this text to the file.
    Append(String),
    /// Replace the file's contents with this text.
    Rewrite(String),
}

/// The update appends exactly `c`.
pub open spec fn is_append(u: FileUpdate, c: Seq<char>) -> bool {
    match u {
        FileUpdate::Append(s) => s@ == c,
        _ => false,
    }
}

/// The update rewrites the file to exactly `c`.
pub open spec fn is_rewrite(u: FileUpdate, c: Seq<char>) -> bool {
    match u {
        FileUpdate::Rewrite(s) => s@ == c,
        _ => false,
    }
}

/// Everything one operation did: the lines it printed in order, the file
/// update it asks for, a warning to log if any, and how it ended.
#[derive(Debug)]
pub struct OpReport {
    /// The lines printed to standard output, in order.
    pub output: Vec<String>,
    /// What should happen to the configuration file.
    pub file: FileUpdate,
    /// A warning to log, if any.
    pub warning: Option<String>,
    /// Success, or why the operation failed.
    pub status: Result<(), AliasError>,
}

// ---------------------------------------------------------------------------
// The patterns and line forms the store works with
// ---------------------------------------------------------------------------

/// The search pattern that selects alias lines: optional leading whitespace,
/// the word `alias`, and an equals sign further on.
pub open spec fn alias_list_pattern() -> Seq<char> {
    "^\\s*alias.*=.*\\s*"@
}

/// The search pattern `add` probes with before appending: the new line's
/// prefix up to and including its equals sign, anywhere in a line.
pub open spec fn add_check_pattern(name: Seq<char>) -> Seq<char> {
    "alias "@ + name + "="@
}

/// The search pattern `remove` and `edit` select lines with: optional leading
/// whitespace, `alias`, optional whitespace, the name, an equals sign. The
/// name stands in the pattern as given; escaping it is the caller's business.
pub open spec fn modify_pattern(name: Seq<char>) -> Seq<char> {
    "^\\s*alias\\s*"@ + name + "=.*\\s*"@
}

/// The serialized form of an alias.
pub open spec fn alias_line(name: Seq<char>, command: Seq<char>) -> Seq<char> {
    "alias "@ + name + "='"@ + command + "'"@
}

fn build_add_check_pattern(name: &str) -> (r: String)
    ensures
        r@ == add_check_pattern(name@),
{
    let mut s = String::from_str("alias ");
    s.append(name);
    s.append("=");
    s
}

fn build_modify_pattern(name: &str) -> (r: String)
    ensures
        r@ == modify_pattern(name@),
{
    let mut s = String::from_str("^\\s*alias\\s*");
    s.append(name);
    s.append("=.*\\s*");
    s
}

fn build_alias_line(name: &str, command: &str) -> (r: String)
    ensures
        r@ == alias_line(name@, command@),
{
    let mut s = String::from_str("alias ");
    s.append(name);
    s.append("='");
    s.append(command);
    s.append("'");
    s
}

// ---------------------------------------------------------------------------
// Listing aliases
// ---------------------------------------------------------------------------

/// The lines strictly between a `[alias]` header and the next section header.
pub open spec fn git_section_lines(ls: Seq<Seq<char>>, in_sec: bool) -> Seq<Seq<char>>
    decreases ls.len(),
{
    if ls.len() == 0 {
        Seq::<Seq<char>>::empty()
    } else {
        let l = ls[0];
        let rest = ls.drop_first();
        if has_prefix(l, "[alias]"@) {
            git_section_lines(rest, true)
        } else if has_prefix(l, "["@) {
            git_section_lines(rest, false)
        } else if in_sec {
            seq![l] + git_section_lines(rest, true)
        } else {
            git_section_lines(rest, false)
        }
    }
}

/// The alias lines of the file: in git mode the `[alias]` section's lines, in
/// shell mode every line the alias pattern matches, in file order either way.
pub open spec fn aliases_of(c: Seq<char>, git: bool) -> Seq<Seq<char>> {
    if git {
        git_section_lines(lines_of(c), false)
    } else {
        matching_lines(alias_list_pattern(), lines_of(c))
    }
}

/// Every alias line of the file, in file order.
pub fn get_aliases(contents: &str, git: bool) -> (r: Vec<String>)
    requires
        !git ==> regex_valid(alias_list_pattern()),
    ensures
        r.deep_view() == aliases_of(contents@, git),
{
    if !git {
        let found = search("^\\s*alias.*=.*\\s*", contents);
        let mut r: Vec<String> = Vec::new();
        let mut i: usize = 0;
        let n = found.len();
        while i < n
            invariant
                n == found.len(),
                i <= n,
                r.deep_view() =~~= found.deep_view().subrange(0, i as int),
            decreases n - i,
        {
            let st = String::from_str(found[i]);
            r.push(st);
            proof {
                assert(r.deep_view() =~~= r.deep_view().drop_last().push(
                    found.deep_view()[i as int],
                ));
                assert(found.deep_view().subrange(0, i + 1) =~~= found.deep_view().subrange(
                    0,
                    i as int,
                ).push(found.deep_view()[i as int]));
            }
            i += 1;
        }
        proof {
            assert(found.deep_view().subrange(0, n as int) =~~= found.deep_view());
        }
        r
    } else {
        let ls = split_lines(contents);
        let mut r: Vec<String> = Vec::new();
        let mut in_sec = false;
        let mut i: usize = 0;
        let n = ls.len();
        proof {
            assert(ls.deep_view().skip(0) =~~= ls.deep_view());
        }
        while i < n
            invariant
                n == ls.len(),
                i <= n,
                ls.deep_view() =~~= lines_of(contents@),
                aliases_of(contents@, true) =~~= r.deep_view() + git_section_lines(
                    ls.deep_view().skip(i as int),
                    in_sec,
                ),
            decreases n - i,
        {
            let line = &ls[i];
            proof {
                let tail = ls.deep_view().skip(i as int);
                assert(tail[0] =~= ls.deep_view()[i as int]);
                assert(tail.drop_first() =~~= ls.deep_view().skip(i + 1));
            }
            if starts_with_str(line, "[alias]") {
                in_sec = true;
            } else if starts_with_str(line, "[") {
                in_sec = false;
            } else if in_sec {
                r.push(String::from_str(line));
                proof {
                    assert(r.deep_view() =~~= r.deep_view().drop_last().push(ls.deep_view()[i as int]));
                }
            }
            i += 1;
        }
        proof {
            assert(ls.deep_view().skip(n as int) =~~= Seq::<Seq<char>>::empty());
        }
        r
    }
}

// ---------------------------------------------------------------------------
// Showing aliases
// ---------------------------------------------------------------------------

/// The part of an alias line before its first equals sign (the whole line when
/// there is none): the alias's name side.
pub open spec fn alias_name_part(l: Seq<char>) -> Seq<char> {
    l.subrange(0, index_of_first(l, '=') as int)
}

/// Whether a search for `name` selects this alias line: against the whole
/// line in content mode, against the name side otherwise.
pub open spec fn alias_selected(l: Seq<char>, name: Seq<char>, content_mode: bool) -> bool {
    if content_mode {
        has_substring(l, name)
    } else {
        has_substring(alias_name_part(l), name)
    }
}

/// The selected alias lines, each highlighted: across the whole line in
/// content mode, before the equals sign otherwise.
pub open spec fn shown_aliases(
    ls: Seq<Seq<char>>,
    name: Seq<char>,
    marker: Seq<char>,
    content_mode: bool,
) -> Seq<Seq<char>>
    decreases ls.len(),
{
    if ls.len() == 0 {
        Seq::<Seq<char>>::empty()
    } else {
        let rest = shown_aliases(ls.drop_first(), name, marker, content_mode);
        if alias_selected(ls[0], name, content_mode) {
            seq![
                highlight_spec(
                    ls[0],
                    name,
                    marker,
                    if content_mode {
                        Option::None
                    } else {
                        Option::Some('=')
                    },
                ),
            ] + rest
        } else {
            rest
        }
    }
}

/// The alias lines that a search for `name` selects, highlighted with the
/// given marker text, in their original order.
pub fn select_aliases(aliases: &Vec<String>, name: &str, marker: &str, search_content: bool) -> (r:
    Vec<String>)
    ensures
        r.deep_view() == shown_aliases(aliases.deep_view(), name@, marker@, search_content),
{
    let mut r: Vec<String> = Vec::new();
    let mut i: usize = 0;
    let n = aliases.len();
    proof {
        assert(aliases.deep_view().skip(0) =~~= aliases.deep_view());
    }
    while i < n
        invariant
            n == aliases.len(),
            i <= n,
            shown_aliases(aliases.deep_view(), name@, marker@, search_content) =~~= r.deep_view()
                + shown_aliases(
                aliases.deep_view().skip(i as int),
                name@,
                marker@,
                search_content,
            ),
        decreases n - i,
    {
        let line = &aliases[i];
        proof {
            let tail = aliases.deep_view().skip(i as int);
            assert(tail[0] =~= aliases.deep_view()[i as int]);
            assert(tail.drop_first() =~~= aliases.deep_view().skip(i + 1));
        }
        if search_content {
            if contains_str(line.as_str(), name) {
                let h = highlight_with_marker(line.as_str(), name, marker, None);
                r.push(h);
                proof {
                    assert(r.deep_view() =~~= r.deep_view().drop_last().push(
                        r.deep_view().last(),
                    ));
                }
            }
        } else {
            proof {
                lemma_index_of_first(line@, '=');
            }
            let cut = find_char(line.as_str(), '=');
            let name_side = line.as_str().substring_char(0, cut);
            if contains_str(name_side, name) {
                let h = highlight_with_marker(line.as_str(), name, marker, Some('='));
                r.push(h);
                proof {
                    assert(r.deep_view() =~~= r.deep_view().drop_last().push(
                        r.deep_view().last(),
                    ));
                }
            }
        }
        i += 1;
    }
    proof {
        assert(aliases.deep_view().skip(n as int) =~~= Seq::<Seq<char>>::empty());
    }
    r
}

/// The lines the show operation prints for aliases: all of them for an empty
/// query, the selected ones highlighted otherwise; a search that selects
/// nothing fails with `NotFound`.
pub fn show_aliases(contents: &str, name: &Option<String>, search_content: bool, git: bool) -> (r:
    Result<Vec<String>, AliasError>)
    requires
        !git ==> regex_valid(alias_list_pattern()),
    ensures
        match name {
            Option::None => r matches Ok(v) && v.deep_view() == aliases_of(contents@, git),
            Option::Some(n) => exists|m: Seq<char>|
                styled_marker(m, n@) && ({
                    let shown = shown_aliases(aliases_of(contents@, git), n@, m, search_content);
                    if shown.len() == 0 {
                        r matches Err(e) && e == AliasError::NotFound
                    } else {
                        r matches Ok(v) && v.deep_view() == shown
                    }
                }),
        },
{
    let aliases = get_aliases(contents, git);
    match name {
        Some(n) => {
            let marker = red_bold(n.as_str());
            let selected = select_aliases(&aliases, n.as_str(), marker.as_str(), search_content);
            let ghost m = marker@;
            if selected.len() == 0 {
                proof {
                    assert(styled_marker(m, n@) && ({
                        let shown = shown_aliases(aliases_of(contents@, git), n@, m, search_content);
                        shown.len() == 0
                    }));
                }
                Err(AliasError::NotFound)
            } else {
                proof {
                    assert(styled_marker(m, n@) && ({
                        let shown = shown_aliases(aliases_of(contents@, git), n@, m, search_content);
                        shown.len() > 0 && selected.deep_view() == shown
                    }));
                }
                Ok(selected)
            }
        },
        None => Ok(aliases),
    }
}

// ---------------------------------------------------------------------------
// Adding an alias
// ---------------------------------------------------------------------------

/// Everything `add_alias` guarantees: a command with a single quote is
/// rejected before anything else, a name whose probe pattern matches an
/// existing line is rejected without touching the file, and otherwise exactly
/// one new alias line is appended and announced.
pub open spec fn add_outcome(c: Seq<char>, nm: Seq<char>, cmd: Seq<char>, r: OpReport) -> bool {
    if has_substring(cmd, "'"@) {
        &&& r.output.deep_view() == seq!["Command cannot contain single quotes"@]
        &&& r.file is Unchanged
        &&& r.warning is None
        &&& r.status == Result::<(), AliasError>::Err(AliasError::InvalidInput)
    } else if matching_lines(add_check_pattern(nm), lines_of(c)).len() > 0 {
        &&& r.output.deep_view() == seq!["Alias already exists"@]
        &&& r.file is Unchanged
        &&& r.warning is None
        &&& r.status == Result::<(), AliasError>::Err(AliasError::AlreadyExists)
    } else {
        &&& r.output.deep_view() == seq!["New alias added: "@ + alias_line(nm, cmd)]
        &&& is_append(r.file, alias_line(nm, cmd) + "\n"@)
        &&& r.warning is None
        &&& r.status == Result::<(), AliasError>::Ok(())
    }
}

/// Appends `alias <name>='<command>'` to the file, unless the command holds a
/// single quote or a line with that name already exists.
pub fn add_alias(contents: &str, name: &str, command: &str) -> (r: OpReport)
    requires
        !has_substring(command@, "'"@) ==> regex_valid(add_check_pattern(name@)),
    ensures
        add_outcome(contents@, name@, command@, r),
{
    if contains_str(command, "'") {
        let mut output: Vec<String> = Vec::new();
        output.push(String::from_str("Command cannot contain single quotes"));
        proof {
            assert(output.deep_view() =~~= seq!["Command cannot contain single quotes"@]);
        }
        return OpReport {
            output,
            file: FileUpdate::Unchanged,
            warning: None,
            status: Err(AliasError::InvalidInput),
        };
    }
    let pat = build_add_check_pattern(name);
    let found = search(pat.as_str(), contents);
    if found.len() > 0 {
        let mut output: Vec<String> = Vec::new();
        output.push(String::from_str("Alias already exists"));
        proof {
            assert(output.deep_view() =~~= seq!["Alias already exists"@]);
        }
        return OpReport {
            output,
            file: FileUpdate::Unchanged,
            warning: None,
            status: Err(AliasError::AlreadyExists),
        };
    }
    let new_line = build_alias_line(name, command);
    let mut announce = String::from_str("New alias added: ");
    announce.append(new_line.as_str());
    let mut appended = new_line;
    appended.append("\n");
    let mut output: Vec<String> = Vec::new();
    output.push(announce);
    proof {
        assert(output.deep_view() =~~= seq!["New alias added: "@ + alias_line(name@, command@)]);
    }
    OpReport {
        output,
        file: FileUpdate::Append(appended),
        warning: None,
        status: Ok(()),
    }
}

// ---------------------------------------------------------------------------
// Removing and editing aliases
// ---------------------------------------------------------------------------

/// Whether `remove`/`edit` acts on this line: a line the compiled pattern
/// matches. The empty line never counts, since matching goes line by line over
/// the one-line text and an empty text has no lines.
pub open spec fn line_modified(pat: Seq<char>, l: Seq<char>) -> bool {
    l.len() > 0 && regex_matches(pat, l)
}

/// The rewritten file: every line the pattern selects is dropped, or replaced
/// by the replacement line when one is given; every other line stands
/// unchanged and in order, each line newline-terminated.
pub open spec fn modified_contents(
    ls: Seq<Seq<char>>,
    pat: Seq<char>,
    rep: Option<Seq<char>>,
) -> Seq<char>
    decreases ls.len(),
{
    if ls.len() == 0 {
        Seq::<char>::empty()
    } else {
        let rest = modified_contents(ls.drop_first(), pat, rep);
        if line_modified(pat, ls[0]) {
            match rep {
                Option::Some(rl) => rl + seq!['\n'] + rest,
                Option::None => rest,
            }
        } else {
            ls[0] + seq!['\n'] + rest
        }
    }
}

/// How many lines the pattern selects.
pub open spec fn modified_count(ls: Seq<Seq<char>>, pat: Seq<char>) -> nat
    decreases ls.len(),
{
    if ls.len() == 0 {
        0
    } else {
        (if line_modified(pat, ls[0]) {
            1nat
        } else {
            0nat
        }) + modified_count(ls.drop_first(), pat)
    }
}

/// The note printed for each selected line, in order.
pub open spec fn modify_notes(ls: Seq<Seq<char>>, pat: Seq<char>, edit: bool) -> Seq<Seq<char>>
    decreases ls.len(),
{
    if ls.len() == 0 {
        Seq::<Seq<char>>::empty()
    } else {
        let rest = modify_notes(ls.drop_first(), pat, edit);
        if line_modified(pat, ls[0]) {
            seq![
                (if edit {
                    "Editing alias: "@
                } else {
                    "Removing alias: "@
                }) + ls[0],
            ] + rest
        } else {
            rest
        }
    }
}

/// Everything `remove_alias` and `edit_alias` guarantee. A replacement
/// command with a single quote cannot be serialized into an alias line and is
/// rejected before any file mutation. Otherwise the file is rewritten whether
/// or not anything matched; zero matches fail with `NotFound` after the
/// rewrite, more than one match succeeds with a warning.
pub open spec fn modify_outcome(
    c: Seq<char>,
    nm: Seq<char>,
    rep_cmd: Option<Seq<char>>,
    r: OpReport,
) -> bool {
    if (match rep_cmd {
        Option::Some(cm) => has_substring(cm, "'"@),
        Option::None => false,
    }) {
        &&& r.output.deep_view() == seq!["Command cannot contain single quotes"@]
        &&& r.file is Unchanged
        &&& r.warning is None
        &&& r.status == Result::<(), AliasError>::Err(AliasError::InvalidInput)
    } else {
        modify_rewrite_outcome(c, nm, rep_cmd, r)
    }
}

/// The rewrite part of `modify_outcome`, once the replacement command (if
/// any) is known to be serializable.
pub open spec fn modify_rewrite_outcome(
    c: Seq<char>,
    nm: Seq<char>,
    rep_cmd: Option<Seq<char>>,
    r: OpReport,
) -> bool {
    let ls = lines_of(c);
    let pat = modify_pattern(nm);
    let rep = match rep_cmd {
        Option::Some(cm) => Option::Some(alias_line(nm, cm)),
        Option::None => Option::<Seq<char>>::None,
    };
    let nc = modified_contents(ls, pat, rep);
    let k = modified_count(ls, pat);
    &&& is_rewrite(r.file, nc)
    &&& r.output.deep_view() == modify_notes(ls, pat, rep_cmd is Some).push(nc) + (if k == 0 {
        seq!["Alias '"@ + nm + "' not found"@]
    } else {
        Seq::<Seq<char>>::empty()
    })
    &&& r.status == (if k == 0 {
        Result::<(), AliasError>::Err(AliasError::NotFound)
    } else {
        Result::<(), AliasError>::Ok(())
    })
    &&& match r.warning {
        Option::Some(w) => k > 1 && w@ == "Found more than one alias with name '"@ + nm + "'"@,
        Option::None => k <= 1,
    }
}

/// Rewrites the file, dropping (or, with a replacement command, rewriting)
/// every line that matches the name's pattern. A replacement command with a
/// single quote is rejected before anything else.
fn helper_modify_alias(contents: &str, name: &str, command: Option<&str>) -> (r: OpReport)
    requires
        (match command {
            Option::Some(cm) => !has_substring(cm@, "'"@),
            Option::None => true,
        }) ==> regex_valid(modify_pattern(name@)),
    ensures
        modify_outcome(
            contents@,
            name@,
            match command {
                Option::Some(cm) => Option::Some(cm@),
                Option::None => Option::None,
            },
            r,
        ),
{
    if let Some(cm) = command {
        if contains_str(cm, "'") {
            let mut output: Vec<String> = Vec::new();
            output.push(String::from_str("Command cannot contain single quotes"));
            proof {
                assert(output.deep_view() =~~= seq!["Command cannot contain single quotes"@]);
            }
            return OpReport {
                output,
                file: FileUpdate::Unchanged,
                warning: None,
                status: Err(AliasError::InvalidInput),
            };
        }
    }
    let pat = build_modify_pattern(name);
    let ghost pat_v = modify_pattern(name@);
    let ghost rep: Option<Seq<char>> = match command {
        Some(cm) => Some(alias_line(name@, cm@)),
        None => None,
    };
    let ls = split_lines(contents);
    let ghost lsv = lines_of(contents@);
    let mut new_contents = String::new();
    let mut notes: Vec<String> = Vec::new();
    let mut found: usize = 0;
    let mut i: usize = 0;
    let n = ls.len();
    proof {
        assert(lsv.skip(0) =~~= lsv);
        assert(notes.deep_view() =~~= Seq::<Seq<char>>::empty());
        crate::text::lemma_lines_have_no_nl(contents@);
    }
    while i < n
        invariant
            n == ls.len(),
            i <= n,
            found <= i,
            ls.deep_view() =~~= lsv,
            lsv == lines_of(contents@),
            pat@ == pat_v,
            regex_valid(pat_v),
            rep == match command {
                Option::Some(cm) => Option::Some(alias_line(name@, cm@)),
                Option::None => Option::<Seq<char>>::None,
            },
            forall|a: int, b: int| 0 <= a < lsv.len() && 0 <= b < lsv[a].len() ==> lsv[a][b] != '\n',
            modified_contents(lsv, pat_v, rep) == new_contents@ + modified_contents(
                lsv.skip(i as int),
                pat_v,
                rep,
            ),
            modify_notes(lsv, pat_v, command is Some) =~~= notes.deep_view() + modify_notes(
                lsv.skip(i as int),
                pat_v,
                command is Some,
            ),
            modified_count(lsv, pat_v) == found + modified_count(lsv.skip(i as int), pat_v),
        decreases n - i,
    {
        let line = ls[i];
        proof {
            let tail = lsv.skip(i as int);
            assert(tail[0] =~= lsv[i as int]);
            assert(tail.drop_first() =~~= lsv.skip(i + 1));
            crate::text::lemma_lines_single(line@);
        }
        let line_match = search(pat.as_str(), line);
        proof {
            reveal_strlit("\n");
            assert("\n"@ =~= seq!['\n']);
            if line@.len() == 0 {
                assert(lines_of(line@) =~~= Seq::<Seq<char>>::empty());
                assert(matching_lines(pat_v, lines_of(line@)).len() == 0);
            } else {
                assert(lines_of(line@) =~~= seq![line@]);
                let single = seq![line@];
                assert(single[0] == line@);
                assert(single.drop_first() =~~= Seq::<Seq<char>>::empty());
                assert(matching_lines(pat_v, single.drop_first()) =~~= Seq::<Seq<char>>::empty());
                if regex_matches(pat_v, line@) {
                    assert(matching_lines(pat_v, single) =~~= seq![line@]);
                } else {
                    assert(matching_lines(pat_v, single) =~~= Seq::<Seq<char>>::empty());
                }
            }
            assert(line_match.deep_view().len() > 0 <==> line_modified(pat_v, line@));
        }
        if line_match.len() > 0 {
            match command {
                Some(cm) => {
                    let rep_line = build_alias_line(name, cm);
                    new_contents.append(rep_line.as_str());
                    new_contents.append("\n");
                    let mut note = String::from_str("Editing alias: ");
                    note.append(line);
                    notes.push(note);
                },
                None => {
                    let mut note = String::from_str("Removing alias: ");
                    note.append(line);
                    notes.push(note);
                },
            }
            proof {
                assert(notes.deep_view() =~~= notes.deep_view().drop_last().push(
                    notes.deep_view().last(),
                ));
            }
            found += 1;
        } else {
            new_contents.append(line);
            new_contents.append("\n");
        }
        i += 1;
    }
    proof {
        assert(lsv.skip(n as int) =~~= Seq::<Seq<char>>::empty());
        assert(new_contents@ =~= modified_contents(lsv, pat_v, rep));
    }
    let mut output = notes;
    let final_contents = new_contents.clone();
    output.push(new_contents);
    proof {
        assert(output.deep_view() =~~= output.deep_view().drop_last().push(
            modified_contents(lsv, pat_v, rep),
        ));
    }
    let status: Result<(), AliasError>;
    let mut warning: Option<String> = None;
    if found == 0 {
        let mut miss = String::from_str("Alias '");
        miss.append(name);
        miss.append("' not found");
        output.push(miss);
        proof {
            assert(output.deep_view() =~~= output.deep_view().drop_last().push(
                "Alias '"@ + name@ + "' not found"@,
            ));
        }
        status = Err(AliasError::NotFound);
    } else {
        if found > 1 {
            let mut warn = String::from_str("Found more than one alias with name '");
            warn.append(name);
            warn.append("'");
            warning = Some(warn);
        }
        status = Ok(());
    }
    proof {
        if modified_count(lsv, pat_v) == 0 {
            assert(output.deep_view() =~~= modify_notes(lsv, pat_v, command is Some).push(
                modified_contents(lsv, pat_v, rep),
            ) + seq!["Alias '"@ + name@ + "' not found"@]);
        } else {
            assert(output.deep_view() =~~= modify_notes(lsv, pat_v, command is Some).push(
                modified_contents(lsv, pat_v, rep),
            ) + Seq::<Seq<char>>::empty());
        }
    }
    OpReport { output, file: FileUpdate::Rewrite(final_contents), warning, status }
}

/// Rewrites the file with every line matching the name's pattern dropped;
/// fails with `NotFound` when nothing matched, warns when several did.
pub fn remove_alias(contents: &str, name: &str) -> (r: OpReport)
    requires
        regex_valid(modify_pattern(name@)),
    ensures
        modify_outcome(contents@, name@, Option::None, r),
{
    helper_modify_alias(contents, name, None)
}

/// Rewrites the file with every line matching the name's pattern replaced by
/// `alias <name>='<command>'`; fails with `NotFound` when nothing matched,
/// warns when several did. A command with a single quote cannot be written
/// between the line's quotes and is rejected before any file mutation.
pub fn edit_alias(contents: &str, name: &str, command: &str) -> (r: OpReport)
    requires
        !has_substring(command@, "'"@) ==> regex_valid(modify_pattern(name@)),
    ensures
        modify_outcome(contents@, name@, Option::Some(command@), r),
{
    helper_modify_alias(contents, name, Some(command))
}

// ---------------------------------------------------------------------------
// Running one operation
// ---------------------------------------------------------------------------

/// The report prints `out`, touches nothing, and succeeds.
pub open spec fn show_report(r: OpReport, out: Seq<Seq<char>>) -> bool {
    &&& r.output.deep_view() == out
    &&& r.file is Unchanged
    &&& r.warning is None
    &&& r.status == Result::<(), AliasError>::Ok(())
}

/// The report prints nothing, touches nothing, and fails with `e`.
pub open spec fn failed_report(r: OpReport, e: AliasError) -> bool {
    &&& r.output.deep_view() == Seq::<Seq<char>>::empty()
    &&& r.file is Unchanged
    &&& r.warning is None
    &&& r.status == Result::<(), AliasError>::Err(e)
}

/// Everything `run` guarantees, operation by operation. A name or pattern
/// that does not compile as a regular expression fails with `InvalidInput`
/// before the store is touched; a command with a single quote is rejected
/// before the name's pattern matters at all.
pub open spec fn run_outcome(c: Seq<char>, args: Args, r: OpReport) -> bool {
    match args.operation {
        Operation::Sh { name } => {
            if !args.git && !(regex_valid(alias_list_pattern()) && regex_valid(
                func_open_pattern(),
            )) {
                failed_report(r, AliasError::InvalidInput)
            } else {
                match name {
                    Option::None => show_report(
                        r,
                        aliases_of(c, args.git) + if args.git {
                            Seq::<Seq<char>>::empty()
                        } else {
                            func_definitions(funcs_of(c))
                        },
                    ),
                    Option::Some(n) => exists|m1: Seq<char>, m2: Seq<char>|
                        {
                            &&& styled_marker(m1, n@)
                            &&& styled_marker(m2, n@)
                            &&& {
                                let shown_a = shown_aliases(
                                    aliases_of(c, args.git),
                                    n@,
                                    m1,
                                    args.content,
                                );
                                if shown_a.len() == 0 {
                                    failed_report(r, AliasError::NotFound)
                                } else {
                                    show_report(
                                        r,
                                        shown_a + if args.git {
                                            Seq::<Seq<char>>::empty()
                                        } else {
                                            shown_funcs(funcs_of(c), n@, m2, args.content)
                                        },
                                    )
                                }
                            }
                        },
                }
            }
        },
        Operation::Add { name, command } => {
            if has_substring(command@, "'"@) {
                add_outcome(c, name@, command@, r)
            } else if !regex_valid(add_check_pattern(name@)) {
                failed_report(r, AliasError::InvalidInput)
            } else {
                add_outcome(c, name@, command@, r)
            }
        },
        Operation::Del { name } => {
            if !regex_valid(modify_pattern(name@)) {
                failed_report(r, AliasError::InvalidInput)
            } else {
                modify_outcome(c, name@, Option::None, r)
            }
        },
        Operation::Mod { name, command } => {
            if has_substring(command@, "'"@) {
                modify_outcome(c, name@, Option::Some(command@), r)
            } else if !regex_valid(modify_pattern(name@)) {
                failed_report(r, AliasError::InvalidInput)
            } else {
                modify_outcome(c, name@, Option::Some(command@), r)
            }
        },
    }
}

/// A report that prints nothing, touches nothing, and fails with `e`.
fn fail_with(e: AliasError) -> (r: OpReport)
    ensures
        failed_report(r, e),
{
    let output: Vec<String> = Vec::new();
    proof {
        assert(output.deep_view() =~~= Seq::<Seq<char>>::empty());
    }
    OpReport { output, file: FileUpdate::Unchanged, warning: None, status: Err(e) }
}

/// Runs one operation against the file's contents and reports what it
/// printed, what should happen to the file, and how it ended.
pub fn run(contents: &str, args: Args) -> (r: OpReport)
    ensures
        run_outcome(contents@, args, r),
{
    let git = args.git;
    let content_mode = args.content;
    match args.operation {
        Operation::Sh { name } => {
            if !git {
                let ok_alias = crate::pattern::regex_compiles("^\\s*alias.*=.*\\s*");
                let ok_func = crate::pattern::regex_compiles(
                    "^\\s*[a-zA-Z_][a-zA-Z0-9_]*\\s*\\(\\s*\\)\\s*\\{",
                );
                if !ok_alias || !ok_func {
                    return fail_with(AliasError::InvalidInput);
                }
            }
            let shown = show_aliases(contents, &name, content_mode, git);
            let ghost shown_snapshot = shown;
            match shown {
                Err(e) => {
                    let r = fail_with(e);
                    proof {
                        if let Option::Some(n) = name {
                            let m1 = choose|m: Seq<char>|
                                styled_marker(m, n@) && ({
                                    let sa = shown_aliases(
                                        aliases_of(contents@, git),
                                        n@,
                                        m,
                                        content_mode,
                                    );
                                    if sa.len() == 0 {
                                        shown_snapshot matches Err(e2) && e2 == AliasError::NotFound
                                    } else {
                                        shown_snapshot matches Ok(v) && v.deep_view() == sa
                                    }
                                });
                            assert(styled_marker(m1, n@) && styled_marker(m1, n@) && ({
                                let sa = shown_aliases(aliases_of(contents@, git), n@, m1, content_mode);
                                if sa.len() == 0 {
                                    failed_report(r, AliasError::NotFound)
                                } else {
                                    show_report(
                                        r,
                                        sa + if git {
                                            Seq::<Seq<char>>::empty()
                                        } else {
                                            shown_funcs(funcs_of(contents@), n@, m1, content_mode)
                                        },
                                    )
                                }
                            }));
                        }
                    }
                    r
                },
                Ok(mut lines) => {
                    let ghost aliases_part = lines.deep_view();
                    let ghost mut funcs_part = Seq::<Seq<char>>::empty();
                    if !git {
                        let mut fl = crate::funcs::show_funcs(contents, &name, content_mode);
                        proof {
                            funcs_part = fl.deep_view();
                        }
                        lines.append(&mut fl);
                        proof {
                            assert(lines.deep_view() =~~= aliases_part + funcs_part);
                        }
                    } else {
                        proof {
                            assert(lines.deep_view() =~~= aliases_part + funcs_part);
                        }
                    }
                    let r = OpReport {
                        output: lines,
                        file: FileUpdate::Unchanged,
                        warning: None,
                        status: Ok(()),
                    };
                    proof {
                        if let Option::Some(n) = name {
                            let m1 = choose|m: Seq<char>|
                                styled_marker(m, n@) && ({
                                    let sa = shown_aliases(
                                        aliases_of(contents@, git),
                                        n@,
                                        m,
                                        content_mode,
                                    );
                                    if sa.len() == 0 {
                                        shown_snapshot matches Err(e2) && e2 == AliasError::NotFound
                                    } else {
                                        shown_snapshot matches Ok(v) && v.deep_view() == sa
                                    }
                                });
                            let m2 = if git {
                                m1
                            } else {
                                choose|m: Seq<char>|
                                    styled_marker(m, n@) && funcs_part == shown_funcs(
                                        funcs_of(contents@),
                                        n@,
                                        m,
                                        content_mode,
                                    )
                            };
                            assert(styled_marker(m1, n@) && styled_marker(m2, n@) && ({
                                let sa = shown_aliases(aliases_of(contents@, git), n@, m1, content_mode);
                                if sa.len() == 0 {
                                    failed_report(r, AliasError::NotFound)
                                } else {
                                    show_report(
                                        r,
                                        sa + if git {
                                            Seq::<Seq<char>>::empty()
                                        } else {
                                            shown_funcs(funcs_of(contents@), n@, m2, content_mode)
                                        },
                                    )
                                }
                            }));
                        }
                    }
                    r
                },
            }
        },
        Operation::Add { name, command } => {
            if !contains_str(command.as_str(), "'") {
                let pat = build_add_check_pattern(name.as_str());
                if !crate::pattern::regex_compiles(pat.as_str()) {
                    return fail_with(AliasError::InvalidInput);
                }
            }
            add_alias(contents, name.as_str(), command.as_str())
        },
        Operation::Del { name } => {
            let pat = build_modify_pattern(name.as_str());
            if !crate::pattern::regex_compiles(pat.as_str()) {
                return fail_with(AliasError::InvalidInput);
            }
            remove_alias(contents, name.as_str())
        },
        Operation::Mod { name, command } => {
            if !contains_str(command.as_str(), "'") {
                let pat = build_modify_pattern(name.as_str());
                if !crate::pattern::regex_compiles(pat.as_str()) {
                    return fail_with(AliasError::InvalidInput);
                }
            }
            edit_alias(contents, name.as_str(), command.as_str())
        },
    }
}

} // verus!
