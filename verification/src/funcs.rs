//! Shell functions: read-only scanning of `name() {` blocks in the
//! configuration file, and their highlighted display.

use vstd::prelude::*;
use vstd::string::*;
use crate::pattern::{regex_is_match, regex_new, regex_pattern, regex_valid, regex_matches};
use crate::style::{highlight_spec, highlight_with_marker, red_bold, styled_marker};
use crate::text::{
    has_substring, index_of_first, join_nl, lemma_index_of_first, lines_of, split_lines, trim_spec,
    trim_str, contains_str, find_char,
};

verus! {

/// The pattern that opens a shell function: optional whitespace, an
/// identifier, `()` with optional whitespace, and an opening brace.
pub open spec fn func_open_pattern() -> Seq<char> {
    "^\\s*[a-zA-Z_][a-zA-Z0-9_]*\\s*\\(\\s*\\)\\s*\\{"@
}

/// A shell function found in the file.
#[derive(Debug)]
pub struct Func {
    /// The identifier before the parentheses.
    pub name: String,
    /// The full definition block, lines joined with newlines.
    pub definition: String,
}

impl View for Func {
    type V = (Seq<char>, Seq<char>);

    open spec fn view(&self) -> (Seq<char>, Seq<char>) {
        (self.name@, self.definition@)
    }
}

impl DeepView for Func {
    type V = (Seq<char>, Seq<char>);

    open spec fn deep_view(&self) -> (Seq<char>, Seq<char>) {
        self@
    }
}

/// The name of a function opened by this line: what stands before the first
/// parenthesis, trimmed of whitespace.
pub open spec fn func_name_of(l: Seq<char>) -> Seq<char> {
    trim_spec(l.subrange(0, index_of_first(l, '(') as int))
}

/// The functions the scan yields from the remaining lines, given whether it
/// stands inside a block, the name seen on the last opening line, and the
/// lines gathered so far. A line matching the opening pattern starts a new
/// block (without dropping gathered lines); inside a block every line is
/// gathered, and the first one holding a closing brace ends the block, which
/// is emitted with its lines joined by newlines. An unclosed block at the end
/// of the file is dropped.
pub open spec fn scan_funcs(
    ls: Seq<Seq<char>>,
    in_block: bool,
    nm: Seq<char>,
    acc: Seq<Seq<char>>,
) -> Seq<(Seq<char>, Seq<char>)>
    decreases ls.len(),
{
    if ls.len() == 0 {
        Seq::<(Seq<char>, Seq<char>)>::empty()
    } else {
        let l = ls[0];
        let rest = ls.drop_first();
        if regex_matches(func_open_pattern(), l) {
            scan_funcs(rest, true, func_name_of(l), acc.push(l))
        } else if in_block {
            let acc2 = acc.push(l);
            if has_substring(l, "}"@) {
                seq![(nm, join_nl(acc2))] + scan_funcs(
                    rest,
                    false,
                    nm,
                    Seq::<Seq<char>>::empty(),
                )
            } else {
                scan_funcs(rest, true, nm, acc2)
            }
        } else {
            scan_funcs(rest, false, nm, acc)
        }
    }
}

/// The shell functions of the file, in file order.
pub open spec fn funcs_of(c: Seq<char>) -> Seq<(Seq<char>, Seq<char>)> {
    scan_funcs(lines_of(c), false, Seq::<char>::empty(), Seq::<Seq<char>>::empty())
}

/// Every shell function of the file, in file order.
pub fn search_bash_functions(contents: &str) -> (r: Vec<Func>)
    requires
        regex_valid(func_open_pattern()),
    ensures
        r.deep_view() == funcs_of(contents@),
{
    let re_opt = regex_new("^\\s*[a-zA-Z_][a-zA-Z0-9_]*\\s*\\(\\s*\\)\\s*\\{");
    let re = match re_opt {
        Some(re) => re,
        None => {
            proof {
                assert(false);
            }
            return Vec::new();
        },
    };
    let ls = split_lines(contents);
    let ghost lsv = lines_of(contents@);
    let mut r: Vec<Func> = Vec::new();
    let mut in_block = false;
    let mut nm = String::new();
    let mut def = String::new();
    let mut def_lines: usize = 0;
    let ghost mut acc: Seq<Seq<char>> = Seq::<Seq<char>>::empty();
    let mut i: usize = 0;
    let n = ls.len();
    proof {
        assert(lsv.skip(0) =~~= lsv);
        assert(r.deep_view() =~~= Seq::<(Seq<char>, Seq<char>)>::empty());
    }
    while i < n
        invariant
            n == ls.len(),
            i <= n,
            ls.deep_view() =~~= lsv,
            regex_pattern(re) == func_open_pattern(),
            regex_valid(func_open_pattern()),
            def_lines == acc.len(),
            def_lines <= i,
            def@ == join_nl(acc),
            funcs_of(contents@) =~~= r.deep_view() + scan_funcs(
                lsv.skip(i as int),
                in_block,
                nm@,
                acc,
            ),
        decreases n - i,
    {
        let line = ls[i];
        proof {
            let tail = lsv.skip(i as int);
            assert(tail[0] =~= lsv[i as int]);
            assert(tail.drop_first() =~~= lsv.skip(i + 1));
            reveal_strlit("\n");
            assert("\n"@ =~= seq!['\n']);
        }
        if regex_is_match(&re, line) {
            proof {
                lemma_index_of_first(line@, '(');
            }
            let cut = find_char(line, '(');
            let raw_name = line.substring_char(0, cut);
            nm = String::from_str(trim_str(raw_name));
            if def_lines == 0 {
                def = String::from_str(line);
            } else {
                def.append("\n");
                def.append(line);
            }
            def_lines += 1;
            proof {
                let acc2 = acc.push(line@);
                assert(acc2.drop_last() =~~= acc);
                assert(acc2.last() == line@);
                assert(join_nl(acc2) == def@);
                acc = acc2;
            }
            in_block = true;
        } else if in_block {
            if def_lines == 0 {
                def = String::from_str(line);
            } else {
                def.append("\n");
                def.append(line);
            }
            def_lines += 1;
            proof {
                let acc2 = acc.push(line@);
                assert(acc2.drop_last() =~~= acc);
                assert(acc2.last() == line@);
                assert(join_nl(acc2) == def@);
                acc = acc2;
            }
            if contains_str(line, "}") {
                let finished = Func { name: nm.clone(), definition: def };
                r.push(finished);
                proof {
                    assert(r.deep_view() =~~= r.deep_view().drop_last().push(
                        (nm@, join_nl(acc)),
                    ));
                }
                def = String::new();
                def_lines = 0;
                proof {
                    acc = Seq::<Seq<char>>::empty();
                }
                in_block = false;
            }
        }
        i += 1;
    }
    proof {
        assert(lsv.skip(n as int) =~~= Seq::<Seq<char>>::empty());
        assert(r.deep_view() + Seq::<(Seq<char>, Seq<char>)>::empty() =~~= r.deep_view());
    }
    r
}

/// Whether a search for `name` selects this function: against the whole
/// definition in content mode, against the function's name otherwise.
pub open spec fn func_selected(f: (Seq<char>, Seq<char>), name: Seq<char>, content_mode: bool) -> bool {
    if content_mode {
        has_substring(f.1, name)
    } else {
        has_substring(f.0, name)
    }
}

/// The definitions of the selected functions, each highlighted: across the
/// whole definition in content mode, before the opening brace otherwise.
pub open spec fn shown_funcs(
    fs: Seq<(Seq<char>, Seq<char>)>,
    name: Seq<char>,
    marker: Seq<char>,
    content_mode: bool,
) -> Seq<Seq<char>>
    decreases fs.len(),
{
    if fs.len() == 0 {
        Seq::<Seq<char>>::empty()
    } else {
        let rest = shown_funcs(fs.drop_first(), name, marker, content_mode);
        if func_selected(fs[0], name, content_mode) {
            seq![
                highlight_spec(
                    fs[0].1,
                    name,
                    marker,
                    if content_mode {
                        Option::None
                    } else {
                        Option::Some('{')
                    },
                ),
            ] + rest
        } else {
            rest
        }
    }
}

/// The definitions of every function, in file order.
pub open spec fn func_definitions(fs: Seq<(Seq<char>, Seq<char>)>) -> Seq<Seq<char>>
    decreases fs.len(),
{
    if fs.len() == 0 {
        Seq::<Seq<char>>::empty()
    } else {
        seq![fs[0].1] + func_definitions(fs.drop_first())
    }
}

/// The function definitions that a search for `name` selects, highlighted
/// with the given marker text, in their original order.
pub fn select_funcs(funcs: &Vec<Func>, name: &str, marker: &str, search_content: bool) -> (r: Vec<
    String,
>)
    ensures
        r.deep_view() == shown_funcs(funcs.deep_view(), name@, marker@, search_content),
{
    let mut r: Vec<String> = Vec::new();
    let mut i: usize = 0;
    let n = funcs.len();
    proof {
        assert(funcs.deep_view().skip(0) =~~= funcs.deep_view());
    }
    while i < n
        invariant
            n == funcs.len(),
            i <= n,
            shown_funcs(funcs.deep_view(), name@, marker@, search_content) =~~= r.deep_view()
                + shown_funcs(funcs.deep_view().skip(i as int), name@, marker@, search_content),
        decreases n - i,
    {
        let f = &funcs[i];
        proof {
            let tail = funcs.deep_view().skip(i as int);
            assert(tail[0] == funcs.deep_view()[i as int]);
            assert(tail.drop_first() =~~= funcs.deep_view().skip(i + 1));
        }
        if search_content {
            if contains_str(f.definition.as_str(), name) {
                let h = highlight_with_marker(f.definition.as_str(), name, marker, None);
                r.push(h);
                proof {
                    assert(r.deep_view() =~~= r.deep_view().drop_last().push(
                        r.deep_view().last(),
                    ));
                }
            }
        } else {
            if contains_str(f.name.as_str(), name) {
                let h = highlight_with_marker(f.definition.as_str(), name, marker, Some('{'));
                r.push(h);
                proof {
                    assert(r.deep_view() =~~= r.deep_view().drop_last().push(
                        r.deep_view().last(),
                    ));
                }
            }
        }
        i += 1;
    }
    proof {
        assert(funcs.deep_view().skip(n as int) =~~= Seq::<(Seq<char>, Seq<char>)>::empty());
    }
    r
}

/// The lines the show operation prints for shell functions: every definition
/// for an empty query, the selected ones highlighted otherwise. A search that
/// selects nothing prints nothing and is no failure.
pub fn show_funcs(contents: &str, name: &Option<String>, search_content: bool) -> (r: Vec<String>)
    requires
        regex_valid(func_open_pattern()),
    ensures
        match name {
            Option::None => r.deep_view() == func_definitions(funcs_of(contents@)),
            Option::Some(nm) => exists|m: Seq<char>|
                styled_marker(m, nm@) && r.deep_view() == shown_funcs(
                    funcs_of(contents@),
                    nm@,
                    m,
                    search_content,
                ),
        },
{
    let funcs = search_bash_functions(contents);
    match name {
        Some(nm) => {
            let marker = red_bold(nm.as_str());
            let selected = select_funcs(&funcs, nm.as_str(), marker.as_str(), search_content);
            proof {
                assert(styled_marker(marker@, nm@) && selected.deep_view() == shown_funcs(
                    funcs_of(contents@),
                    nm@,
                    marker@,
                    search_content,
                ));
            }
            selected
        },
        None => {
            let mut r: Vec<String> = Vec::new();
            let mut i: usize = 0;
            let n = funcs.len();
            proof {
                assert(funcs.deep_view().skip(0) =~~= funcs.deep_view());
            }
            while i < n
                invariant
                    n == funcs.len(),
                    i <= n,
                    func_definitions(funcs.deep_view()) =~~= r.deep_view() + func_definitions(
                        funcs.deep_view().skip(i as int),
                    ),
                decreases n - i,
            {
                proof {
                    let tail = funcs.deep_view().skip(i as int);
                    assert(tail[0] == funcs.deep_view()[i as int]);
                    assert(tail.drop_first() =~~= funcs.deep_view().skip(i + 1));
                }
                let d = funcs[i].definition.clone();
                r.push(d);
                proof {
                    assert(r.deep_view() =~~= r.deep_view().drop_last().push(
                        funcs.deep_view()[i as int].1,
                    ));
                }
                i += 1;
            }
            proof {
                assert(funcs.deep_view().skip(n as int) =~~= Seq::<(Seq<char>, Seq<char>)>::empty());
            }
            r
        },
    }
}

} // verus!
