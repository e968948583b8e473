use ralias::funcs::{search_bash_functions, select_funcs};
use ralias::style::highlight_with_marker;

#[test]
fn test_scan_single_function() {
    let contents = "greet() {\n  echo hi\n}\nalias g='git'\n";
    let funcs = search_bash_functions(contents);
    assert_eq!(1, funcs.len());
    assert_eq!("greet", funcs[0].name);
    assert_eq!("greet() {\n  echo hi\n}", funcs[0].definition);
}

#[test]
fn test_scan_stops_at_first_closing_brace() {
    let contents = "f() {\n  if x; then\n  fi\n}\ng () {\n  echo\n}\n";
    let funcs = search_bash_functions(contents);
    assert_eq!(2, funcs.len());
    assert_eq!("f", funcs[0].name);
    assert_eq!("f() {\n  if x; then\n  fi\n}", funcs[0].definition);
    assert_eq!("g", funcs[1].name);
    assert_eq!("g () {\n  echo\n}", funcs[1].definition);
}

#[test]
fn test_unclosed_function_is_dropped() {
    let contents = "f() {\n  echo hi\n";
    let funcs = search_bash_functions(contents);
    assert_eq!(0, funcs.len());
}

#[test]
fn test_select_funcs_by_name_and_content() {
    let contents = "greet() {\n  echo hi\n}\nother() {\n  greet\n}\n";
    let funcs = search_bash_functions(contents);
    assert_eq!(2, funcs.len());

    // name mode: only `greet` is named "greet"; highlighting stops at the brace
    let by_name = select_funcs(&funcs, "greet", "<greet>", false);
    assert_eq!(vec!["<greet>() {\n  echo hi\n}".to_string()], by_name);

    // content mode: both bodies hold the word
    let by_content = select_funcs(&funcs, "greet", "<greet>", true);
    assert_eq!(
        vec![
            "<greet>() {\n  echo hi\n}".to_string(),
            "other() {\n  <greet>\n}".to_string(),
        ],
        by_content
    );
}

#[test]
fn test_highlight_with_marker_separator() {
    // no separator in the text: unchanged
    assert_eq!("abc", highlight_with_marker("abc", "b", "<b>", Some('=')));
    // separator present: only the part before it is highlighted
    assert_eq!("a<b>=cb", highlight_with_marker("ab=cb", "b", "<b>", Some('=')));
    // no separator given: the whole text is highlighted
    assert_eq!("a<b>=c<b>", highlight_with_marker("ab=cb", "b", "<b>", None));
    // an empty pattern is interleaved everywhere, as `str::replace` does it
    assert_eq!("XaXbX", highlight_with_marker("ab", "", "X", None));
}
