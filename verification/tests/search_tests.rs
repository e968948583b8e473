use ralias::search;

#[test]
fn test_search() {
    let query = "duct";
    let contents = "\
Rust:
safe, fast, productive.
Pick three.";

    assert_eq!(vec!["safe, fast, productive."], search(query, contents));
}

#[test]
fn test_search_case_sensitive() {
    let query = "Rust";
    let contents = "\
Rust:
safe, fast, productive.
Trust me.";

    assert_eq!(vec!["Rust:"], search(query, contents));
}

#[test]
fn test_search_case_insensitive() {
    let query = "rUsT";
    let contents = "\
Rust:
safe, fast, productive.
Trust me.";

    assert_eq!(Vec::<&str>::new(), search(query, contents));
}

#[test]
fn test_search_multiple_results() {
    let query = "fast";
    let contents = "\
Rust:
safe, fast, productive.
C++:
fast, efficient, powerful.";

    assert_eq!(
        vec!["safe, fast, productive.", "fast, efficient, powerful."],
        search(query, contents)
    );
}

#[test]
fn test_search_no_results() {
    let query = "slow";
    let contents = "\
Rust:
safe, fast, productive.
Pick three.";

    assert_eq!(Vec::<&str>::new(), search(query, contents));
}

#[test]
fn test_search_full_regex() {
    let contents = "alias g='git'\n  alias h='htop'\nnot an alias\n";
    assert_eq!(
        vec!["alias g='git'", "  alias h='htop'"],
        search("^\\s*alias.*=.*\\s*", contents)
    );
}

#[test]
fn test_regex_compiles() {
    assert!(ralias::pattern::regex_compiles("^alias .*"));
    assert!(!ralias::pattern::regex_compiles("foo(bar"));
}
