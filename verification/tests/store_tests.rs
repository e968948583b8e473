use ralias::{
    add_alias, edit_alias, get_aliases, remove_alias, run, show_aliases, AliasError, Args,
    FileUpdate, OpReport, Operation,
};
use ralias::store::select_aliases;

fn apply(contents: &str, update: &FileUpdate) -> String {
    match update {
        FileUpdate::Unchanged => contents.to_string(),
        FileUpdate::Append(s) => format!("{}{}", contents, s),
        FileUpdate::Rewrite(s) => s.clone(),
    }
}

#[test]
fn test_add_alias() {
    let contents = "";
    let name = "g";
    let command = "git";
    let expected = "alias g='git'\n";

    let report = add_alias(contents, name, command);

    assert!(report.status.is_ok());
    assert_eq!(expected, apply(contents, &report.file));
    assert_eq!(vec!["New alias added: alias g='git'".to_string()], report.output);
}

#[test]
fn test_show_alias() {
    let contents = "alias g='git'\n";
    assert!(show_aliases(contents, &None, false, false).is_ok());
    assert!(show_aliases(contents, &Some(String::from("g")), false, false).is_ok());
    assert!(show_aliases(contents, &Some(String::from("non_existent")), false, false).is_err());
}

#[test]
fn test_remove_alias() {
    let contents = "alias g='git'\n";
    assert!(show_aliases(contents, &Some(String::from("g")), false, false).is_ok());
    let report = remove_alias(contents, "g");
    assert!(report.status.is_ok());
    let rewritten = apply(contents, &report.file);
    assert!(show_aliases(&rewritten, &Some(String::from("g")), false, false).is_err());
}

#[test]
fn test_remove_leaves_file_empty() {
    let report = remove_alias("alias g='git'\n", "g");
    assert!(report.status.is_ok());
    assert_eq!(FileUpdate::Rewrite(String::new()), report.file);
    let shown = show_aliases("", &Some(String::from("g")), false, false);
    assert_eq!(Err(AliasError::NotFound), shown);
}

#[test]
fn test_add_twice_fails_and_keeps_file() {
    let first = add_alias("", "g", "git");
    assert!(first.status.is_ok());
    let contents = apply("", &first.file);

    let second = add_alias(&contents, "g", "ls");
    assert_eq!(Err(AliasError::AlreadyExists), second.status);
    assert_eq!(FileUpdate::Unchanged, second.file);
    assert_eq!(vec!["Alias already exists".to_string()], second.output);
}

#[test]
fn test_add_quoted_command_rejected() {
    let contents = "alias g='git'\n";
    let report = add_alias(contents, "h", "echo 'hi'");
    assert_eq!(Err(AliasError::InvalidInput), report.status);
    assert_eq!(FileUpdate::Unchanged, report.file);
    assert_eq!(
        vec!["Command cannot contain single quotes".to_string()],
        report.output
    );
}

#[test]
fn test_edit_quoted_command_rejected() {
    let contents = "alias g='git'\n";
    let report = edit_alias(contents, "g", "echo 'hi'");
    assert_eq!(Err(AliasError::InvalidInput), report.status);
    assert_eq!(FileUpdate::Unchanged, report.file);
    assert_eq!(
        vec!["Command cannot contain single quotes".to_string()],
        report.output
    );
}

#[test]
fn test_run_mod_quoted_command_rejected() {
    let args = Args {
        content: false,
        git: false,
        operation: Operation::Mod {
            name: String::from("g"),
            command: String::from("it's"),
        },
    };
    let report = run("alias g='git'\n", args);
    assert_eq!(Err(AliasError::InvalidInput), report.status);
    assert_eq!(FileUpdate::Unchanged, report.file);
}

#[test]
fn test_edit_preserves_other_lines() {
    let contents = "# mine\nalias g='git'\nalias h='htop'\n";
    let report = edit_alias(contents, "g", "ls");
    assert!(report.status.is_ok());
    assert_eq!(
        FileUpdate::Rewrite("# mine\nalias g='ls'\nalias h='htop'\n".to_string()),
        report.file
    );
    assert_eq!(
        vec![
            "Editing alias: alias g='git'".to_string(),
            "# mine\nalias g='ls'\nalias h='htop'\n".to_string(),
        ],
        report.output
    );
}

#[test]
fn test_remove_not_found_still_rewrites() {
    let report = remove_alias("alias g='git'", "zz");
    assert_eq!(Err(AliasError::NotFound), report.status);
    // the rewrite normalizes the missing final newline, as a full
    // read-then-rewrite pass does
    assert_eq!(FileUpdate::Rewrite("alias g='git'\n".to_string()), report.file);
    assert_eq!(
        vec![
            "alias g='git'\n".to_string(),
            "Alias 'zz' not found".to_string(),
        ],
        report.output
    );
}

#[test]
fn test_remove_warns_on_multiple_matches() {
    let contents = "alias g='git'\nalias g='gcc'\n";
    let report = remove_alias(contents, "g");
    assert!(report.status.is_ok());
    assert_eq!(
        Some("Found more than one alias with name 'g'".to_string()),
        report.warning
    );
    assert_eq!(FileUpdate::Rewrite(String::new()), report.file);
}

#[test]
fn test_find_name_and_content_modes_match_both() {
    let contents = "alias g='git'\nalias gp='git push'\n";
    let aliases = get_aliases(contents, false);
    assert_eq!(
        vec!["alias g='git'".to_string(), "alias gp='git push'".to_string()],
        aliases
    );

    // name mode: "g" occurs in both names, highlighted before the equals sign
    let by_name = select_aliases(&aliases, "g", "<g>", false);
    assert_eq!(
        vec![
            "alias <g>='git'".to_string(),
            "alias <g>p='git push'".to_string(),
        ],
        by_name
    );

    // content mode: "g" occurs in both whole lines, highlighted throughout
    let by_content = select_aliases(&aliases, "g", "<g>", true);
    assert_eq!(
        vec![
            "alias <g>='<g>it'".to_string(),
            "alias <g>p='<g>it push'".to_string(),
        ],
        by_content
    );
}

#[test]
fn test_get_aliases_git_section() {
    let contents = "[core]\nauto = 1\n[alias]\nco = checkout\nst = status\n[push]\nx = y\n";
    let aliases = get_aliases(contents, true);
    assert_eq!(vec!["co = checkout".to_string(), "st = status".to_string()], aliases);
}

#[test]
fn test_run_del() {
    let args = Args {
        content: false,
        git: false,
        operation: Operation::Del { name: String::from("g") },
    };
    let report: OpReport = run("alias g='git'\nalias h='htop'\n", args);
    assert!(report.status.is_ok());
    assert_eq!(
        FileUpdate::Rewrite("alias h='htop'\n".to_string()),
        report.file
    );
}

#[test]
fn test_run_add_bad_name_pattern_fails() {
    let args = Args {
        content: false,
        git: false,
        operation: Operation::Add {
            name: String::from("g("),
            command: String::from("git"),
        },
    };
    let report = run("", args);
    assert_eq!(Err(AliasError::InvalidInput), report.status);
    assert_eq!(FileUpdate::Unchanged, report.file);
    assert_eq!(Vec::<String>::new(), report.output);
}

#[test]
fn test_run_show_all_lists_aliases_and_functions() {
    let contents = "alias g='git'\ngreet() {\n  echo hi\n}\nalias h='htop'\n";
    let args = Args {
        content: false,
        git: false,
        operation: Operation::Sh { name: None },
    };
    let report = run(contents, args);
    assert!(report.status.is_ok());
    assert_eq!(FileUpdate::Unchanged, report.file);
    assert_eq!(
        vec![
            "alias g='git'".to_string(),
            "alias h='htop'".to_string(),
            "greet() {\n  echo hi\n}".to_string(),
        ],
        report.output
    );
}

#[test]
fn test_run_show_git_section() {
    let contents = "[alias]\nco = checkout\n[core]\nx = y\n";
    let args = Args {
        content: false,
        git: true,
        operation: Operation::Sh { name: None },
    };
    let report = run(contents, args);
    assert!(report.status.is_ok());
    assert_eq!(vec!["co = checkout".to_string()], report.output);
}

#[test]
fn test_run_show_not_found() {
    let args = Args {
        content: false,
        git: false,
        operation: Operation::Sh { name: Some(String::from("zz")) },
    };
    let report = run("alias g='git'\n", args);
    assert_eq!(Err(AliasError::NotFound), report.status);
    assert_eq!(Vec::<String>::new(), report.output);
    assert_eq!(FileUpdate::Unchanged, report.file);
}

#[test]
fn test_list_empty_file() {
    assert_eq!(Vec::<String>::new(), get_aliases("", false));
    assert_eq!(Vec::<String>::new(), get_aliases("", true));
}

#[test]
fn test_error_messages() {
    assert_eq!("Alias not found", AliasError::NotFound.message());
    assert_eq!("Alias already exists", AliasError::AlreadyExists.message());
    assert_eq!(
        "Command cannot contain single quotes",
        AliasError::InvalidInput.message()
    );
}
