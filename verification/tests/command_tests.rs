use git_todo::command::Command;

fn argv(parts: &[&str]) -> Vec<String> {
    parts.iter().map(|s| s.to_string()).collect()
}

fn parse(parts: &[&str]) -> Result<Command, git_todo::error::StoreError> {
    Command::parse_from_args("main".to_string(), &argv(parts))
}

#[test]
fn no_arguments_lists_current_branch() {
    match parse(&["prog"]) {
        Ok(Command::List(b, all)) => {
            assert_eq!(b, "main");
            assert!(!all);
        }
        _ => panic!("expected a single-branch listing"),
    }
}

#[test]
fn all_flags_list_every_branch() {
    for flag in ["-a", "--all", "--all-branches"] {
        match parse(&["prog", flag]) {
            Ok(Command::List(b, all)) => {
                assert_eq!(b, "main");
                assert!(all);
            }
            _ => panic!("expected an all-branches listing for {flag}"),
        }
    }
}

#[test]
fn help_flags_ask_for_usage() {
    for flag in ["-h", "--help"] {
        match parse(&["prog", flag]) {
            Ok(Command::Help) => {}
            _ => panic!("expected help for {flag}"),
        }
    }
}

#[test]
fn done_without_index_is_a_validation_fault() {
    assert!(parse(&["prog", "done"]).is_err());
    assert!(parse(&["prog", "-"]).is_err());
}

#[test]
fn done_with_ordinal_targets_current_branch() {
    match parse(&["prog", "done", "2"]) {
        Ok(Command::Done(b, k)) => {
            assert_eq!(b, "main");
            assert_eq!(k, 2);
        }
        _ => panic!("expected a done command"),
    }
    match parse(&["prog", "-", "3"]) {
        Ok(Command::Done(b, k)) => {
            assert_eq!(b, "main");
            assert_eq!(k, 3);
        }
        _ => panic!("expected a done command"),
    }
}

#[test]
fn done_with_branch_override() {
    match parse(&["prog", "done", "feature:1"]) {
        Ok(Command::Done(b, k)) => {
            assert_eq!(b, "feature");
            assert_eq!(k, 1);
        }
        _ => panic!("expected a done command with override"),
    }
}

#[test]
fn done_ignores_text_after_a_second_colon() {
    match parse(&["prog", "done", "x:1:9"]) {
        Ok(Command::Done(b, k)) => {
            assert_eq!(b, "x");
            assert_eq!(k, 1);
        }
        _ => panic!("expected a done command"),
    }
}

#[test]
fn done_with_signed_and_extreme_ordinals() {
    match parse(&["prog", "done", "+5"]) {
        Ok(Command::Done(_, k)) => assert_eq!(k, 5),
        _ => panic!("expected +5 to parse"),
    }
    match parse(&["prog", "done", "-5"]) {
        Ok(Command::Done(_, k)) => assert_eq!(k, -5),
        _ => panic!("expected -5 to parse"),
    }
    match parse(&["prog", "done", "2147483647"]) {
        Ok(Command::Done(_, k)) => assert_eq!(k, i32::MAX),
        _ => panic!("expected i32::MAX to parse"),
    }
    match parse(&["prog", "done", "-2147483648"]) {
        Ok(Command::Done(_, k)) => assert_eq!(k, i32::MIN),
        _ => panic!("expected i32::MIN to parse"),
    }
    assert!(parse(&["prog", "done", "2147483648"]).is_err());
    assert!(parse(&["prog", "done", "-2147483649"]).is_err());
}

#[test]
fn done_with_non_numeric_ordinal_is_a_validation_fault() {
    assert!(parse(&["prog", "done", "abc"]).is_err());
    assert!(parse(&["prog", "done", ""]).is_err());
    assert!(parse(&["prog", "done", "feature:"]).is_err());
    assert!(parse(&["prog", "done", "1 2"]).is_err());
    assert!(parse(&["prog", "done", "+"]).is_err());
}

#[test]
fn other_arguments_become_content_to_add() {
    match parse(&["prog", "buy", "some", "milk"]) {
        Ok(Command::Todo(b, content)) => {
            assert_eq!(b, "main");
            assert_eq!(content, "buy some milk");
        }
        _ => panic!("expected an add command"),
    }
}

#[test]
fn single_word_content_is_trimmed() {
    match parse(&["prog", "  note  "]) {
        Ok(Command::Todo(_, content)) => assert_eq!(content, "note"),
        _ => panic!("expected an add command"),
    }
}

#[test]
fn done_like_words_beyond_three_arguments_are_content() {
    match parse(&["prog", "done", "1", "2"]) {
        Ok(Command::Todo(_, content)) => assert_eq!(content, "done 1 2"),
        _ => panic!("expected an add command"),
    }
}
