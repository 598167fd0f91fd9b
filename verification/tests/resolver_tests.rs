use git_todo::command::Command;
use git_todo::dao::DatabaseAccess;
use git_todo::resolver::{execute_command, Line, Output};

fn fresh_store() -> DatabaseAccess {
    let mut db = DatabaseAccess::create_database_access(":memory:").expect("open in-memory store");
    db.create_table_if_not_exists().expect("create table");
    db
}

fn add(db: &mut DatabaseAccess, branch: &str, content: &str) {
    assert_eq!(db.create_todo(branch, content).unwrap(), 1);
}

#[test]
fn help_touches_nothing() {
    let mut db = fresh_store();
    add(&mut db, "main", "kept");
    match execute_command(&mut db, Command::Help) {
        Ok(Output::Help) => {}
        _ => panic!("expected help output"),
    }
    assert_eq!(db.list_todos_on_branch("main").unwrap().len(), 1);
}

#[test]
fn branch_listing_numbers_from_one() {
    let mut db = fresh_store();
    add(&mut db, "main", "first");
    add(&mut db, "main", "second");
    let out = execute_command(&mut db, Command::List("main".to_string(), false)).unwrap();
    match out {
        Output::Listing(lines) => {
            assert_eq!(lines.len(), 2);
            match &lines[0] {
                Line::Item(k, c) => {
                    assert_eq!(*k, 1);
                    assert_eq!(c, "first");
                }
                _ => panic!("expected an item line"),
            }
            match &lines[1] {
                Line::Item(k, c) => {
                    assert_eq!(*k, 2);
                    assert_eq!(c, "second");
                }
                _ => panic!("expected an item line"),
            }
        }
        _ => panic!("expected a listing"),
    }
}

#[test]
fn all_branches_listing_groups_and_restarts_ordinals() {
    let mut db = fresh_store();
    add(&mut db, "main", "m1");
    add(&mut db, "alpha", "a1");
    add(&mut db, "main", "m2");
    let out = execute_command(&mut db, Command::List("main".to_string(), true)).unwrap();
    match out {
        Output::Listing(lines) => {
            assert_eq!(lines.len(), 5);
            match &lines[0] {
                Line::Header(b, current) => {
                    assert_eq!(b, "alpha");
                    assert!(!current);
                }
                _ => panic!("expected the alpha heading first"),
            }
            match &lines[1] {
                Line::Item(k, c) => {
                    assert_eq!((*k, c.as_str()), (1, "a1"));
                }
                _ => panic!("expected a1"),
            }
            match &lines[2] {
                Line::Header(b, current) => {
                    assert_eq!(b, "main");
                    assert!(*current);
                }
                _ => panic!("expected the main heading"),
            }
            match &lines[3] {
                Line::Item(k, c) => {
                    assert_eq!((*k, c.as_str()), (1, "m1"));
                }
                _ => panic!("expected m1 at ordinal 1"),
            }
            match &lines[4] {
                Line::Item(k, c) => {
                    assert_eq!((*k, c.as_str()), (2, "m2"));
                }
                _ => panic!("expected m2 at ordinal 2"),
            }
        }
        _ => panic!("expected a listing"),
    }
}

#[test]
fn empty_store_lists_nothing() {
    let mut db = fresh_store();
    match execute_command(&mut db, Command::List("main".to_string(), true)).unwrap() {
        Output::Listing(lines) => assert!(lines.is_empty()),
        _ => panic!("expected a listing"),
    }
}

#[test]
fn add_reports_one_row_written() {
    let mut db = fresh_store();
    let cmd = Command::Todo("main".to_string(), "note".to_string());
    match execute_command(&mut db, cmd) {
        Ok(Output::Added(n)) => assert_eq!(n, 1),
        _ => panic!("expected an add outcome"),
    }
}

#[test]
fn add_with_blank_content_is_rejected_before_the_store() {
    let mut db = fresh_store();
    let cmd = Command::Todo("main".to_string(), "   ".to_string());
    assert!(execute_command(&mut db, cmd).is_err());
    let cmd = Command::Todo("main".to_string(), "".to_string());
    assert!(execute_command(&mut db, cmd).is_err());
    assert!(db.list_todos_on_branch("main").unwrap().is_empty());
    assert!(db.list_all_todos().unwrap().is_empty());
}

#[test]
fn add_with_blank_branch_is_rejected_before_the_store() {
    let mut db = fresh_store();
    let cmd = Command::Todo(" ".to_string(), "note".to_string());
    assert!(execute_command(&mut db, cmd).is_err());
    assert!(db.list_all_todos().unwrap().is_empty());
}

#[test]
fn validation_fault_carries_a_message() {
    let mut db = fresh_store();
    match execute_command(&mut db, Command::Todo("main".to_string(), " ".to_string())) {
        Err(e) => assert!(!e.message().is_empty()),
        Ok(_) => panic!("expected a validation fault"),
    }
}

#[test]
fn storage_fault_is_reported_with_the_engine_text() {
    match DatabaseAccess::create_database_access("/nonexistent-dir/todo.sqlite") {
        Err(e) => assert!(!e.message().is_empty()),
        Ok(_) => panic!("expected the open to fail"),
    }
}

#[test]
fn done_deletes_by_ordinal_and_reports() {
    let mut db = fresh_store();
    add(&mut db, "main", "x");
    add(&mut db, "main", "y");
    match execute_command(&mut db, Command::Done("main".to_string(), 1)) {
        Ok(Output::Done(n)) => assert_eq!(n, 1),
        _ => panic!("expected a done outcome"),
    }
    let rows = db.list_todos_on_branch("main").unwrap();
    assert_eq!(rows.len(), 1);
    assert_eq!(rows[0].content, "y");
}

#[test]
fn done_out_of_range_reports_a_no_op() {
    let mut db = fresh_store();
    add(&mut db, "main", "x");
    match execute_command(&mut db, Command::Done("main".to_string(), 9)) {
        Ok(Output::Done(n)) => assert_eq!(n, 0),
        _ => panic!("expected a done outcome"),
    }
    assert_eq!(db.list_todos_on_branch("main").unwrap().len(), 1);
}
