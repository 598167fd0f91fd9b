use git_todo::dao::DatabaseAccess;

fn fresh_store() -> DatabaseAccess {
    let mut db = DatabaseAccess::create_database_access(":memory:").expect("open in-memory store");
    db.create_table_if_not_exists().expect("create table");
    db
}

fn contents_on(db: &DatabaseAccess, branch: &str) -> Vec<String> {
    db.list_todos_on_branch(branch)
        .expect("list branch")
        .into_iter()
        .map(|t| t.content)
        .collect()
}

#[test]
fn adds_list_in_call_order() {
    let mut db = fresh_store();
    assert_eq!(db.create_todo("main", "first").unwrap(), 1);
    assert_eq!(db.create_todo("main", "second").unwrap(), 1);
    assert_eq!(db.create_todo("main", "third").unwrap(), 1);
    assert_eq!(contents_on(&db, "main"), vec!["first", "second", "third"]);
}

#[test]
fn duplicate_content_is_permitted() {
    let mut db = fresh_store();
    assert_eq!(db.create_todo("main", "same").unwrap(), 1);
    assert_eq!(db.create_todo("main", "same").unwrap(), 1);
    assert_eq!(contents_on(&db, "main"), vec!["same", "same"]);
}

#[test]
fn ids_are_strictly_increasing_and_stable() {
    let mut db = fresh_store();
    db.create_todo("main", "a").unwrap();
    db.create_todo("feature", "b").unwrap();
    db.create_todo("main", "c").unwrap();
    let main_rows = db.list_todos_on_branch("main").unwrap();
    assert_eq!(main_rows.len(), 2);
    assert!(main_rows[0].id < main_rows[1].id);
    let all_rows = db.list_all_todos().unwrap();
    assert_eq!(all_rows.len(), 3);
}

#[test]
fn delete_by_ordinal_out_of_range_is_a_no_op() {
    let mut db = fresh_store();
    db.create_todo("main", "only").unwrap();
    assert_eq!(db.delete_todo_by_branch_order_number("main", 0).unwrap(), 0);
    assert_eq!(db.delete_todo_by_branch_order_number("main", 2).unwrap(), 0);
    assert_eq!(db.delete_todo_by_branch_order_number("main", -1).unwrap(), 0);
    assert_eq!(contents_on(&db, "main"), vec!["only"]);
}

#[test]
fn delete_by_ordinal_on_empty_branch_returns_zero() {
    let mut db = fresh_store();
    assert_eq!(db.delete_todo_by_branch_order_number("main", 1).unwrap(), 0);
    assert!(contents_on(&db, "main").is_empty());
}

#[test]
fn delete_first_ordinal_reshuffles() {
    let mut db = fresh_store();
    db.create_todo("main", "x").unwrap();
    db.create_todo("main", "y").unwrap();
    assert_eq!(db.delete_todo_by_branch_order_number("main", 1).unwrap(), 1);
    assert_eq!(contents_on(&db, "main"), vec!["y"]);
}

#[test]
fn delete_middle_ordinal_keeps_neighbours() {
    let mut db = fresh_store();
    db.create_todo("main", "a").unwrap();
    db.create_todo("main", "b").unwrap();
    db.create_todo("main", "c").unwrap();
    assert_eq!(db.delete_todo_by_branch_order_number("main", 2).unwrap(), 1);
    assert_eq!(contents_on(&db, "main"), vec!["a", "c"]);
}

#[test]
fn delete_by_id_removes_exactly_that_record() {
    let mut db = fresh_store();
    db.create_todo("main", "a").unwrap();
    db.create_todo("main", "b").unwrap();
    let rows = db.list_todos_on_branch("main").unwrap();
    assert_eq!(db.delete_todo(rows[0].id).unwrap(), 1);
    assert_eq!(db.delete_todo(rows[0].id).unwrap(), 0);
    assert_eq!(contents_on(&db, "main"), vec!["b"]);
}

#[test]
fn list_all_orders_branches_lexicographically() {
    let mut db = fresh_store();
    db.create_todo("b", "on b").unwrap();
    db.create_todo("a", "on a").unwrap();
    let all = db.list_all_todos().unwrap();
    let pairs: Vec<(String, String)> =
        all.into_iter().map(|t| (t.branch, t.content)).collect();
    assert_eq!(
        pairs,
        vec![
            ("a".to_string(), "on a".to_string()),
            ("b".to_string(), "on b".to_string())
        ]
    );
}

#[test]
fn list_all_groups_branches_contiguously() {
    let mut db = fresh_store();
    db.create_todo("beta", "b1").unwrap();
    db.create_todo("alpha", "a1").unwrap();
    db.create_todo("beta", "b2").unwrap();
    db.create_todo("alpha", "a2").unwrap();
    let all = db.list_all_todos().unwrap();
    let branches: Vec<String> = all.iter().map(|t| t.branch.clone()).collect();
    assert_eq!(branches, vec!["alpha", "alpha", "beta", "beta"]);
    let contents: Vec<String> = all.iter().map(|t| t.content.clone()).collect();
    assert_eq!(contents, vec!["a1", "a2", "b1", "b2"]);
}

#[test]
fn schema_setup_is_idempotent() {
    let mut db = DatabaseAccess::create_database_access(":memory:").expect("open");
    db.create_table_if_not_exists().expect("first run");
    db.create_table_if_not_exists().expect("second run");
    db.create_todo("main", "kept").unwrap();
    db.create_table_if_not_exists().expect("third run");
    assert_eq!(contents_on(&db, "main"), vec!["kept"]);
}

#[test]
fn branches_are_isolated() {
    let mut db = fresh_store();
    db.create_todo("main", "on main").unwrap();
    db.create_todo("feature", "on feature").unwrap();
    assert_eq!(contents_on(&db, "main"), vec!["on main"]);
    assert_eq!(contents_on(&db, "feature"), vec!["on feature"]);
    db.delete_todo_by_branch_order_number("feature", 1).unwrap();
    assert_eq!(contents_on(&db, "main"), vec!["on main"]);
    assert!(contents_on(&db, "feature").is_empty());
}

#[test]
fn unknown_branch_lists_empty_not_error() {
    let db = fresh_store();
    assert!(contents_on(&db, "nowhere").is_empty());
}

#[test]
fn content_is_stored_verbatim() {
    let mut db = fresh_store();
    db.create_todo("main", "a b  c\td").unwrap();
    assert_eq!(contents_on(&db, "main"), vec!["a b  c\td"]);
}
