use vstd::prelude::*;
use crate::error::StoreError;
use crate::model::{
    branch_rows, ids_strictly_increasing, inserted, lemma_branch_rows_elems,
    lemma_branch_rows_increasing, lemma_ordinal_delete_reshuffles, lemma_push_increasing,
    lemma_rows_without_present_id, lemma_sort_rows_ensures, lemma_sorted_rows_unique,
    rows_without_id, schema_step, sort_rows,
};
use crate::order::row_leq;
use crate::text::spec_trim;
use crate::todo::{views_of, Todo, TodoView};

verus! {

#[verifier::external_type_specification]
#[verifier::external_body]
pub struct ExConnection(rusqlite::Connection);

#[verifier::external_type_specification]
#[verifier::external_body]
pub struct ExRusqliteError(rusqlite::Error);

/// The records of the `todos` table behind an open connection, as the store
/// orders them: ascending by id. This is the model that every contract of
/// [`DatabaseAccess`] speaks of.
pub uninterp spec fn db_rows(c: rusqlite::Connection) -> Seq<TodoView>;

/// Whether the `todos` table exists behind the connection.
pub uninterp spec fn db_schema_ready(c: rusqlite::Connection) -> bool;

/// Durable, branch-partitioned storage of [`Todo`] records with
/// ordinal-addressed deletion, over a single SQLite table.
pub struct DatabaseAccess {
    conn: rusqlite::Connection,
}

impl DatabaseAccess {
    /// The current records, in ascending id order.
    pub closed spec fn rows(&self) -> Seq<TodoView> {
        db_rows(self.conn)
    }

    /// Whether the table has been set up.
    pub closed spec fn schema_ready(&self) -> bool {
        db_schema_ready(self.conn)
    }

    /// Well-formedness: ids are strictly increasing, so table order is
    /// insertion order and ids never repeat. Every operation keeps this.
    pub open spec fn wf(&self) -> bool {
        ids_strictly_increasing(self.rows())
    }

    /// Relies on `rusqlite::Connection::open`. The rows found on disk are
    /// modelled in ascending id order with no id repeated, which the table's
    /// `INTEGER PRIMARY KEY` column guarantees of any state the engine wrote.
    #[verifier::external_body]
    fn open_connection(path: &str) -> (r: Result<DatabaseAccess, rusqlite::Error>)
        ensures
            r matches Ok(db) ==> db.wf(),
    {
        Ok(DatabaseAccess { conn: rusqlite::Connection::open(path)? })
    }

    /// Relies on `rusqlite::Connection::execute` running
    /// `CREATE TABLE IF NOT EXISTS`: it never adds, removes or reorders
    /// rows, and on success the table exists.
    #[verifier::external_body]
    fn exec_create_table(&mut self) -> (r: Result<usize, rusqlite::Error>)
        ensures
            db_rows(final (self).conn) == db_rows(old(self).conn),
            r is Ok ==> db_schema_ready(final (self).conn),
    {
        self.conn.execute(
            "CREATE TABLE IF NOT EXISTS todos (
            id INTEGER PRIMARY KEY AUTOINCREMENT,
            branch TEXT NOT NULL,
            content TEXT NOT NULL
        )",
            (),
        )
    }

    /// Relies on `rusqlite::Connection::execute` running a single-row
    /// `INSERT`: on success it returns 1 (the number of rows changed, via
    /// `sqlite3_changes`) and appends one row whose engine-assigned id is
    /// strictly larger than every id in the table (`AUTOINCREMENT` ids are
    /// monotonically increasing and never reused); on failure nothing is
    /// written.
    #[verifier::external_body]
    fn exec_insert(&mut self, branch: &str, content: &str) -> (r: Result<
        usize,
        rusqlite::Error,
    >)
        ensures
            r matches Ok(n) ==> n == 1 && inserted(
                db_rows(old(self).conn),
                db_rows(final (self).conn),
                branch@,
                content@,
            ),
            r is Err ==> db_rows(final (self).conn) == db_rows(old(self).conn),
    {
        self.conn.execute("INSERT INTO todos (branch, content) VALUES (?1, ?2)", (branch, content))
    }

    /// Relies on `rusqlite::Statement::query_map` over
    /// `SELECT ... WHERE branch = ? ORDER BY id ASC`: on success the result
    /// holds exactly the rows of that branch, in table (id) order.
    #[verifier::external_body]
    fn exec_select_branch(&self, branch: &str) -> (r: Result<Vec<Todo>, rusqlite::Error>)
        ensures
            r matches Ok(v) ==> views_of(v@) == branch_rows(db_rows(self.conn), branch@),
    {
        let mut stmt = self.conn.prepare(
            "SELECT id, branch, content FROM todos WHERE branch = ?1 ORDER BY id ASC",
        )?;
        let todos = stmt.query_map([branch], |row| {
            Ok(Todo { id: row.get(0)?, branch: row.get(1)?, content: row.get(2)? })
        })?;
        todos.collect()
    }

    /// Relies on `rusqlite::Statement::query_map` over
    /// `SELECT ... ORDER BY branch, id ASC`: on success the result holds
    /// every row of the table, ordered by branch under SQLite's byte-wise
    /// default collation of the UTF-8 texts — which is scalar-value
    /// lexicographic order — and by id within a branch. Given distinct ids,
    /// that order is `row_leq`.
    #[verifier::external_body]
    fn exec_select_all(&self) -> (r: Result<Vec<Todo>, rusqlite::Error>)
        requires
            ids_strictly_increasing(db_rows(self.conn)),
        ensures
            r matches Ok(v) ==> views_of(v@).to_multiset() == db_rows(self.conn).to_multiset()
                && vstd::relations::sorted_by(views_of(v@), row_leq()),
    {
        let mut stmt = self.conn.prepare(
            "SELECT id, branch, content FROM todos ORDER BY branch, id ASC",
        )?;
        let todos = stmt.query_map([], |row| {
            Ok(Todo { id: row.get(0)?, branch: row.get(1)?, content: row.get(2)? })
        })?;
        todos.collect()
    }

    /// Relies on `rusqlite::Connection::execute` running
    /// `DELETE ... WHERE id = ?`: on success exactly the rows carrying that
    /// id are gone and their count is returned; on failure nothing changes.
    #[verifier::external_body]
    fn exec_delete(&mut self, id: i32) -> (r: Result<usize, rusqlite::Error>)
        ensures
            r matches Ok(n) ==> db_rows(final (self).conn) == rows_without_id(
                db_rows(old(self).conn),
                id as int,
            ) && n as int == db_rows(old(self).conn).len() - db_rows(final (self).conn).len(),
            r is Err ==> db_rows(final (self).conn) == db_rows(old(self).conn),
    {
        self.conn.execute("DELETE FROM todos WHERE id = ?1", (id,))
    }

    /// Opens the store against the given path (`":memory:"` gives a private
    /// in-memory store). Nothing is known of the records found there beyond
    /// well-formedness; `create_table_if_not_exists` must run before any
    /// other operation on a fresh store.
    pub fn create_database_access(path: &str) -> (r: Result<DatabaseAccess, StoreError>)
        ensures
            r matches Ok(db) ==> db.wf(),
    {
        match Self::open_connection(path) {
            Ok(db) => Ok(db),
            Err(e) => Err(StoreError::SQLite(e)),
        }
    }

    /// Creates the table if absent. Idempotent: the records are untouched
    /// either way, and on success the schema is ready.
    pub fn create_table_if_not_exists(&mut self) -> (r: Result<usize, StoreError>)
        requires
            old(self).wf(),
        ensures
            final (self).wf(),
            schema_step(old(self).rows(), final (self).rows()),
            r is Ok ==> final (self).schema_ready(),
    {
        match self.exec_create_table() {
            Ok(n) => Ok(n),
            Err(e) => Err(StoreError::SQLite(e)),
        }
    }

    /// Appends one record with a freshly assigned id and returns the number
    /// of rows written (1 on success). Inputs must be non-empty after
    /// trimming — validated by the caller, as the store keeps text verbatim.
    pub fn create_todo(&mut self, branch: &str, content: &str) -> (r: Result<usize, StoreError>)
        requires
            old(self).wf(),
            spec_trim(branch@).len() > 0,
            spec_trim(content@).len() > 0,
        ensures
            final (self).wf(),
            r matches Ok(n) ==> n == 1 && inserted(
                old(self).rows(),
                final (self).rows(),
                branch@,
                content@,
            ),
            r is Err ==> final (self).rows() == old(self).rows(),
    {
        let res = self.exec_insert(branch, content);
        proof {
            if res is Ok {
                let pre = old(self).rows();
                let id = choose|id: int|
                    #![auto]
                    (forall|j: int| 0 <= j < pre.len() ==> (#[trigger] pre[j]).id < id)
                        && self.rows() == pre.push(
                        TodoView { id: id, branch: branch@, content: content@ },
                    );
                lemma_push_increasing(
                    pre,
                    TodoView { id: id, branch: branch@, content: content@ },
                );
            }
        }
        match res {
            Ok(n) => Ok(n),
            Err(e) => Err(StoreError::SQLite(e)),
        }
    }

    /// The records of one branch, ascending by id — the sequence that
    /// defines ordinal addressing. An unknown branch yields an empty vector,
    /// not an error.
    pub fn list_todos_on_branch(&self, branch: &str) -> (r: Result<Vec<Todo>, StoreError>)
        ensures
            r matches Ok(v) ==> views_of(v@) == branch_rows(self.rows(), branch@),
            r matches Ok(v) ==> forall|i: int|
                0 <= i < v@.len() ==> (#[trigger] v@[i])@.branch == branch@,
            r matches Ok(v) ==> (self.wf() ==> ids_strictly_increasing(views_of(v@))),
    {
        let res = self.exec_select_branch(branch);
        proof {
            if res is Ok {
                let v = res->Ok_0;
                lemma_branch_rows_elems(self.rows(), branch@);
                assert forall|i: int| 0 <= i < v@.len() implies (#[trigger] v@[i])@.branch
                    == branch@ by {
                    assert(views_of(v@)[i] == v@[i]@);
                }
                if self.wf() {
                    lemma_branch_rows_increasing(self.rows(), branch@);
                }
            }
        }
        match res {
            Ok(v) => Ok(v),
            Err(e) => Err(StoreError::SQLite(e)),
        }
    }

    /// Every record of every branch, grouped by branch (lexicographically)
    /// and ascending by id within a branch: the listing order is exactly
    /// `sort_rows` of the table.
    pub fn list_all_todos(&self) -> (r: Result<Vec<Todo>, StoreError>)
        requires
            self.wf(),
        ensures
            r matches Ok(v) ==> views_of(v@) == sort_rows(self.rows()),
    {
        let res = self.exec_select_all();
        proof {
            if res is Ok {
                lemma_sort_rows_ensures(self.rows());
                lemma_sorted_rows_unique(views_of(res->Ok_0@), sort_rows(self.rows()));
            }
        }
        match res {
            Ok(v) => Ok(v),
            Err(e) => Err(StoreError::SQLite(e)),
        }
    }

    /// Deletes by stable id — the only safe deletion key. Returns how many
    /// records went away: 1 if the id was present, 0 if not.
    pub fn delete_todo(&mut self, id: i32) -> (r: Result<usize, StoreError>)
        requires
            old(self).wf(),
        ensures
            final (self).wf(),
            r matches Ok(n) ==> final (self).rows() == rows_without_id(
                old(self).rows(),
                id as int,
            ) && n as int == old(self).rows().len() - final (self).rows().len(),
            r is Err ==> final (self).rows() == old(self).rows(),
    {
        let res = self.exec_delete(id);
        proof {
            if res is Ok {
                let pre = old(self).rows();
                let post = self.rows();
                crate::model::lemma_rows_without_id_increasing(pre, id as int);
            }
        }
        match res {
            Ok(n) => Ok(n),
            Err(e) => Err(StoreError::SQLite(e)),
        }
    }

    /// Resolves a 1-based, branch-scoped ordinal against the current
    /// snapshot and deletes the record at that rank by its stable id.
    /// Returns 1 when a record was deleted; an ordinal outside
    /// `[1, len(listing)]` deletes nothing and returns 0 — a normal outcome,
    /// not a fault. Ordinals are recomputed on every call: deleting ordinal
    /// 1 shifts what was ordinal 2 up to 1.
    pub fn delete_todo_by_branch_order_number(&mut self, branch: &str, order_number: i32) -> (r:
        Result<usize, StoreError>)
        requires
            old(self).wf(),
        ensures
            final (self).wf(),
            r is Err ==> final (self).rows() == old(self).rows(),
            r matches Ok(n) ==> ({
                let sel = branch_rows(old(self).rows(), branch@);
                let in_range = 1 <= order_number && order_number as int <= sel.len();
                &&& (in_range ==> n == 1
                    && final (self).rows() == rows_without_id(
                        old(self).rows(),
                        sel[order_number as int - 1].id,
                    )
                    && branch_rows(final (self).rows(), branch@) == sel.remove(
                        order_number as int - 1,
                    ))
                &&& (!in_range ==> n == 0 && final (self).rows() == old(self).rows())
            }),
    {
        let items = match self.list_todos_on_branch(branch) {
            Ok(v) => v,
            Err(e) => {
                return Err(e);
            },
        };
        if 1 <= order_number && (order_number as usize) <= items.len() {
            let idx = (order_number as usize) - 1;
            let id = items[idx].id;
            proof {
                let pre = old(self).rows();
                let sel = branch_rows(pre, branch@);
                assert(views_of(items@)[idx as int] == items@[idx as int]@);
                assert(sel[idx as int].id == id as int);
                lemma_branch_rows_elems(pre, branch@);
                assert(pre.contains(sel[idx as int]));
                let j = choose|j: int| 0 <= j < pre.len() && pre[j] == sel[idx as int];
                lemma_rows_without_present_id(pre, j);
                assert(rows_without_id(pre, id as int) == pre.remove(j));
                lemma_ordinal_delete_reshuffles(pre, branch@, idx as int);
            }
            match self.delete_todo(id) {
                Ok(n) => Ok(n),
                Err(e) => Err(e),
            }
        } else {
            Ok(0)
        }
    }
}

} // verus!
