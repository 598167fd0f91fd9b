use vstd::prelude::*;

verus! {

/// One persisted note: a stable id, the branch it belongs to, and its text.
///
/// `id` is assigned by the store on insert, strictly increasing and never
/// reused; `branch` groups records; `content` is opaque user text.
#[derive(Debug, Clone)]
pub struct Todo {
    pub id: i32,
    pub branch: String,
    pub content: String,
}

/// The mathematical image of a [`Todo`]: the id as an unbounded integer and
/// the two text fields as character sequences.
#[verifier::ext_equal]
pub struct TodoView {
    pub id: int,
    pub branch: Seq<char>,
    pub content: Seq<char>,
}

impl View for Todo {
    type V = TodoView;

    open spec fn view(&self) -> TodoView {
        TodoView { id: self.id as int, branch: self.branch@, content: self.content@ }
    }
}

/// The views of a sequence of records, in the same order.
pub open spec fn views_of(ts: Seq<Todo>) -> Seq<TodoView> {
    ts.map_values(|t: Todo| t@)
}

} // verus!
