use vstd::prelude::*;
use vstd::string::{StrSliceExecFns, StringExecFns};
use crate::command::Command;
use crate::dao::DatabaseAccess;
use crate::error::StoreError;
use crate::model::{branch_rows, inserted, rows_without_id, sort_rows};
use crate::text::{spec_trim, trim};
use crate::todo::{views_of, Todo, TodoView};

verus! {

/// One line of a rendered listing, ready to print.
pub enum Line {
    /// A branch heading in the all-branches view; the flag marks the
    /// caller's current branch.
    Header(String, bool),
    /// One note at its 1-based ordinal within its branch. Ordinals restart
    /// at 1 on every branch change of the pre-sorted listing.
    Item(usize, String),
}

/// The mathematical image of a [`Line`].
pub enum LineV {
    Header(Seq<char>, bool),
    Item(int, Seq<char>),
}

impl View for Line {
    type V = LineV;

    open spec fn view(&self) -> LineV {
        match self {
            Line::Header(b, cur) => LineV::Header(b@, *cur),
            Line::Item(k, c) => LineV::Item(*k as int, c@),
        }
    }
}

/// The views of a sequence of lines, in the same order.
pub open spec fn line_views(ls: Seq<Line>) -> Seq<LineV> {
    ls.map_values(|l: Line| l@)
}

/// What one invocation hands back for printing.
pub enum Output {
    /// The lines of a listing, in print order.
    Listing(Vec<Line>),
    /// Rows written by an add: 1, or 0 for a no-op.
    Added(usize),
    /// Rows deleted by a done: 1, or 0 for a no-op.
    Done(usize),
    /// Usage was asked for; the store was not touched.
    Help,
}

/// The single-branch view: each record at its 1-based ordinal.
pub open spec fn render_branch_spec(items: Seq<TodoView>) -> Seq<LineV> {
    Seq::new(items.len(), |i: int| LineV::Item(i + 1, items[i].content))
}

/// The 1-based ordinal of the last record within its trailing run of
/// equal-branch records.
pub open spec fn run_ordinal(items: Seq<TodoView>) -> int
    decreases items.len(),
{
    if items.len() == 0 {
        0
    } else if items.len() == 1 || items[items.len() - 2].branch != items.last().branch {
        1
    } else {
        1 + run_ordinal(items.drop_last())
    }
}

/// The all-branches view of a pre-sorted listing: a heading on every branch
/// change (marking the current branch), then the branch's records with
/// ordinals restarting at 1.
pub open spec fn render_all_spec(items: Seq<TodoView>, current: Seq<char>) -> Seq<LineV>
    decreases items.len(),
{
    if items.len() == 0 {
        Seq::empty()
    } else {
        let prev = render_all_spec(items.drop_last(), current);
        let t = items.last();
        if items.len() == 1 || items[items.len() - 2].branch != t.branch {
            prev + seq![LineV::Header(t.branch, t.branch == current), LineV::Item(1, t.content)]
        } else {
            prev.push(LineV::Item(run_ordinal(items), t.content))
        }
    }
}

/// Renders one branch's records, ordinal plus content, in store order.
pub fn render_branch(items: &Vec<Todo>) -> (r: Vec<Line>)
    ensures
        line_views(r@) == render_branch_spec(views_of(items@)),
{
    let mut r: Vec<Line> = Vec::new();
    let mut i: usize = 0;
    while i < items.len()
        invariant
            0 <= i <= items@.len(),
            r@.len() == i,
            forall|j: int| 0 <= j < i ==> (#[trigger] r@[j])@ == LineV::Item(
                j + 1,
                items@[j]@.content,
            ),
        decreases items@.len() - i,
    {
        r.push(Line::Item(i + 1, items[i].content.clone()));
        i += 1;
    }
    proof {
        assert forall|j: int| 0 <= j < items@.len() implies line_views(r@)[j]
            == render_branch_spec(views_of(items@))[j] by {
            assert(views_of(items@)[j] == items@[j]@);
            assert(line_views(r@)[j] == r@[j]@);
        }
        assert(line_views(r@) =~= render_branch_spec(views_of(items@)));
    }
    r
}

/// Renders the all-branches listing: walks the pre-sorted records once,
/// starting a new heading and resetting the ordinal whenever the branch
/// changes.
pub fn render_all(items: &Vec<Todo>, current: &str) -> (r: Vec<Line>)
    ensures
        line_views(r@) == render_all_spec(views_of(items@), current@),
{
    let mut r: Vec<Line> = Vec::new();
    let mut ordinal: usize = 0;
    let mut i: usize = 0;
    while i < items.len()
        invariant
            0 <= i <= items@.len(),
            line_views(r@) =~= render_all_spec(views_of(items@).take(i as int), current@),
            i > 0 ==> ordinal as int == run_ordinal(views_of(items@).take(i as int)),
            i > 0 ==> 1 <= ordinal <= i,
        decreases items@.len() - i,
    {
        let ghost prefix = views_of(items@).take(i as int);
        let ghost cur_prefix = views_of(items@).take(i + 1);
        proof {
            assert(cur_prefix.drop_last() =~= prefix);
            assert(cur_prefix.last() == items@[i as int]@);
            if i > 0 {
                assert(cur_prefix[i - 1] == items@[i - 1]@);
            }
        }
        let new_branch = i == 0 || !crate::text::str_eq(
            items[i - 1].branch.as_str(),
            items[i].branch.as_str(),
        );
        if new_branch {
            let is_current = crate::text::str_eq(items[i].branch.as_str(), current);
            r.push(Line::Header(items[i].branch.clone(), is_current));
            r.push(Line::Item(1, items[i].content.clone()));
            ordinal = 1;
        } else {
            ordinal = ordinal + 1;
            r.push(Line::Item(ordinal, items[i].content.clone()));
        }
        proof {
            assert(line_views(r@) =~= render_all_spec(cur_prefix, current@));
        }
        i += 1;
    }
    proof {
        assert(views_of(items@).take(items@.len() as int) =~= views_of(items@));
    }
    r
}

/// Maps one decoded command onto exactly one store operation and renders
/// the outcome. Listings leave the store untouched; an add with branch or
/// content empty after trimming is rejected before reaching the store, so a
/// zero-content record can never be created.
pub fn execute_command(db: &mut DatabaseAccess, command: Command) -> (r: Result<
    Output,
    StoreError,
>)
    requires
        old(db).wf(),
    ensures
        final (db).wf(),
        r is Err ==> final (db).rows() == old(db).rows(),
        command matches Command::Help ==> (r matches Ok(o) && o matches Output::Help
            && final (db).rows() == old(db).rows()),
        command matches Command::List(b, all) ==> (final (db).rows() == old(db).rows() && (
        r matches Ok(o) ==> (o matches Output::Listing(lines) && line_views(lines@) == (if all {
            render_all_spec(sort_rows(old(db).rows()), b@)
        } else {
            render_branch_spec(branch_rows(old(db).rows(), b@))
        })))),
        command matches Command::Todo(b, c) ==> ({
            let rejected = spec_trim(b@).len() == 0 || spec_trim(c@).len() == 0;
            &&& (rejected ==> r is Err && final (db).rows() == old(db).rows())
            &&& (!rejected ==> (r matches Ok(o) ==> (o matches Output::Added(n) && n == 1
                && inserted(old(db).rows(), final (db).rows(), b@, c@))))
        }),
        command matches Command::Done(b, k) ==> (r matches Ok(o) ==> (o matches Output::Done(n)
            && ({
            let sel = branch_rows(old(db).rows(), b@);
            let in_range = 1 <= k && k as int <= sel.len();
            &&& (in_range ==> n == 1
                && final (db).rows() == rows_without_id(old(db).rows(), sel[k as int - 1].id)
                && branch_rows(final (db).rows(), b@) == sel.remove(k as int - 1))
            &&& (!in_range ==> n == 0 && final (db).rows() == old(db).rows())
        }))),
    {
        match command {
            Command::Help => Ok(Output::Help),
            Command::List(b, all) => {
                if all {
                    match db.list_all_todos() {
                        Ok(items) => Ok(Output::Listing(render_all(&items, b.as_str()))),
                        Err(e) => Err(e),
                    }
                } else {
                    match db.list_todos_on_branch(b.as_str()) {
                        Ok(items) => {
                            proof {
                                crate::model::lemma_branch_rows_elems(db.rows(), b@);
                            }
                            Ok(Output::Listing(render_branch(&items)))
                        },
                        Err(e) => Err(e),
                    }
                }
            },
            Command::Todo(b, c) => {
                let tb = trim(b.as_str());
                let tc = trim(c.as_str());
                if tb.unicode_len() == 0 || tc.unicode_len() == 0 {
                    Err(StoreError::Other(String::from_str("nothing to add")))
                } else {
                    match db.create_todo(b.as_str(), c.as_str()) {
                        Ok(n) => Ok(Output::Added(n)),
                        Err(e) => Err(e),
                    }
                }
            },
            Command::Done(b, k) => {
                match db.delete_todo_by_branch_order_number(b.as_str(), k) {
                    Ok(n) => Ok(Output::Done(n)),
                    Err(e) => Err(e),
                }
            },
        }
    }

} // verus!
