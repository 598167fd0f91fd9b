use vstd::prelude::*;
use crate::order::{lex_le, lemma_lex_le_antisymmetric, lemma_lex_le_refl, lemma_row_le_total_ordering, row_leq};
use crate::todo::TodoView;

verus! {

/// The records of one branch, kept in table order (ascending id whenever the
/// whole table is so ordered). This is the basis of ordinal addressing: the
/// record at ordinal `k` of a branch is `branch_rows(rows, branch)[k - 1]`.
pub open spec fn branch_rows(rows: Seq<TodoView>, branch: Seq<char>) -> Seq<TodoView>
    decreases rows.len(),
{
    if rows.len() == 0 {
        Seq::empty()
    } else if rows.last().branch == branch {
        branch_rows(rows.drop_last(), branch).push(rows.last())
    } else {
        branch_rows(rows.drop_last(), branch)
    }
}

/// The table without the rows carrying the given id, in unchanged order.
pub open spec fn rows_without_id(rows: Seq<TodoView>, id: int) -> Seq<TodoView>
    decreases rows.len(),
{
    if rows.len() == 0 {
        Seq::empty()
    } else if rows.last().id == id {
        rows_without_id(rows.drop_last(), id)
    } else {
        rows_without_id(rows.drop_last(), id).push(rows.last())
    }
}

/// Ids appear in strictly increasing order: table order equals insertion
/// order, and no id repeats.
pub open spec fn ids_strictly_increasing(rows: Seq<TodoView>) -> bool {
    forall|i: int, j: int| 0 <= i < j < rows.len() ==> rows[i].id < rows[j].id
}

/// The whole table in the all-branches listing order: by branch, then id.
pub open spec fn sort_rows(rows: Seq<TodoView>) -> Seq<TodoView> {
    rows.sort_by(row_leq())
}

/// The table after a successful insert: one appended row carrying the given
/// texts and a fresh id larger than every id already present.
pub open spec fn inserted(
    pre: Seq<TodoView>,
    post: Seq<TodoView>,
    branch: Seq<char>,
    content: Seq<char>,
) -> bool {
    exists|id: int|
        #![auto]
        (forall|j: int| 0 <= j < pre.len() ==> (#[trigger] pre[j]).id < id) && post == pre.push(
            TodoView { id: id, branch: branch, content: content },
        )
}

/// The change a successful schema setup makes to the table of records: none.
pub open spec fn schema_step(pre: Seq<TodoView>, post: Seq<TodoView>) -> bool {
    post == pre
}

/// Law: establishing the schema is idempotent. Its only effect on the row
/// model is none at all, so successive successful runs compose to no change:
/// no duplicate structure can arise.
pub proof fn lemma_schema_setup_idempotent(
    rows0: Seq<TodoView>,
    rows1: Seq<TodoView>,
    rows2: Seq<TodoView>,
)
    requires
        schema_step(rows0, rows1),
        schema_step(rows1, rows2),
    ensures
        schema_step(rows0, rows2),
        rows2 == rows0,
{
}

pub proof fn lemma_branch_rows_push(rows: Seq<TodoView>, branch: Seq<char>, t: TodoView)
    ensures
        branch_rows(rows.push(t), branch) == if t.branch == branch {
            branch_rows(rows, branch).push(t)
        } else {
            branch_rows(rows, branch)
        },
{
    assert(rows.push(t).drop_last() =~= rows);
    assert(rows.push(t).last() == t);
}

pub proof fn lemma_rows_without_id_push(rows: Seq<TodoView>, id: int, t: TodoView)
    ensures
        rows_without_id(rows.push(t), id) == if t.id == id {
            rows_without_id(rows, id)
        } else {
            rows_without_id(rows, id).push(t)
        },
{
    assert(rows.push(t).drop_last() =~= rows);
    assert(rows.push(t).last() == t);
}

pub proof fn lemma_branch_rows_elems(rows: Seq<TodoView>, branch: Seq<char>)
    ensures
        branch_rows(rows, branch).len() <= rows.len(),
        forall|i: int| 0 <= i < branch_rows(rows, branch).len() ==> (#[trigger] branch_rows(
            rows,
            branch,
        )[i]).branch == branch && rows.contains(branch_rows(rows, branch)[i]),
    decreases rows.len(),
{
    if rows.len() > 0 {
        let prefix = rows.drop_last();
        lemma_branch_rows_elems(prefix, branch);
        assert forall|t: TodoView| prefix.contains(t) implies rows.contains(t) by {
            let j = choose|j: int| 0 <= j < prefix.len() && prefix[j] == t;
            assert(rows[j] == t);
        }
        assert(rows[rows.len() - 1] == rows.last());
    }
}

pub proof fn lemma_branch_rows_increasing(rows: Seq<TodoView>, branch: Seq<char>)
    requires
        ids_strictly_increasing(rows),
    ensures
        ids_strictly_increasing(branch_rows(rows, branch)),
    decreases rows.len(),
{
    if rows.len() > 0 {
        let prefix = rows.drop_last();
        assert forall|i: int, j: int| 0 <= i < j < prefix.len() implies prefix[i].id
            < prefix[j].id by {
            assert(prefix[i] == rows[i]);
            assert(prefix[j] == rows[j]);
        }
        lemma_branch_rows_increasing(prefix, branch);
        lemma_branch_rows_elems(prefix, branch);
        if rows.last().branch == branch {
            let sel = branch_rows(prefix, branch);
            let out = sel.push(rows.last());
            assert forall|i: int| 0 <= i < sel.len() implies sel[i].id < rows.last().id by {
                assert(prefix.contains(sel[i]));
                let j = choose|j: int| 0 <= j < prefix.len() && prefix[j] == sel[i];
                assert(rows[j] == sel[i]);
                assert(rows[j].id < rows[rows.len() - 1].id);
            }
            assert forall|i: int, j: int| 0 <= i < j < out.len() implies out[i].id < out[j].id by {
                if j == sel.len() {
                    assert(out[i] == sel[i]);
                    assert(out[j] == rows.last());
                }
            }
        }
    }
}

pub proof fn lemma_rows_without_id_elems(rows: Seq<TodoView>, id: int)
    ensures
        rows_without_id(rows, id).len() <= rows.len(),
        forall|i: int| 0 <= i < rows_without_id(rows, id).len() ==> (#[trigger] rows_without_id(
            rows,
            id,
        )[i]).id != id && rows.contains(rows_without_id(rows, id)[i]),
    decreases rows.len(),
{
    if rows.len() > 0 {
        let prefix = rows.drop_last();
        lemma_rows_without_id_elems(prefix, id);
        assert forall|t: TodoView| prefix.contains(t) implies rows.contains(t) by {
            let j = choose|j: int| 0 <= j < prefix.len() && prefix[j] == t;
            assert(rows[j] == t);
        }
        assert(rows[rows.len() - 1] == rows.last());
    }
}

pub proof fn lemma_rows_without_id_increasing(rows: Seq<TodoView>, id: int)
    requires
        ids_strictly_increasing(rows),
    ensures
        ids_strictly_increasing(rows_without_id(rows, id)),
    decreases rows.len(),
{
    if rows.len() > 0 {
        let prefix = rows.drop_last();
        assert forall|i: int, j: int| 0 <= i < j < prefix.len() implies prefix[i].id
            < prefix[j].id by {
            assert(prefix[i] == rows[i]);
            assert(prefix[j] == rows[j]);
        }
        lemma_rows_without_id_increasing(prefix, id);
        lemma_rows_without_id_elems(prefix, id);
        if rows.last().id != id {
            let kept = rows_without_id(prefix, id);
            let out = kept.push(rows.last());
            assert forall|i: int| 0 <= i < kept.len() implies kept[i].id < rows.last().id by {
                assert(prefix.contains(kept[i]));
                let j = choose|j: int| 0 <= j < prefix.len() && prefix[j] == kept[i];
                assert(rows[j] == kept[i]);
                assert(rows[j].id < rows[rows.len() - 1].id);
            }
            assert forall|i: int, j: int| 0 <= i < j < out.len() implies out[i].id < out[j].id by {
                if j == kept.len() {
                    assert(out[i] == kept[i]);
                    assert(out[j] == rows.last());
                }
            }
        }
    }
}

/// Removing an id that no row carries leaves the table unchanged.
pub proof fn lemma_rows_without_absent_id(rows: Seq<TodoView>, id: int)
    requires
        forall|i: int| 0 <= i < rows.len() ==> (#[trigger] rows[i]).id != id,
    ensures
        rows_without_id(rows, id) == rows,
    decreases rows.len(),
{
    if rows.len() > 0 {
        let prefix = rows.drop_last();
        assert forall|i: int| 0 <= i < prefix.len() implies (#[trigger] prefix[i]).id != id by {
            assert(prefix[i] == rows[i]);
        }
        lemma_rows_without_absent_id(prefix, id);
        assert(rows[rows.len() - 1].id != id);
        assert(rows_without_id(rows, id) =~= rows);
    }
}

/// When ids are unique, deleting by the id of the row at position `k`
/// removes exactly that row.
pub proof fn lemma_rows_without_present_id(rows: Seq<TodoView>, k: int)
    requires
        ids_strictly_increasing(rows),
        0 <= k < rows.len(),
    ensures
        rows_without_id(rows, rows[k].id) == rows.remove(k),
    decreases rows.len(),
{
    let id = rows[k].id;
    let prefix = rows.drop_last();
    assert forall|i: int, j: int| 0 <= i < j < prefix.len() implies prefix[i].id
        < prefix[j].id by {
        assert(prefix[i] == rows[i]);
        assert(prefix[j] == rows[j]);
    }
    if k == rows.len() - 1 {
        assert forall|i: int| 0 <= i < prefix.len() implies (#[trigger] prefix[i]).id != id by {
            assert(prefix[i] == rows[i]);
            assert(rows[i].id < rows[k].id);
        }
        lemma_rows_without_absent_id(prefix, id);
        assert(rows_without_id(rows, id) =~= rows.remove(k));
    } else {
        assert(prefix[k] == rows[k]);
        lemma_rows_without_present_id(prefix, k);
        assert(rows[rows.len() - 1].id > rows[k].id);
        assert(rows_without_id(rows, id) =~= prefix.remove(k).push(rows.last()));
        assert(prefix.remove(k).push(rows.last()) =~= rows.remove(k));
    }
}

/// Filtering to a branch and deleting an id can be done in either order.
pub proof fn lemma_branch_rows_without_id(rows: Seq<TodoView>, branch: Seq<char>, id: int)
    ensures
        branch_rows(rows_without_id(rows, id), branch) == rows_without_id(
            branch_rows(rows, branch),
            id,
        ),
    decreases rows.len(),
{
    if rows.len() > 0 {
        let prefix = rows.drop_last();
        let t = rows.last();
        lemma_branch_rows_without_id(prefix, branch, id);
        assert(rows =~= prefix.push(t));
        lemma_branch_rows_push(prefix, branch, t);
        lemma_rows_without_id_push(prefix, id, t);
        if t.id != id {
            lemma_branch_rows_push(rows_without_id(prefix, id), branch, t);
        }
        if t.branch == branch {
            lemma_rows_without_id_push(branch_rows(prefix, branch), id, t);
        }
    }
}

/// Appending a row with a fresh, larger id keeps ids strictly increasing.
pub proof fn lemma_push_increasing(rows: Seq<TodoView>, t: TodoView)
    requires
        ids_strictly_increasing(rows),
        forall|i: int| 0 <= i < rows.len() ==> (#[trigger] rows[i]).id < t.id,
    ensures
        ids_strictly_increasing(rows.push(t)),
{
    let out = rows.push(t);
    assert forall|i: int, j: int| 0 <= i < j < out.len() implies out[i].id < out[j].id by {
        if j == rows.len() {
            assert(out[i] == rows[i]);
            assert(out[j] == t);
        }
    }
}

pub proof fn lemma_sort_rows_ensures(rows: Seq<TodoView>)
    ensures
        sort_rows(rows).to_multiset() =~= rows.to_multiset(),
        vstd::relations::sorted_by(sort_rows(rows), row_leq()),
{
    lemma_row_le_total_ordering();
    rows.lemma_sort_by_ensures(row_leq());
}

/// A sequence sorted in listing order with the same rows as the table is the
/// listing: the listing order is deterministic.
pub proof fn lemma_sorted_rows_unique(x: Seq<TodoView>, y: Seq<TodoView>)
    requires
        vstd::relations::sorted_by(x, row_leq()),
        vstd::relations::sorted_by(y, row_leq()),
        x.to_multiset() == y.to_multiset(),
    ensures
        x == y,
{
    lemma_row_le_total_ordering();
    vstd::seq_lib::lemma_sorted_unique(x, y, row_leq());
    assert(x =~= y);
}

/// Law: an added record appears at the end of its branch's listing, which is
/// otherwise unchanged — so repeated adds list in exactly call order.
pub proof fn lemma_add_lists_in_call_order(rows: Seq<TodoView>, t: TodoView)
    ensures
        branch_rows(rows.push(t), t.branch) == branch_rows(rows, t.branch).push(t),
{
    lemma_branch_rows_push(rows, t.branch, t);
}

/// Law: branch isolation. A branch's listing holds only records of that
/// branch, and adding to a different branch leaves the listing unchanged.
pub proof fn lemma_branch_isolation(rows: Seq<TodoView>, t: TodoView, other: Seq<char>)
    requires
        t.branch != other,
    ensures
        branch_rows(rows.push(t), other) == branch_rows(rows, other),
        forall|i: int| 0 <= i < branch_rows(rows, other).len() ==> (#[trigger] branch_rows(
            rows,
            other,
        )[i]).branch == other,
{
    lemma_branch_rows_push(rows, other, t);
    lemma_branch_rows_elems(rows, other);
}

/// Law: repeated adds list in call order — appending any run of records of
/// one branch extends that branch's listing by exactly that run.
pub proof fn lemma_add_run_lists_in_call_order(
    rows: Seq<TodoView>,
    added: Seq<TodoView>,
    branch: Seq<char>,
)
    requires
        forall|i: int| 0 <= i < added.len() ==> (#[trigger] added[i]).branch == branch,
    ensures
        branch_rows(rows + added, branch) == branch_rows(rows, branch) + added,
    decreases added.len(),
{
    if added.len() == 0 {
        assert(rows + added =~= rows);
        assert(branch_rows(rows, branch) + added =~= branch_rows(rows, branch));
    } else {
        let prefix = added.drop_last();
        assert forall|i: int| 0 <= i < prefix.len() implies (#[trigger] prefix[i]).branch
            == branch by {
            assert(prefix[i] == added[i]);
        }
        lemma_add_run_lists_in_call_order(rows, prefix, branch);
        assert(rows + added =~= (rows + prefix).push(added.last()));
        lemma_branch_rows_push(rows + prefix, branch, added.last());
        assert(added[added.len() - 1].branch == branch);
        assert((branch_rows(rows, branch) + prefix).push(added.last()) =~= branch_rows(
            rows,
            branch,
        ) + added);
    }
}

/// Law: what a successful add does to the listings — its own branch's
/// listing gains exactly one final entry carrying the added content, and
/// every other branch's listing is untouched.
pub proof fn lemma_inserted_lists(
    pre: Seq<TodoView>,
    post: Seq<TodoView>,
    branch: Seq<char>,
    content: Seq<char>,
    other: Seq<char>,
)
    requires
        inserted(pre, post, branch, content),
        other != branch,
    ensures
        branch_rows(post, branch).len() == branch_rows(pre, branch).len() + 1,
        branch_rows(post, branch).drop_last() == branch_rows(pre, branch),
        branch_rows(post, branch).last().branch == branch,
        branch_rows(post, branch).last().content == content,
        branch_rows(post, other) == branch_rows(pre, other),
{
    let row = choose|id: int|
        #![auto]
        (forall|j: int| 0 <= j < pre.len() ==> (#[trigger] pre[j]).id < id) && post == pre.push(
            TodoView { id: id, branch: branch, content: content },
        );
    let t = TodoView { id: row, branch: branch, content: content };
    lemma_branch_rows_push(pre, branch, t);
    lemma_branch_rows_push(pre, other, t);
    assert(branch_rows(pre, branch).push(t).drop_last() =~= branch_rows(pre, branch));
}

/// Law: deleting the record at 1-based ordinal `k + 1` of a branch removes
/// exactly the `k`-th entry of that branch's listing; later entries each
/// move up one place.
pub proof fn lemma_ordinal_delete_reshuffles(rows: Seq<TodoView>, branch: Seq<char>, k: int)
    requires
        ids_strictly_increasing(rows),
        0 <= k < branch_rows(rows, branch).len(),
    ensures
        branch_rows(rows_without_id(rows, branch_rows(rows, branch)[k].id), branch) == branch_rows(
            rows,
            branch,
        ).remove(k),
{
    let sel = branch_rows(rows, branch);
    lemma_branch_rows_increasing(rows, branch);
    lemma_branch_rows_without_id(rows, branch, sel[k].id);
    lemma_rows_without_present_id(sel, k);
}

/// Law: the all-branches listing groups records of one branch contiguously
/// and orders the groups lexicographically by branch name.
pub proof fn lemma_list_all_grouped(rows: Seq<TodoView>)
    ensures
        forall|i: int, j: int|
            #![trigger sort_rows(rows)[i], sort_rows(rows)[j]]
            0 <= i < j < sort_rows(rows).len() ==> lex_le(
                sort_rows(rows)[i].branch,
                sort_rows(rows)[j].branch,
            ),
        forall|i: int, j: int, k: int|
            #![trigger sort_rows(rows)[i], sort_rows(rows)[j], sort_rows(rows)[k]]
            0 <= i < j < k < sort_rows(rows).len() && sort_rows(rows)[i].branch == sort_rows(
                rows,
            )[k].branch ==> sort_rows(rows)[j].branch == sort_rows(rows)[i].branch,
{
    lemma_sort_rows_ensures(rows);
    let s = sort_rows(rows);
    assert forall|i: int, j: int| 0 <= i < j < s.len() implies lex_le(
        s[i].branch,
        s[j].branch,
    ) by {
        assert(row_leq()(s[i], s[j]));
        if s[i].branch == s[j].branch {
            lemma_lex_le_refl(s[i].branch);
        }
    }
    assert forall|i: int, j: int, k: int|
        0 <= i < j < k < s.len() && s[i].branch == s[k].branch implies s[j].branch
        == s[i].branch by {
        if s[j].branch != s[i].branch {
            lemma_lex_le_antisymmetric(s[i].branch, s[j].branch);
        }
    }
}

} // verus!
