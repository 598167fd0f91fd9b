use vstd::prelude::*;
use crate::todo::TodoView;

verus! {

/// `a` is at or before `b` in lexicographic order over character sequences,
/// comparing characters by their Unicode scalar value. This is the order in
/// which the store lists branch names: SQLite's default collation compares
/// TEXT values byte by byte in their UTF-8 encoding, and UTF-8 byte order
/// coincides with scalar-value order.
pub open spec fn lex_le(a: Seq<char>, b: Seq<char>) -> bool
    decreases a.len(),
{
    if a.len() == 0 {
        true
    } else if b.len() == 0 {
        false
    } else if (a[0] as u32) < (b[0] as u32) {
        true
    } else if (a[0] as u32) > (b[0] as u32) {
        false
    } else {
        lex_le(a.drop_first(), b.drop_first())
    }
}

proof fn lemma_char_eq(a: char, b: char)
    requires
        (a as u32) == (b as u32),
    ensures
        a == b,
{
    vstd::utf8::char_u32_cast(a, a as u32);
    vstd::utf8::char_u32_cast(b, b as u32);
}

pub proof fn lemma_lex_le_refl(a: Seq<char>)
    ensures
        lex_le(a, a),
    decreases a.len(),
{
    if a.len() > 0 {
        lemma_lex_le_refl(a.drop_first());
    }
}

pub proof fn lemma_lex_le_total(a: Seq<char>, b: Seq<char>)
    ensures
        lex_le(a, b) || lex_le(b, a),
    decreases a.len(),
{
    if a.len() > 0 && b.len() > 0 && (a[0] as u32) == (b[0] as u32) {
        lemma_lex_le_total(a.drop_first(), b.drop_first());
    }
}

pub proof fn lemma_lex_le_antisymmetric(a: Seq<char>, b: Seq<char>)
    requires
        lex_le(a, b),
        lex_le(b, a),
    ensures
        a == b,
    decreases a.len(),
{
    if a.len() == 0 {
        assert(b.len() == 0);
        assert(a =~= b);
    } else {
        assert(b.len() > 0);
        lemma_char_eq(a[0], b[0]);
        lemma_lex_le_antisymmetric(a.drop_first(), b.drop_first());
        assert forall|i: int| 0 <= i < a.len() implies a[i] == b[i] by {
            if i > 0 {
                assert(a[i] == a.drop_first()[i - 1]);
                assert(b[i] == b.drop_first()[i - 1]);
            }
        }
        assert(a =~= b);
    }
}

pub proof fn lemma_lex_le_transitive(a: Seq<char>, b: Seq<char>, c: Seq<char>)
    requires
        lex_le(a, b),
        lex_le(b, c),
    ensures
        lex_le(a, c),
    decreases a.len(),
{
    if a.len() > 0 && b.len() > 0 && c.len() > 0 && (a[0] as u32) == (b[0] as u32) && (b[0] as u32)
        == (c[0] as u32) {
        lemma_lex_le_transitive(a.drop_first(), b.drop_first(), c.drop_first());
    }
}

/// The listing order of `list_all_todos`: by branch, then by id, then by
/// content. With distinct ids the content tie-break never decides between
/// actual rows; it is there only so that the relation is a total order on
/// all `TodoView` values.
pub open spec fn row_le(a: TodoView, b: TodoView) -> bool {
    if a.branch != b.branch {
        lex_le(a.branch, b.branch)
    } else if a.id != b.id {
        a.id < b.id
    } else {
        lex_le(a.content, b.content)
    }
}

/// `row_le` as a function value, for `sort_by` and `sorted_by`.
pub open spec fn row_leq() -> spec_fn(TodoView, TodoView) -> bool {
    |a: TodoView, b: TodoView| row_le(a, b)
}

pub proof fn lemma_row_le_total_ordering()
    ensures
        vstd::relations::total_ordering(row_leq()),
{
    let leq = row_leq();
    assert forall|a: TodoView| #[trigger] leq(a, a) by {
        lemma_lex_le_refl(a.content);
    }
    assert forall|a: TodoView, b: TodoView| #[trigger] leq(a, b) && #[trigger] leq(b, a) implies a == b by {
        if a.branch != b.branch {
            lemma_lex_le_antisymmetric(a.branch, b.branch);
        } else if a.id == b.id {
            lemma_lex_le_antisymmetric(a.content, b.content);
            assert(a =~= b);
        }
    }
    assert forall|a: TodoView, b: TodoView, c: TodoView| #[trigger] leq(a, b) && #[trigger] leq(b, c) implies leq(a, c) by {
        if a.branch != b.branch && b.branch != c.branch {
            lemma_lex_le_transitive(a.branch, b.branch, c.branch);
            if a.branch == c.branch {
                lemma_lex_le_antisymmetric(a.branch, b.branch);
            }
        } else if a.branch == b.branch && a.id == b.id && b.branch == c.branch && b.id == c.id {
            lemma_lex_le_transitive(a.content, b.content, c.content);
        }
    }
    assert forall|a: TodoView, b: TodoView| #[trigger] leq(a, b) || #[trigger] leq(b, a) by {
        if a.branch != b.branch {
            lemma_lex_le_total(a.branch, b.branch);
        } else if a.id == b.id {
            lemma_lex_le_total(a.content, b.content);
        }
    }
}

} // verus!
