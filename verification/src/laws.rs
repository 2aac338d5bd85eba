//! Engine-wide laws, stated once over the specification functions that the
//! public contracts use.

use vstd::prelude::*;
use crate::filter::{RowFilterV, row_selected, count_true, filters_view};
use crate::session::{Session, selected_rows_upto, selected_rows_of, lemma_view_unique};
use crate::sorting::{ColumnSortKey, sorted_rows, rows_key_equal, row_before};
use crate::table::TableV;

verus! {

/// Recomputation is deterministic: two well-formed sessions over the same
/// table, the same filter list, and the same sort keys hold the same view
/// mapping.  Issuing identical requests twice therefore yields identical
/// state and replies.
pub proof fn law_identical_state_identical_view(s1: &Session, s2: &Session)
    requires
        s1.wf(),
        s2.wf(),
        s1.table@ == s2.table@,
        filters_view(s1.filters@) == filters_view(s2.filters@),
        s1.sort_keys@ == s2.sort_keys@,
    ensures
        s1.view_rows@ == s2.view_rows@,
{
    lemma_view_unique(
        s1.table@,
        filters_view(s1.filters@),
        s1.sort_keys@,
        s1.view_rows@,
        s2.view_rows@,
    );
}

proof fn lemma_count_upto(t: TableV, fs: Seq<RowFilterV>, mask: Seq<bool>, n: int)
    requires
        mask.len() == t.nrows,
        forall|r: int| 0 <= r < t.nrows ==> mask[r] == row_selected(t, fs, r),
        0 <= n <= t.nrows,
    ensures
        count_true(mask.take(n)) == selected_rows_upto(t, fs, n).len(),
    decreases n,
{
    if n > 0 {
        lemma_count_upto(t, fs, mask, n - 1);
        assert(mask.take(n).drop_last() =~= mask.take(n - 1));
        assert(mask.take(n).last() == mask[n - 1]);
    }
}

/// The selected row count every filter reply reports equals the
/// cardinality of the selection mask recomputed independently.
pub proof fn law_selected_count_matches_mask(t: TableV, fs: Seq<RowFilterV>, mask: Seq<bool>)
    requires
        mask.len() == t.nrows,
        forall|r: int| 0 <= r < t.nrows ==> mask[r] == row_selected(t, fs, r),
    ensures
        count_true(mask) == selected_rows_of(t, fs).len(),
{
    lemma_count_upto(t, fs, mask, t.nrows);
    assert(mask.take(t.nrows) =~= mask);
}

/// Profiles range over the selection only: the view mapping every profile
/// and data request reads holds each selected source row exactly once and
/// no unselected row, so a null count over the view counts nulls within
/// the selection and nothing else.
pub proof fn law_view_holds_exactly_the_selected_rows(
    t: TableV,
    fs: Seq<RowFilterV>,
    keys: Seq<ColumnSortKey>,
    v: Seq<usize>,
)
    requires
        crate::session::is_view_of(t, fs, keys, v),
        t.nrows <= usize::MAX,
    ensures
        forall|i: int| 0 <= i < v.len() ==> row_selected(t, fs, #[trigger] v[i] as int),
        forall|r: int|
            0 <= r < t.nrows && row_selected(t, fs, r) ==> v.contains(r as usize),
{
    broadcast use vstd::seq_lib::group_to_multiset_ensures;

    let sel = selected_rows_of(t, fs);
    crate::session::lemma_selected_rows_props(t, fs, t.nrows);
    assert forall|i: int| 0 <= i < v.len() implies row_selected(
        t,
        fs,
        #[trigger] v[i] as int,
    ) by {
        assert(v.contains(v[i]));
        assert(v.to_multiset().count(v[i]) > 0);
        assert(sel.to_multiset().count(v[i]) > 0);
        assert(sel.contains(v[i]));
        let j = choose|j: int| 0 <= j < sel.len() && sel[j] == v[i];
        assert(row_selected(t, fs, sel[j] as int));
    }
    assert forall|r: int|
        0 <= r < t.nrows && row_selected(t, fs, r) implies v.contains(r as usize) by {
        assert(sel.contains(r as usize));
        assert(sel.to_multiset().count(r as usize) > 0);
        assert(v.to_multiset().count(r as usize) > 0);
        assert(v.contains(r as usize));
    }
}

/// Sorting is stable: rows whose keys all compare equal keep their
/// relative source order, which is their order in the unsorted (but
/// filtered) row set.
pub proof fn law_sort_stable(t: TableV, keys: Seq<ColumnSortKey>, s: Seq<usize>)
    requires
        sorted_rows(t, keys, s),
    ensures
        forall|i: int, j: int|
            0 <= i < j < s.len() && rows_key_equal(t, keys, s[i] as int, s[j] as int) ==> s[i]
                < s[j],
{
    assert forall|i: int, j: int|
        0 <= i < j < s.len() && rows_key_equal(t, keys, s[i] as int, s[j] as int) implies s[i]
        < s[j] by {
        assert(row_before(t, keys, s[i] as int, s[j] as int));
    }
}

} // verus!
