//! The per-client session: view state, requests, and change detection.
//!
//! A session binds a display name to a table snapshot and keeps the stored
//! row filters, the sort keys, and the derived view: the sequence of source
//! rows that pass the filters, emitted in the sort order.  Every request
//! answers against that view; replacing the filters or keys, or detecting a
//! source change, recomputes it atomically.

use vstd::prelude::*;
use crate::cells::{ColumnValue, FormatOptions, format_cell, cell_display_spec};
use crate::errors::EngineError;
use crate::filter::{
    RowFilter, RowFilterV, filters_view, row_selected, same_core, filter_valid_spec,
    revalidate_filters, compute_selection,
};
use crate::sorting::{ColumnSortKey, keys_in_range, sorted_rows, sort_rows, lemma_sorted_unique};
use crate::table::{Table, TableV, ColumnSchema, ChangeKind, classify_spec, classify_change};
use crate::profile::{
    ColumnProfileRequest, ColumnProfileResult, profile_result_spec, column_profile,
};
use crate::export::{
    ExportFormat, DataSelection, Selection, ExportedData, delim_of, cell_field, grid_spec,
    export_grid,
};

verus! {

/// Rows and columns of a (possibly filtered) table.
#[derive(Clone, Copy, PartialEq, Eq, Structural, Debug)]
pub struct TableShape {
    pub num_rows: usize,
    pub num_columns: usize,
}

/// Reply to a schema request: a contiguous run of column schemas.
#[derive(Debug)]
pub struct TableSchema {
    pub columns: Vec<ColumnSchema>,
}

/// Reply to a data request: the requested columns over the requested row
/// window, in view order, with parallel row labels when the source has them.
#[derive(Debug)]
pub struct TableData {
    pub columns: Vec<Vec<ColumnValue>>,
    pub row_labels: Option<Vec<Vec<String>>>,
}

/// Reply to a filter request.
#[derive(Clone, Copy, PartialEq, Eq, Structural, Debug)]
pub struct FilterResult {
    /// How many source rows pass the new filter list.
    pub selected_num_rows: u64,
    /// Whether some filter failed validation.
    pub had_errors: Option<bool>,
}

/// Reply to a state request.
#[derive(Debug)]
pub struct BackendState {
    pub display_name: String,
    pub sort_keys: Vec<ColumnSortKey>,
    pub row_filters: Vec<RowFilter>,
    pub table_shape: TableShape,
    pub table_unfiltered_shape: TableShape,
}

/// What a change check found, and which event the host should forward.
#[derive(Clone, Copy, PartialEq, Eq, Structural, Debug)]
pub enum UpdateEvent {
    /// Nothing observable changed; no event is emitted.
    NoEvent,
    /// Same shape and types; cells, names, or row count changed.
    DataUpdate,
    /// Column count or a column's category changed.
    SchemaUpdate,
    /// The source is gone; the session is closed and its state discarded.
    Closed,
}

/// The source rows selected by the filter list among the first `n` rows,
/// in source order.
pub open spec fn selected_rows_upto(t: TableV, fs: Seq<RowFilterV>, n: int) -> Seq<usize>
    decreases n,
{
    if n <= 0 {
        Seq::<usize>::empty()
    } else {
        selected_rows_upto(t, fs, n - 1) + if row_selected(t, fs, n - 1) {
            seq![(n - 1) as usize]
        } else {
            Seq::<usize>::empty()
        }
    }
}

/// All source rows selected by the filter list, in source order.
pub open spec fn selected_rows_of(t: TableV, fs: Seq<RowFilterV>) -> Seq<usize> {
    selected_rows_upto(t, fs, t.nrows)
}

/// Shape of the selected-row sequence: bounded, strictly increasing, and
/// holding exactly the selected rows.
pub proof fn lemma_selected_rows_props(t: TableV, fs: Seq<RowFilterV>, n: int)
    requires
        n <= usize::MAX,
    ensures
        forall|i: int|
            0 <= i < selected_rows_upto(t, fs, n).len() ==> (#[trigger] selected_rows_upto(
                t,
                fs,
                n,
            )[i]) < n,
        forall|i: int, j: int|
            0 <= i < j < selected_rows_upto(t, fs, n).len() ==> selected_rows_upto(t, fs, n)[i]
                < selected_rows_upto(t, fs, n)[j],
        forall|i: int|
            0 <= i < selected_rows_upto(t, fs, n).len() ==> row_selected(
                t,
                fs,
                #[trigger] selected_rows_upto(t, fs, n)[i] as int,
            ),
        forall|r: int|
            0 <= r < n && row_selected(t, fs, r) ==> selected_rows_upto(t, fs, n).contains(
                r as usize,
            ),
    decreases n,
{
    if n > 0 {
        lemma_selected_rows_props(t, fs, n - 1);
        let prev = selected_rows_upto(t, fs, n - 1);
        let cur = selected_rows_upto(t, fs, n);
        if row_selected(t, fs, n - 1) {
            assert(cur.len() == prev.len() + 1);
            assert(cur[cur.len() - 1] == (n - 1) as usize);
            assert((n - 1) as usize as int == n - 1);
            assert forall|i: int|
                0 <= i < cur.len() implies row_selected(t, fs, #[trigger] cur[i] as int) by {
                if i < prev.len() {
                    assert(cur[i] == prev[i]);
                } else {
                    assert(cur[i] as int == n - 1);
                }
            }
            assert forall|i: int, j: int|
                0 <= i < j < cur.len() implies cur[i] < cur[j] by {
                if j < prev.len() {
                    assert(cur[i] == prev[i] && cur[j] == prev[j]);
                } else {
                    assert(cur[j] as int == n - 1);
                    assert(cur[i] == prev[i]);
                    assert(prev[i] < n - 1);
                }
            }
        } else {
            assert(cur =~= prev);
        }
        assert forall|r: int|
            0 <= r < n && row_selected(t, fs, r) implies cur.contains(r as usize) by {
            if r < n - 1 {
                assert(prev.contains(r as usize));
                let i = choose|i: int| 0 <= i < prev.len() && prev[i] == r as usize;
                assert(cur[i] == r as usize);
            } else {
                assert(cur[cur.len() - 1] == r as usize);
            }
        }
    }
}

/// There are never more selected rows than rows.
pub proof fn lemma_selected_len(t: TableV, fs: Seq<RowFilterV>, n: int)
    ensures
        selected_rows_upto(t, fs, n).len() <= (if n >= 0 {
            n
        } else {
            0
        }),
    decreases n,
{
    if n > 0 {
        lemma_selected_len(t, fs, n - 1);
    }
}

/// `v` is the view mapping of the given state: the selected rows, in the
/// strict sort order.
pub open spec fn is_view_of(
    t: TableV,
    fs: Seq<RowFilterV>,
    keys: Seq<ColumnSortKey>,
    v: Seq<usize>,
) -> bool {
    &&& v.to_multiset() == selected_rows_of(t, fs).to_multiset()
    &&& v.len() == selected_rows_of(t, fs).len()
    &&& sorted_rows(t, keys, v)
    &&& forall|i: int| 0 <= i < v.len() ==> (#[trigger] v[i]) < t.nrows
}

/// The view mapping is unique: the engine's state after a recompute does
/// not depend on how the mapping was produced.
pub proof fn lemma_view_unique(
    t: TableV,
    fs: Seq<RowFilterV>,
    keys: Seq<ColumnSortKey>,
    v1: Seq<usize>,
    v2: Seq<usize>,
)
    requires
        is_view_of(t, fs, keys, v1),
        is_view_of(t, fs, keys, v2),
    ensures
        v1 == v2,
{
    lemma_sorted_unique(t, keys, v1, v2);
}

/// Collect the selected rows in source order.
fn selected_rows_exec(t: &Table, fs: &Vec<RowFilter>) -> (rows: Vec<usize>)
    requires
        t.wf(),
    ensures
        rows@ == selected_rows_of(t@, filters_view(fs@)),
{
    let ghost fv = filters_view(fs@);
    let mask = compute_selection(t, fs);
    let mut rows: Vec<usize> = Vec::new();
    let mut r: usize = 0;
    proof {
        assert(rows@ =~= selected_rows_upto(t@, fv, 0));
    }
    while r < t.nrows
        invariant
            t.wf(),
            fv == filters_view(fs@),
            mask@.len() == t@.nrows,
            forall|j: int| 0 <= j < t@.nrows ==> mask@[j] == row_selected(t@, fv, j),
            r <= t@.nrows,
            rows@ == selected_rows_upto(t@, fv, r as int),
        decreases t@.nrows - r,
    {
        if mask[r] {
            rows.push(r);
            proof {
                assert(rows@ =~= selected_rows_upto(t@, fv, r + 1));
            }
        } else {
            proof {
                assert(rows@ =~= selected_rows_upto(t@, fv, r + 1));
            }
        }
        r = r + 1;
    }
    rows
}

/// Compute the view mapping of the given state.
pub fn compute_view(t: &Table, fs: &Vec<RowFilter>, keys: &Vec<ColumnSortKey>) -> (v: Vec<usize>)
    requires
        t.wf(),
        keys_in_range(t@, keys@),
    ensures
        is_view_of(t@, filters_view(fs@), keys@, v@),
{
    let rows = selected_rows_exec(t, fs);
    proof {
        lemma_selected_rows_props(t@, filters_view(fs@), t@.nrows);
    }
    let v = sort_rows(t, keys, &rows);
    v
}

/// One client's view over one table snapshot.
#[derive(Debug)]
pub struct Session {
    /// Name shown to the client.
    pub display_name: String,
    /// The current snapshot of the source.
    pub table: Table,
    /// Stored filters, in order, annotated with their validity.
    pub filters: Vec<RowFilter>,
    /// Stored sort keys, in order.
    pub sort_keys: Vec<ColumnSortKey>,
    /// Derived mapping: view row position to source row.
    pub view_rows: Vec<usize>,
    /// Set once the source disappeared; every request then fails.
    pub closed: bool,
}

impl Session {
    /// Internal consistency: the table is a valid grid, the keys are in
    /// range, the stored filters carry fresh validity annotations, and the
    /// mapping is the view of the current state.
    pub open spec fn wf(&self) -> bool {
        &&& self.table.wf()
        &&& keys_in_range(self.table@, self.sort_keys@)
        &&& is_view_of(
            self.table@,
            filters_view(self.filters@),
            self.sort_keys@,
            self.view_rows@,
        )
        &&& forall|i: int|
            0 <= i < self.filters@.len() ==> {
                &&& (#[trigger] self.filters@[i]@).is_valid == Some(
                    filter_valid_spec(self.table@, self.filters@[i]@),
                )
                &&& (self.filters@[i]@.error_message is Some <==> !filter_valid_spec(
                    self.table@,
                    self.filters@[i]@,
                ))
            }
    }

    /// Open a session over a snapshot: no filters, no sort, every row
    /// visible in source order.
    pub fn new(display_name: String, table: Table) -> (s: Session)
        requires
            table.wf(),
        ensures
            s.wf(),
            !s.closed,
            s.display_name@ == display_name@,
            s.table@ == table@,
            s.filters@.len() == 0,
            s.sort_keys@.len() == 0,
    {
        let filters: Vec<RowFilter> = Vec::new();
        let sort_keys: Vec<ColumnSortKey> = Vec::new();
        let view_rows = compute_view(&table, &filters, &sort_keys);
        proof {
            assert(filters_view(filters@) =~= Seq::<RowFilterV>::empty());
        }
        Session { display_name, table, filters, sort_keys, view_rows, closed: false }
    }

    /// A contiguous run of the current schema, clamped to the column count:
    /// `num_columns` columns starting at `start_index`.
    pub fn get_schema(&self, start_index: usize, num_columns: usize) -> (r: Result<
        TableSchema,
        EngineError,
    >)
        requires
            self.wf(),
        ensures
            self.closed <==> (r == Err::<TableSchema, EngineError>(EngineError::SessionClosed)),
            match r {
                Ok(schema) => {
                    let nc = self.table@.columns.len() as int;
                    let end = if start_index + num_columns <= nc {
                        start_index + num_columns
                    } else {
                        nc
                    };
                    let lo = if start_index as int <= end {
                        start_index as int
                    } else {
                        end
                    };
                    schema.columns@.map_values(|c: ColumnSchema| c@) =~= self.table@
                        .columns.subrange(lo, end)
                },
                Err(e) => e == EngineError::SessionClosed,
            },
    {
        if self.closed {
            return Err(EngineError::SessionClosed);
        }
        let nc = self.table.ncols();
        let end = if start_index <= nc && num_columns <= nc - start_index {
            start_index + num_columns
        } else {
            nc
        };
        let lo = if start_index <= end {
            start_index
        } else {
            end
        };
        let mut columns: Vec<ColumnSchema> = Vec::new();
        let mut i: usize = lo;
        while i < end
            invariant
                self.wf(),
                lo <= i <= end,
                end <= self.table@.columns.len(),
                columns@.len() == i - lo,
                forall|j: int|
                    0 <= j < i - lo ==> #[trigger] columns@[j]@ == self.table@.columns[lo + j],
            decreases end - i,
        {
            columns.push(self.table.columns[i].duplicate());
            i = i + 1;
        }
        proof {
            assert(columns@.map_values(|c: ColumnSchema| c@) =~= self.table@.columns.subrange(
                lo as int,
                end as int,
            ));
        }
        Ok(TableSchema { columns })
    }
}

/// Two filter lists with the same cores select the same rows.
proof fn lemma_selected_upto_same_core(
    t: TableV,
    fs1: Seq<RowFilterV>,
    fs2: Seq<RowFilterV>,
    k: int,
    row: int,
)
    requires
        fs1.len() == fs2.len(),
        forall|i: int| 0 <= i < fs1.len() ==> same_core(#[trigger] fs1[i], fs2[i]),
        k <= fs1.len(),
    ensures
        crate::filter::selected_upto(t, fs1, k, row) == crate::filter::selected_upto(
            t,
            fs2,
            k,
            row,
        ),
        crate::filter::any_valid_upto(t, fs1, k) == crate::filter::any_valid_upto(t, fs2, k),
    decreases k,
{
    if k > 0 {
        lemma_selected_upto_same_core(t, fs1, fs2, k - 1, row);
        crate::filter::lemma_valid_same_core(t, fs1[k - 1], fs2[k - 1]);
        assert(crate::filter::any_valid_upto(t, fs1, k) == crate::filter::any_valid_upto(
            t,
            fs2,
            k,
        )) by {
            if crate::filter::any_valid_upto(t, fs1, k) {
                let j = choose|j: int|
                    0 <= j < k && filter_valid_spec(t, #[trigger] fs1[j]);
                crate::filter::lemma_valid_same_core(t, fs1[j], fs2[j]);
                assert(filter_valid_spec(t, fs2[j]));
            }
            if crate::filter::any_valid_upto(t, fs2, k) {
                let j = choose|j: int|
                    0 <= j < k && filter_valid_spec(t, #[trigger] fs2[j]);
                crate::filter::lemma_valid_same_core(t, fs1[j], fs2[j]);
                assert(filter_valid_spec(t, fs1[j]));
            }
        }
    }
}

/// Replacing each filter by one with the same core leaves every row's
/// selection verdict, and so the selected row sequence, unchanged.
pub proof fn lemma_selection_same_core(t: TableV, fs1: Seq<RowFilterV>, fs2: Seq<RowFilterV>)
    requires
        fs1.len() == fs2.len(),
        forall|i: int| 0 <= i < fs1.len() ==> same_core(#[trigger] fs1[i], fs2[i]),
    ensures
        forall|row: int| row_selected(t, fs1, row) == row_selected(t, fs2, row),
        selected_rows_of(t, fs1) == selected_rows_of(t, fs2),
{
    assert forall|row: int| row_selected(t, fs1, row) == row_selected(t, fs2, row) by {
        lemma_selected_upto_same_core(t, fs1, fs2, fs1.len() as int, row);
    }
    lemma_selected_rows_upto_same(t, fs1, fs2, t.nrows);
}

proof fn lemma_selected_rows_upto_same(
    t: TableV,
    fs1: Seq<RowFilterV>,
    fs2: Seq<RowFilterV>,
    n: int,
)
    requires
        fs1.len() == fs2.len(),
        forall|i: int| 0 <= i < fs1.len() ==> same_core(#[trigger] fs1[i], fs2[i]),
    ensures
        selected_rows_upto(t, fs1, n) == selected_rows_upto(t, fs2, n),
    decreases n,
{
    if n > 0 {
        lemma_selected_rows_upto_same(t, fs1, fs2, n - 1);
        lemma_selected_upto_same_core(t, fs1, fs2, fs1.len() as int, n - 1);
    }
}

/// The sort keys that survive a schema change: those whose column still
/// exists, in order.
pub open spec fn keys_kept(keys: Seq<ColumnSortKey>, ncols: int) -> Seq<ColumnSortKey>
    decreases keys.len(),
{
    if keys.len() == 0 {
        Seq::<ColumnSortKey>::empty()
    } else {
        keys_kept(keys.drop_last(), ncols) + if keys.last().column_index < ncols {
            seq![keys.last()]
        } else {
            Seq::<ColumnSortKey>::empty()
        }
    }
}

proof fn lemma_keys_kept_in_range(keys: Seq<ColumnSortKey>, ncols: int)
    ensures
        forall|i: int|
            0 <= i < keys_kept(keys, ncols).len() ==> (#[trigger] keys_kept(keys, ncols)[i])
                .column_index < ncols,
    decreases keys.len(),
{
    if keys.len() > 0 {
        lemma_keys_kept_in_range(keys.drop_last(), ncols);
        let prev = keys_kept(keys.drop_last(), ncols);
        let cur = keys_kept(keys, ncols);
        assert forall|i: int|
            0 <= i < cur.len() implies (#[trigger] cur[i]).column_index < ncols by {
            if i < prev.len() {
                assert(cur[i] == prev[i]);
            } else {
                assert(cur[i] == keys.last());
            }
        }
    }
}

/// Keep the keys that name a column below `ncols`, in order.
fn keys_kept_exec(keys: &Vec<ColumnSortKey>, ncols: usize) -> (r: Vec<ColumnSortKey>)
    ensures
        r@ == keys_kept(keys@, ncols as int),
{
    let mut out: Vec<ColumnSortKey> = Vec::new();
    let mut i: usize = 0;
    proof {
        assert(keys@.take(0) =~= Seq::<ColumnSortKey>::empty());
        assert(out@ =~= keys_kept(keys@.take(0), ncols as int));
    }
    while i < keys.len()
        invariant
            i <= keys@.len(),
            out@ == keys_kept(keys@.take(i as int), ncols as int),
        decreases keys@.len() - i,
    {
        proof {
            assert(keys@.take(i + 1).drop_last() =~= keys@.take(i as int));
            assert(keys@.take(i + 1).last() == keys@[i as int]);
        }
        if keys[i].column_index < ncols {
            out.push(keys[i]);
            proof {
                assert(out@ =~= keys_kept(keys@.take(i + 1), ncols as int));
            }
        } else {
            proof {
                assert(out@ =~= keys_kept(keys@.take(i + 1), ncols as int));
            }
        }
        i = i + 1;
    }
    proof {
        assert(keys@.take(keys@.len() as int) =~= keys@);
    }
    out
}

/// Copy a filter list, preserving every filter's value.
fn dup_filters(fs: &Vec<RowFilter>) -> (r: Vec<RowFilter>)
    ensures
        r@.len() == fs@.len(),
        forall|i: int| 0 <= i < fs@.len() ==> #[trigger] r@[i]@ == fs@[i]@,
{
    let mut out: Vec<RowFilter> = Vec::new();
    let mut i: usize = 0;
    while i < fs.len()
        invariant
            i <= fs@.len(),
            out@.len() == i,
            forall|j: int| 0 <= j < i ==> #[trigger] out@[j]@ == fs@[j]@,
        decreases fs@.len() - i,
    {
        out.push(fs[i].duplicate());
        i = i + 1;
    }
    out
}

/// Copy a sort-key list.
fn dup_keys(ks: &Vec<ColumnSortKey>) -> (r: Vec<ColumnSortKey>)
    ensures
        r@ == ks@,
{
    let mut out: Vec<ColumnSortKey> = Vec::new();
    let mut i: usize = 0;
    while i < ks.len()
        invariant
            i <= ks@.len(),
            out@ == ks@.take(i as int),
        decreases ks@.len() - i,
    {
        out.push(ks[i]);
        proof {
            assert(out@ =~= ks@.take(i + 1));
        }
        i = i + 1;
    }
    proof {
        assert(ks@.take(ks@.len() as int) =~= ks@);
    }
    out
}

impl Session {
    /// Replace the sort keys wholesale and recompute the view.  A key that
    /// names a column at or beyond the column count fails the request and
    /// changes nothing.  A repeated column index is kept but inert: a later
    /// key only breaks ties the earlier keys left, and rows tied on a
    /// column stay tied on it.
    pub fn set_sort_columns(&mut self, sort_keys: Vec<ColumnSortKey>) -> (r: Result<
        (),
        EngineError,
    >)
        requires
            old(self).wf(),
        ensures
            final(self).wf(),
            match r {
                Ok(()) => {
                    &&& !old(self).closed
                    &&& keys_in_range(old(self).table@, sort_keys@)
                    &&& final(self).sort_keys@ == sort_keys@
                    &&& final(self).table == old(self).table
                    &&& final(self).filters == old(self).filters
                    &&& final(self).display_name == old(self).display_name
                    &&& final(self).closed == old(self).closed
                },
                Err(e) => {
                    &&& *final(self) == *old(self)
                    &&& (e == EngineError::SessionClosed <==> old(self).closed)
                    &&& (old(self).closed || !keys_in_range(old(self).table@, sort_keys@))
                    &&& (!old(self).closed ==> e == EngineError::SortKeyOutOfRange)
                },
            },
    {
        if self.closed {
            return Err(EngineError::SessionClosed);
        }
        let nc = self.table.ncols();
        let mut i: usize = 0;
        while i < sort_keys.len()
            invariant
                *self == *old(self),
                self.wf(),
                !self.closed,
                nc == self.table@.columns.len(),
                i <= sort_keys@.len(),
                forall|j: int|
                    0 <= j < i ==> (#[trigger] sort_keys@[j]).column_index < nc,
            decreases sort_keys@.len() - i,
        {
            if sort_keys[i].column_index >= nc {
                assert(!keys_in_range(self.table@, sort_keys@)) by {
                    assert(sort_keys@[i as int].column_index >= nc);
                }
                return Err(EngineError::SortKeyOutOfRange);
            }
            i = i + 1;
        }
        assert(keys_in_range(self.table@, sort_keys@));
        let view_rows = compute_view(&self.table, &self.filters, &sort_keys);
        self.sort_keys = sort_keys;
        self.view_rows = view_rows;
        Ok(())
    }

    /// Replace the filter list wholesale: every filter is validated and
    /// stored (an unusable one is kept, marked invalid, and excluded from
    /// the selection), the view is recomputed, and the reply carries the
    /// new selected row count and whether any filter is invalid.
    pub fn set_row_filters(&mut self, filters: Vec<RowFilter>) -> (r: Result<
        FilterResult,
        EngineError,
    >)
        requires
            old(self).wf(),
        ensures
            final(self).wf(),
            match r {
                Ok(res) => {
                    &&& !old(self).closed
                    &&& final(self).closed == old(self).closed
                    &&& final(self).table == old(self).table
                    &&& final(self).sort_keys == old(self).sort_keys
                    &&& final(self).display_name == old(self).display_name
                    &&& final(self).filters@.len() == filters@.len()
                    &&& forall|i: int|
                        0 <= i < filters@.len() ==> same_core(
                            #[trigger] final(self).filters@[i]@,
                            filters@[i]@,
                        )
                    &&& forall|i: int|
                        0 <= i < filters@.len() ==> (#[trigger] final(self).filters@[i]@).is_valid
                            == Some(filter_valid_spec(old(self).table@, filters@[i]@))
                    &&& res.selected_num_rows == selected_rows_of(
                        old(self).table@,
                        filters_view(filters@),
                    ).len()
                    &&& res.had_errors == Some(
                        exists|i: int|
                            0 <= i < filters@.len() && !filter_valid_spec(
                                old(self).table@,
                                #[trigger] filters@[i]@,
                            ),
                    )
                },
                Err(e) => {
                    &&& *final(self) == *old(self)
                    &&& e == EngineError::SessionClosed
                    &&& old(self).closed
                },
            },
    {
        if self.closed {
            return Err(EngineError::SessionClosed);
        }
        let ghost t = self.table@;
        let ghost raw = filters_view(filters@);
        let stored = revalidate_filters(&self.table, &filters);
        let ghost sv = filters_view(stored@);
        proof {
            assert(forall|i: int|
                0 <= i < raw.len() ==> same_core(#[trigger] sv[i], raw[i]));
            lemma_selection_same_core(t, sv, raw);
            assert forall|i: int| 0 <= i < stored@.len() implies {
                &&& (#[trigger] stored@[i]@).is_valid == Some(
                    filter_valid_spec(t, stored@[i]@),
                )
                &&& (stored@[i]@.error_message is Some <==> !filter_valid_spec(t, stored@[i]@))
            } by {
                crate::filter::lemma_valid_same_core(t, stored@[i]@, filters@[i]@);
            }
        }
        let view_rows = compute_view(&self.table, &stored, &self.sort_keys);
        let n = view_rows.len();
        proof {
            assert(view_rows@.len() == selected_rows_of(t, raw).len());
        }
        // whether any filter failed validation
        let mut had = false;
        let mut i: usize = 0;
        while i < stored.len()
            invariant
                sv == filters_view(stored@),
                raw == filters_view(filters@),
                stored@.len() == filters@.len(),
                forall|k: int|
                    0 <= k < filters@.len() ==> same_core(#[trigger] sv[k], raw[k]),
                forall|k: int|
                    0 <= k < filters@.len() ==> (#[trigger] stored@[k]@).is_valid == Some(
                        filter_valid_spec(t, filters@[k]@),
                    ),
                i <= stored@.len(),
                had == exists|k: int|
                    0 <= k < i && !filter_valid_spec(t, #[trigger] raw[k]),
            decreases stored@.len() - i,
        {
            let valid_here = match &stored[i].is_valid {
                Some(b) => *b,
                None => {
                    assert(false);
                    true
                },
            };
            if !valid_here {
                proof {
                    crate::filter::lemma_valid_same_core(t, sv[i as int], raw[i as int]);
                    assert(!filter_valid_spec(t, raw[i as int]));
                }
                had = true;
            } else {
                proof {
                    if exists|k: int| 0 <= k < i + 1 && !filter_valid_spec(t, #[trigger] raw[k]) {
                        let k = choose|k: int|
                            0 <= k < i + 1 && !filter_valid_spec(t, #[trigger] raw[k]);
                        if k == i {
                            assert(filter_valid_spec(t, filters@[i as int]@));
                            assert(false);
                        }
                    }
                }
            }
            i = i + 1;
        }
        proof {
            if had {
                let k = choose|k: int| 0 <= k < raw.len() && !filter_valid_spec(t, #[trigger] raw[k]);
                assert(!filter_valid_spec(t, filters@[k]@));
            }
            if exists|k: int|
                0 <= k < filters@.len() && !filter_valid_spec(t, #[trigger] filters@[k]@) {
                let k = choose|k: int|
                    0 <= k < filters@.len() && !filter_valid_spec(t, #[trigger] filters@[k]@);
                assert(!filter_valid_spec(t, raw[k]));
                assert(had);
            }
        }
        self.filters = stored;
        self.view_rows = view_rows;
        Ok(FilterResult { selected_num_rows: n as u64, had_errors: Some(had) })
    }

    /// The current state: name, stored keys and annotated filters, and the
    /// filtered and unfiltered shapes.
    pub fn get_state(&self) -> (r: Result<BackendState, EngineError>)
        requires
            self.wf(),
        ensures
            match r {
                Ok(st) => {
                    &&& !self.closed
                    &&& st.display_name@ == self.display_name@
                    &&& st.sort_keys@ == self.sort_keys@
                    &&& st.row_filters@.len() == self.filters@.len()
                    &&& forall|i: int|
                        0 <= i < self.filters@.len() ==> #[trigger] st.row_filters@[i]@
                            == self.filters@[i]@
                    &&& st.table_shape.num_rows == self.view_rows@.len()
                    &&& st.table_shape.num_columns == self.table@.columns.len()
                    &&& st.table_unfiltered_shape.num_rows == self.table@.nrows
                    &&& st.table_unfiltered_shape.num_columns == self.table@.columns.len()
                },
                Err(e) => {
                    &&& e == EngineError::SessionClosed
                    &&& self.closed
                },
            },
    {
        if self.closed {
            return Err(EngineError::SessionClosed);
        }
        let name: String = self.display_name.clone();
        let sort_keys = dup_keys(&self.sort_keys);
        let row_filters = dup_filters(&self.filters);
        let nc = self.table.ncols();
        Ok(
            BackendState {
                display_name: name,
                sort_keys,
                row_filters,
                table_shape: TableShape { num_rows: self.view_rows.len(), num_columns: nc },
                table_unfiltered_shape: TableShape { num_rows: self.table.nrows, num_columns: nc },
            },
        )
    }

    /// A window of the current view: the requested columns over `num_rows`
    /// view rows starting at `row_start_index`, each cell formatted under
    /// the given options, with parallel row labels when the source has
    /// them.  The window is clamped to the end of the view; a column index
    /// out of range or a start beyond the view fails the request.
    pub fn get_data_values(
        &self,
        row_start_index: usize,
        num_rows: usize,
        column_indices: Vec<usize>,
        format_options: &FormatOptions,
    ) -> (r: Result<TableData, EngineError>)
        requires
            self.wf(),
        ensures
            self.closed ==> r == Err::<TableData, EngineError>(EngineError::SessionClosed),
            !self.closed && (exists|j: int|
                0 <= j < column_indices@.len() && (#[trigger] column_indices@[j])
                    >= self.table@.columns.len()) ==> r == Err::<TableData, EngineError>(
                EngineError::ColumnIndexOutOfRange,
            ),
            !self.closed && (forall|j: int|
                0 <= j < column_indices@.len() ==> (#[trigger] column_indices@[j])
                    < self.table@.columns.len()) && row_start_index > self.view_rows@.len() ==> r
                == Err::<TableData, EngineError>(EngineError::RowIndexOutOfRange),
            !self.closed && (forall|j: int|
                0 <= j < column_indices@.len() ==> (#[trigger] column_indices@[j])
                    < self.table@.columns.len()) && row_start_index <= self.view_rows@.len()
                ==> match r {
                Ok(d) => {
                    let cnt = if num_rows <= self.view_rows@.len() - row_start_index {
                        num_rows as int
                    } else {
                        self.view_rows@.len() - row_start_index
                    };
                    &&& d.columns@.len() == column_indices@.len()
                    &&& forall|j: int|
                        0 <= j < column_indices@.len() ==> (#[trigger] d.columns@[j])@.len() == cnt
                    &&& forall|j: int, i: int|
                        0 <= j < column_indices@.len() && 0 <= i < cnt
                            ==> (#[trigger] d.columns@[j]@[i])@ == cell_display_spec(
                            self.table@.cells[column_indices@[j] as int][self.view_rows@[row_start_index
                                + i] as int],
                            format_options@,
                        )
                    &&& (d.row_labels is Some <==> self.table@.row_names is Some)
                    &&& match d.row_labels {
                        Some(ls) => {
                            &&& ls@.len() == 1
                            &&& ls@[0]@.len() == cnt
                            &&& forall|i: int|
                                0 <= i < cnt ==> (#[trigger] ls@[0]@[i])@
                                    == self.table@.row_names.unwrap()[self.view_rows@[row_start_index
                                    + i] as int]
                        },
                        None => true,
                    }
                },
                Err(_) => false,
            },
    {
        if self.closed {
            return Err(EngineError::SessionClosed);
        }
        let nc = self.table.ncols();
        let mut j: usize = 0;
        while j < column_indices.len()
            invariant
                self.wf(),
                !self.closed,
                nc == self.table@.columns.len(),
                j <= column_indices@.len(),
                forall|k: int|
                    0 <= k < j ==> (#[trigger] column_indices@[k]) < nc,
            decreases column_indices@.len() - j,
        {
            if column_indices[j] >= nc {
                assert(column_indices@[j as int] >= nc);
                return Err(EngineError::ColumnIndexOutOfRange);
            }
            j = j + 1;
        }
        let vlen = self.view_rows.len();
        if row_start_index > vlen {
            return Err(EngineError::RowIndexOutOfRange);
        }
        let cnt = if num_rows <= vlen - row_start_index {
            num_rows
        } else {
            vlen - row_start_index
        };
        let mut columns: Vec<Vec<ColumnValue>> = Vec::new();
        let mut j: usize = 0;
        while j < column_indices.len()
            invariant
                self.wf(),
                !self.closed,
                nc == self.table@.columns.len(),
                forall|k: int|
                    0 <= k < column_indices@.len() ==> (#[trigger] column_indices@[k]) < nc,
                vlen == self.view_rows@.len(),
                row_start_index + cnt <= vlen,
                j <= column_indices@.len(),
                columns@.len() == j,
                forall|k: int|
                    0 <= k < j ==> (#[trigger] columns@[k])@.len() == cnt,
                forall|k: int, i: int|
                    0 <= k < j && 0 <= i < cnt ==> (#[trigger] columns@[k]@[i])@
                        == cell_display_spec(
                        self.table@.cells[column_indices@[k] as int][self.view_rows@[row_start_index
                            + i] as int],
                        format_options@,
                    ),
            decreases column_indices@.len() - j,
        {
            let ci = column_indices[j];
            let mut col: Vec<ColumnValue> = Vec::new();
            let mut i: usize = 0;
            while i < cnt
                invariant
                    self.wf(),
                    nc == self.table@.columns.len(),
                    ci < nc,
                    vlen == self.view_rows@.len(),
                    row_start_index + cnt <= vlen,
                    i <= cnt,
                    col@.len() == i,
                    forall|k: int|
                        0 <= k < i ==> (#[trigger] col@[k])@ == cell_display_spec(
                            self.table@.cells[ci as int][self.view_rows@[row_start_index
                                + k] as int],
                            format_options@,
                        ),
                decreases cnt - i,
            {
                let src_row = self.view_rows[row_start_index + i];
                let cell = self.table.cell_at(ci, src_row);
                let v = format_cell(cell, format_options);
                col.push(v);
                i = i + 1;
            }
            columns.push(col);
            j = j + 1;
        }
        let row_labels: Option<Vec<Vec<String>>> = match &self.table.row_names {
            Some(ns) => {
                let mut labels: Vec<String> = Vec::new();
                let mut i: usize = 0;
                while i < cnt
                    invariant
                        self.wf(),
                        self.table.row_names == Some(*ns),
                        ns@.len() == self.table@.nrows,
                        vlen == self.view_rows@.len(),
                        row_start_index + cnt <= vlen,
                        i <= cnt,
                        labels@.len() == i,
                        forall|k: int|
                            0 <= k < i ==> (#[trigger] labels@[k])@
                                == self.table@.row_names.unwrap()[self.view_rows@[row_start_index
                                + k] as int],
                    decreases cnt - i,
                {
                    let src_row = self.view_rows[row_start_index + i];
                    labels.push(ns[src_row].clone());
                    i = i + 1;
                }
                let mut wrapped: Vec<Vec<String>> = Vec::new();
                wrapped.push(labels);
                Some(wrapped)
            },
            None => None,
        };
        Ok(TableData { columns, row_labels })
    }

    /// Answer the requested profiles, each computed over the current view
    /// rows only.  A request naming a column at or beyond the column count
    /// fails the whole request.
    pub fn get_column_profiles(
        &self,
        requests: Vec<ColumnProfileRequest>,
        format_options: &FormatOptions,
    ) -> (r: Result<Vec<ColumnProfileResult>, EngineError>)
        requires
            self.wf(),
        ensures
            self.closed ==> r == Err::<Vec<ColumnProfileResult>, EngineError>(
                EngineError::SessionClosed,
            ),
            !self.closed && (exists|j: int|
                0 <= j < requests@.len() && (#[trigger] requests@[j]).column_index
                    >= self.table@.columns.len()) ==> r == Err::<
                Vec<ColumnProfileResult>,
                EngineError,
            >(EngineError::ColumnIndexOutOfRange),
            !self.closed && (forall|j: int|
                0 <= j < requests@.len() ==> (#[trigger] requests@[j]).column_index
                    < self.table@.columns.len()) ==> match r {
                Ok(rs) => {
                    &&& rs@.len() == requests@.len()
                    &&& forall|j: int|
                        0 <= j < requests@.len() ==> (#[trigger] rs@[j])@ == profile_result_spec(
                            self.table@,
                            requests@[j].column_index as int,
                            requests@[j].profile_type,
                            self.view_rows@,
                            format_options@,
                        )
                },
                Err(_) => false,
            },
    {
        if self.closed {
            return Err(EngineError::SessionClosed);
        }
        let nc = self.table.ncols();
        let mut j: usize = 0;
        while j < requests.len()
            invariant
                self.wf(),
                !self.closed,
                nc == self.table@.columns.len(),
                j <= requests@.len(),
                forall|k: int|
                    0 <= k < j ==> (#[trigger] requests@[k]).column_index < nc,
            decreases requests@.len() - j,
        {
            if requests[j].column_index >= nc {
                assert(requests@[j as int].column_index >= nc);
                return Err(EngineError::ColumnIndexOutOfRange);
            }
            j = j + 1;
        }
        proof {
            lemma_selected_len(
                self.table@,
                filters_view(self.filters@),
                self.table@.nrows,
            );
        }
        let mut out: Vec<ColumnProfileResult> = Vec::new();
        let mut j: usize = 0;
        while j < requests.len()
            invariant
                self.wf(),
                !self.closed,
                nc == self.table@.columns.len(),
                self.view_rows@.len() <= crate::table::MAX_ROWS,
                forall|k: int|
                    0 <= k < requests@.len() ==> (#[trigger] requests@[k]).column_index < nc,
                j <= requests@.len(),
                out@.len() == j,
                forall|k: int|
                    0 <= k < j ==> (#[trigger] out@[k])@ == profile_result_spec(
                        self.table@,
                        requests@[k].column_index as int,
                        requests@[k].profile_type,
                        self.view_rows@,
                        format_options@,
                    ),
            decreases requests@.len() - j,
        {
            let req = requests[j];
            let res = column_profile(
                &self.table,
                &self.view_rows,
                req.column_index,
                req.profile_type,
                format_options,
            );
            out.push(res);
            j = j + 1;
        }
        Ok(out)
    }

    /// Export a view-space selection as delimited text.  Bounds are
    /// validated against the current view and schema; nothing is mutated.
    pub fn export_data_selection(&self, format: ExportFormat, selection: DataSelection) -> (r:
        Result<ExportedData, EngineError>)
        requires
            self.wf(),
        ensures
            self.closed ==> r == Err::<ExportedData, EngineError>(EngineError::SessionClosed),
            !self.closed ==> match selection.selection {
                Selection::SingleCell(sc) => {
                    if sc.column_index >= self.table@.columns.len() {
                        r == Err::<ExportedData, EngineError>(EngineError::ColumnIndexOutOfRange)
                    } else if sc.row_index >= self.view_rows@.len() {
                        r == Err::<ExportedData, EngineError>(EngineError::RowIndexOutOfRange)
                    } else {
                        match r {
                            Ok(e) => e.format == format && e.data@ == cell_field(
                                self.table@,
                                self.view_rows@,
                                sc.row_index as int,
                                sc.column_index as int,
                                delim_of(format),
                            ),
                            Err(_) => false,
                        }
                    }
                },
                Selection::CellRange(cr) => {
                    if cr.first_column_index > cr.last_column_index || cr.last_column_index
                        >= self.table@.columns.len() {
                        r == Err::<ExportedData, EngineError>(EngineError::ColumnIndexOutOfRange)
                    } else if cr.first_row_index > cr.last_row_index || cr.last_row_index
                        >= self.view_rows@.len() {
                        r == Err::<ExportedData, EngineError>(EngineError::RowIndexOutOfRange)
                    } else {
                        match r {
                            Ok(e) => e.format == format && e.data@ == grid_spec(
                                self.table@,
                                self.view_rows@,
                                cr.first_row_index as int,
                                cr.last_row_index as int,
                                cr.first_column_index as int,
                                cr.last_column_index as int,
                                delim_of(format),
                            ),
                            Err(_) => false,
                        }
                    }
                },
                Selection::RowRange(rr) => {
                    if self.table@.columns.len() == 0 {
                        r == Err::<ExportedData, EngineError>(EngineError::ColumnIndexOutOfRange)
                    } else if rr.first_index > rr.last_index || rr.last_index
                        >= self.view_rows@.len() {
                        r == Err::<ExportedData, EngineError>(EngineError::RowIndexOutOfRange)
                    } else {
                        match r {
                            Ok(e) => e.format == format && e.data@ == grid_spec(
                                self.table@,
                                self.view_rows@,
                                rr.first_index as int,
                                rr.last_index as int,
                                0,
                                self.table@.columns.len() - 1,
                                delim_of(format),
                            ),
                            Err(_) => false,
                        }
                    }
                },
                Selection::ColumnRange(cr) => {
                    if cr.first_index > cr.last_index || cr.last_index
                        >= self.table@.columns.len() {
                        r == Err::<ExportedData, EngineError>(EngineError::ColumnIndexOutOfRange)
                    } else if self.view_rows@.len() == 0 {
                        r == Err::<ExportedData, EngineError>(EngineError::RowIndexOutOfRange)
                    } else {
                        match r {
                            Ok(e) => e.format == format && e.data@ == grid_spec(
                                self.table@,
                                self.view_rows@,
                                0,
                                self.view_rows@.len() - 1,
                                cr.first_index as int,
                                cr.last_index as int,
                                delim_of(format),
                            ),
                            Err(_) => false,
                        }
                    }
                },
            },
    {
        if self.closed {
            return Err(EngineError::SessionClosed);
        }
        let delim: char = match format {
            ExportFormat::Csv => ',',
            ExportFormat::Tsv => '\t',
        };
        let nc = self.table.ncols();
        let vlen = self.view_rows.len();
        match selection.selection {
            Selection::SingleCell(sc) => {
                if sc.column_index >= nc {
                    return Err(EngineError::ColumnIndexOutOfRange);
                }
                if sc.row_index >= vlen {
                    return Err(EngineError::RowIndexOutOfRange);
                }
                let data = export_grid(
                    &self.table,
                    &self.view_rows,
                    sc.row_index,
                    sc.row_index,
                    sc.column_index,
                    sc.column_index,
                    delim,
                );
                Ok(ExportedData { format, data })
            },
            Selection::CellRange(cr) => {
                if cr.first_column_index > cr.last_column_index || cr.last_column_index >= nc {
                    return Err(EngineError::ColumnIndexOutOfRange);
                }
                if cr.first_row_index > cr.last_row_index || cr.last_row_index >= vlen {
                    return Err(EngineError::RowIndexOutOfRange);
                }
                let data = export_grid(
                    &self.table,
                    &self.view_rows,
                    cr.first_row_index,
                    cr.last_row_index,
                    cr.first_column_index,
                    cr.last_column_index,
                    delim,
                );
                Ok(ExportedData { format, data })
            },
            Selection::RowRange(rr) => {
                if nc == 0 {
                    return Err(EngineError::ColumnIndexOutOfRange);
                }
                if rr.first_index > rr.last_index || rr.last_index >= vlen {
                    return Err(EngineError::RowIndexOutOfRange);
                }
                let data = export_grid(
                    &self.table,
                    &self.view_rows,
                    rr.first_index,
                    rr.last_index,
                    0,
                    nc - 1,
                    delim,
                );
                Ok(ExportedData { format, data })
            },
            Selection::ColumnRange(cr) => {
                if cr.first_index > cr.last_index || cr.last_index >= nc {
                    return Err(EngineError::ColumnIndexOutOfRange);
                }
                if vlen == 0 {
                    return Err(EngineError::RowIndexOutOfRange);
                }
                let data = export_grid(
                    &self.table,
                    &self.view_rows,
                    0,
                    vlen - 1,
                    cr.first_index,
                    cr.last_index,
                    delim,
                );
                Ok(ExportedData { format, data })
            },
        }
    }

    /// Answer a change check against a fresh snapshot (`None` when the
    /// source no longer resolves).  The stored filters survive with their
    /// cores intact and are re-validated against the new schema; sort keys
    /// whose column is gone are dropped; the view is recomputed.  No other
    /// request triggers this check implicitly: the host calls it when it
    /// has reason to suspect mutation, and between calls the view may be
    /// stale by design.
    pub fn check_for_updates(&mut self, current: Option<Table>) -> (r: UpdateEvent)
        requires
            old(self).wf(),
            match current {
                Some(t) => t.wf(),
                None => true,
            },
        ensures
            old(self).closed ==> r == UpdateEvent::Closed && *final(self) == *old(self),
            !old(self).closed ==> match current {
                None => {
                    &&& r == UpdateEvent::Closed
                    &&& final(self).closed
                    &&& final(self).wf()
                    &&& final(self).filters@.len() == 0
                    &&& final(self).sort_keys@.len() == 0
                    &&& final(self).view_rows@.len() == 0
                },
                Some(nt) => {
                    &&& r == match classify_spec(old(self).table@, nt@) {
                        ChangeKind::NoChange => UpdateEvent::NoEvent,
                        ChangeKind::DataChanged => UpdateEvent::DataUpdate,
                        ChangeKind::SchemaChanged => UpdateEvent::SchemaUpdate,
                    }
                    &&& final(self).wf()
                    &&& !final(self).closed
                    &&& final(self).table@ == nt@
                    &&& final(self).display_name == old(self).display_name
                    &&& final(self).filters@.len() == old(self).filters@.len()
                    &&& forall|i: int|
                        0 <= i < old(self).filters@.len() ==> same_core(
                            #[trigger] final(self).filters@[i]@,
                            old(self).filters@[i]@,
                        )
                    &&& forall|i: int|
                        0 <= i < old(self).filters@.len()
                            ==> (#[trigger] final(self).filters@[i]@).is_valid == Some(
                            filter_valid_spec(nt@, old(self).filters@[i]@),
                        )
                    &&& final(self).sort_keys@ == keys_kept(
                        old(self).sort_keys@,
                        nt@.columns.len() as int,
                    )
                },
            },
    {
        if self.closed {
            return UpdateEvent::Closed;
        }
        match current {
            None => {
                // The source is gone: close and discard all state.
                self.closed = true;
                self.table = Table {
                    columns: Vec::new(),
                    cells: Vec::new(),
                    nrows: 0,
                    row_names: None,
                };
                self.filters = Vec::new();
                self.sort_keys = Vec::new();
                self.view_rows = Vec::new();
                proof {
                    assert(filters_view(self.filters@) =~= Seq::<RowFilterV>::empty());
                    assert(selected_rows_of(self.table@, filters_view(self.filters@))
                        =~= Seq::<usize>::empty());
                    assert(self.view_rows@.to_multiset() =~= Seq::<usize>::empty().to_multiset());
                }
                UpdateEvent::Closed
            },
            Some(nt) => {
                let kind = classify_change(&self.table, &nt);
                let ghost oldfs = filters_view(self.filters@);
                self.table = nt;
                let nc = self.table.ncols();
                let kept = keys_kept_exec(&self.sort_keys, nc);
                proof {
                    lemma_keys_kept_in_range(self.sort_keys@, nc as int);
                }
                self.sort_keys = kept;
                let stored = revalidate_filters(&self.table, &self.filters);
                proof {
                    assert forall|i: int| 0 <= i < stored@.len() implies {
                        &&& (#[trigger] stored@[i]@).is_valid == Some(
                            filter_valid_spec(self.table@, stored@[i]@),
                        )
                        &&& (stored@[i]@.error_message is Some <==> !filter_valid_spec(
                            self.table@,
                            stored@[i]@,
                        ))
                    } by {
                        crate::filter::lemma_valid_same_core(
                            self.table@,
                            stored@[i]@,
                            self.filters@[i]@,
                        );
                    }
                }
                self.filters = stored;
                self.view_rows = compute_view(&self.table, &self.filters, &self.sort_keys);
                match kind {
                    ChangeKind::NoChange => UpdateEvent::NoEvent,
                    ChangeKind::DataChanged => UpdateEvent::DataUpdate,
                    ChangeKind::SchemaChanged => UpdateEvent::SchemaUpdate,
                }
            },
        }
    }
}

} // verus!
