//! Stable multi-key sorting of the selected rows.
//!
//! Rows are ordered by the first sort key, ties broken by the later keys in
//! list order, and final ties broken by source row order.  Within one key,
//! ordered cells (numbers with the infinities, text by UTF-8 bytes, truth
//! values with false first) follow the key's direction; missing,
//! not-a-number, and absent cells always come last, in that fixed order,
//! whatever the direction.  The combined order is strict and total over
//! distinct rows, so the sorted sequence is unique.

use vstd::prelude::*;
use crate::cells::{Cell, CellV};
use crate::fixed::FIXED_SCALE;
use crate::table::{Table, TableV};
use crate::textsearch::lex_cmp_seq;
use crate::filter::bytes_of;

verus! {

/// One sort key: a column and a direction.
#[derive(Clone, Copy, PartialEq, Eq, Structural, Debug)]
pub struct ColumnSortKey {
    pub column_index: usize,
    pub ascending: bool,
}

/// Rank of a cell's kind in the sort order.  Kinds below `special_class`
/// are ordered values; the rest always sort last.
pub open spec fn cell_class(c: CellV) -> int {
    match c {
        CellV::NegInfinite => 0,
        CellV::Number(_) => 1,
        CellV::Whole(_) => 1,
        CellV::Infinite => 2,
        CellV::Text(_) => 3,
        CellV::Logical(_) => 4,
        CellV::Missing => 5,
        CellV::NotANumber => 6,
        CellV::Absent => 7,
    }
}

/// First class that ignores the sort direction.
pub open spec fn special_class() -> int {
    5
}

/// Scaled numeric value of a finite numeric cell.
pub open spec fn numeric_of(c: CellV) -> int {
    match c {
        CellV::Number(m) => m,
        CellV::Whole(w) => w * FIXED_SCALE,
        _ => 0,
    }
}

/// Three-way comparison of two cells, before the direction is applied:
/// by class, then numbers by value, text by UTF-8 bytes, truth values
/// with false first.
pub open spec fn cell_cmp_spec(a: CellV, b: CellV) -> int {
    let ca = cell_class(a);
    let cb = cell_class(b);
    if ca < cb {
        -1
    } else if ca > cb {
        1
    } else if ca == 1 {
        let va = numeric_of(a);
        let vb = numeric_of(b);
        if va < vb {
            -1
        } else if va > vb {
            1
        } else {
            0
        }
    } else if ca == 3 {
        lex_cmp_seq(bytes_of(a->Text_0), bytes_of(b->Text_0))
    } else if ca == 4 {
        let va = a->Logical_0;
        let vb = b->Logical_0;
        if va == vb {
            0
        } else if vb {
            -1
        } else {
            1
        }
    } else {
        0
    }
}

/// Three-way comparison under one key's direction: special cells last in
/// their fixed order, ordered cells by `cell_cmp_spec`, flipped when
/// descending.
pub open spec fn key_cmp_spec(a: CellV, b: CellV, ascending: bool) -> int {
    let sa = cell_class(a) >= special_class();
    let sb = cell_class(b) >= special_class();
    if sa && sb {
        cell_cmp_spec(a, b)
    } else if sa {
        1
    } else if sb {
        -1
    } else if ascending {
        cell_cmp_spec(a, b)
    } else {
        -cell_cmp_spec(a, b)
    }
}

/// Three-way comparison of two rows under the key list.
pub open spec fn row_cmp_spec(t: TableV, keys: Seq<ColumnSortKey>, a: int, b: int) -> int
    decreases keys.len(),
{
    if keys.len() == 0 {
        0
    } else {
        let k = keys[0];
        let c = key_cmp_spec(
            t.cells[k.column_index as int][a],
            t.cells[k.column_index as int][b],
            k.ascending,
        );
        if c != 0 {
            c
        } else {
            row_cmp_spec(t, keys.drop_first(), a, b)
        }
    }
}

/// The strict total order rows are emitted in: by the keys, final ties by
/// source position.
pub open spec fn row_before(t: TableV, keys: Seq<ColumnSortKey>, a: int, b: int) -> bool {
    row_cmp_spec(t, keys, a, b) < 0 || (row_cmp_spec(t, keys, a, b) == 0 && a < b)
}

/// Rows whose keys all compare equal.
pub open spec fn rows_key_equal(t: TableV, keys: Seq<ColumnSortKey>, a: int, b: int) -> bool {
    row_cmp_spec(t, keys, a, b) == 0
}

proof fn lemma_lex_cmp_antisym(a: Seq<u8>, b: Seq<u8>)
    ensures
        lex_cmp_seq(a, b) == -lex_cmp_seq(b, a),
    decreases a.len() + b.len(),
{
    if a.len() > 0 && b.len() > 0 && a[0] == b[0] {
        lemma_lex_cmp_antisym(a.drop_first(), b.drop_first());
    }
}

proof fn lemma_lex_cmp_zero(a: Seq<u8>, b: Seq<u8>)
    requires
        lex_cmp_seq(a, b) == 0,
    ensures
        a == b,
    decreases a.len(),
{
    if a.len() == 0 && b.len() == 0 {
        assert(a =~= b);
    } else {
        assert(a.len() > 0 && b.len() > 0 && a[0] == b[0]);
        lemma_lex_cmp_zero(a.drop_first(), b.drop_first());
        assert(a.drop_first().len() == b.drop_first().len());
        assert forall|i: int| 0 <= i < a.len() implies a[i] == b[i] by {
            if i > 0 {
                assert(a[i] == a.drop_first()[i - 1]);
                assert(b[i] == b.drop_first()[i - 1]);
            }
        }
        assert(a =~= b);
    }
}

proof fn lemma_lex_cmp_trans(a: Seq<u8>, b: Seq<u8>, c: Seq<u8>)
    requires
        lex_cmp_seq(a, b) <= 0,
        lex_cmp_seq(b, c) <= 0,
    ensures
        lex_cmp_seq(a, c) <= 0,
        lex_cmp_seq(a, b) < 0 || lex_cmp_seq(b, c) < 0 ==> lex_cmp_seq(a, c) < 0,
    decreases a.len() + b.len() + c.len(),
{
    if lex_cmp_seq(a, b) == 0 {
        lemma_lex_cmp_zero(a, b);
    } else if lex_cmp_seq(b, c) == 0 {
        lemma_lex_cmp_zero(b, c);
    } else {
        // both strictly less
        if a.len() == 0 {
        } else {
            // a, b, c all non-empty here: a < b needs b non-empty; b < c needs c non-empty
            if a[0] == b[0] && b[0] == c[0] {
                lemma_lex_cmp_trans(a.drop_first(), b.drop_first(), c.drop_first());
            }
        }
    }
}

/// Cells that compare equal are indistinguishable to the comparator.
proof fn lemma_cell_cmp_subst(a: CellV, b: CellV)
    requires
        cell_cmp_spec(a, b) == 0,
    ensures
        forall|c: CellV| cell_cmp_spec(a, c) == cell_cmp_spec(b, c),
        forall|c: CellV| cell_cmp_spec(c, a) == cell_cmp_spec(c, b),
        cell_class(a) == cell_class(b),
{
    if cell_class(a) == 3 {
        lemma_lex_cmp_zero(bytes_of(a->Text_0), bytes_of(b->Text_0));
    }
    assert forall|c: CellV| cell_cmp_spec(a, c) == cell_cmp_spec(b, c) by {
        if cell_class(a) == 3 && cell_class(c) == 3 {
        }
    }
    assert forall|c: CellV| cell_cmp_spec(c, a) == cell_cmp_spec(c, b) by {
        if cell_class(a) == 3 && cell_class(c) == 3 {
        }
    }
}

proof fn lemma_cell_cmp_antisym(a: CellV, b: CellV)
    ensures
        cell_cmp_spec(a, b) == -cell_cmp_spec(b, a),
{
    if cell_class(a) == 3 && cell_class(b) == 3 {
        lemma_lex_cmp_antisym(bytes_of(a->Text_0), bytes_of(b->Text_0));
    }
}

proof fn lemma_cell_cmp_trans(a: CellV, b: CellV, c: CellV)
    requires
        cell_cmp_spec(a, b) <= 0,
        cell_cmp_spec(b, c) <= 0,
    ensures
        cell_cmp_spec(a, c) <= 0,
        cell_cmp_spec(a, b) < 0 || cell_cmp_spec(b, c) < 0 ==> cell_cmp_spec(a, c) < 0,
{
    if cell_class(a) == 3 && cell_class(b) == 3 && cell_class(c) == 3 {
        lemma_lex_cmp_trans(bytes_of(a->Text_0), bytes_of(b->Text_0), bytes_of(c->Text_0));
    }
}

proof fn lemma_key_cmp_antisym(a: CellV, b: CellV, asc: bool)
    ensures
        key_cmp_spec(a, b, asc) == -key_cmp_spec(b, a, asc),
{
    lemma_cell_cmp_antisym(a, b);
}

proof fn lemma_key_cmp_subst(a: CellV, b: CellV, asc: bool)
    requires
        key_cmp_spec(a, b, asc) == 0,
    ensures
        forall|c: CellV| key_cmp_spec(a, c, asc) == key_cmp_spec(b, c, asc),
        forall|c: CellV| key_cmp_spec(c, a, asc) == key_cmp_spec(c, b, asc),
{
    assert(cell_cmp_spec(a, b) == 0);
    lemma_cell_cmp_subst(a, b);
}

proof fn lemma_key_cmp_trans(a: CellV, b: CellV, c: CellV, asc: bool)
    requires
        key_cmp_spec(a, b, asc) <= 0,
        key_cmp_spec(b, c, asc) <= 0,
    ensures
        key_cmp_spec(a, c, asc) <= 0,
        key_cmp_spec(a, b, asc) < 0 || key_cmp_spec(b, c, asc) < 0 ==> key_cmp_spec(a, c, asc)
            < 0,
{
    if key_cmp_spec(a, b, asc) == 0 {
        lemma_key_cmp_subst(a, b, asc);
    } else if key_cmp_spec(b, c, asc) == 0 {
        lemma_key_cmp_subst(b, c, asc);
        lemma_key_cmp_antisym(b, c, asc);
    } else {
        let sa = cell_class(a) >= special_class();
        let sb = cell_class(b) >= special_class();
        let sc = cell_class(c) >= special_class();
        if !sa && !sb && !sc {
            if asc {
                lemma_cell_cmp_trans(a, b, c);
            } else {
                lemma_cell_cmp_antisym(a, b);
                lemma_cell_cmp_antisym(b, c);
                lemma_cell_cmp_antisym(a, c);
                lemma_cell_cmp_trans(c, b, a);
            }
        } else if sa && sb && sc {
            lemma_cell_cmp_trans(a, b, c);
        }
    }
}

/// Row comparison is antisymmetric.
pub proof fn lemma_row_cmp_antisym(t: TableV, keys: Seq<ColumnSortKey>, a: int, b: int)
    ensures
        row_cmp_spec(t, keys, a, b) == -row_cmp_spec(t, keys, b, a),
    decreases keys.len(),
{
    if keys.len() > 0 {
        let k = keys[0];
        lemma_key_cmp_antisym(
            t.cells[k.column_index as int][a],
            t.cells[k.column_index as int][b],
            k.ascending,
        );
        lemma_row_cmp_antisym(t, keys.drop_first(), a, b);
    }
}

/// Row comparison is transitive, strictly so when a step is strict.
pub proof fn lemma_row_cmp_trans(t: TableV, keys: Seq<ColumnSortKey>, a: int, b: int, c: int)
    requires
        row_cmp_spec(t, keys, a, b) <= 0,
        row_cmp_spec(t, keys, b, c) <= 0,
    ensures
        row_cmp_spec(t, keys, a, c) <= 0,
        row_cmp_spec(t, keys, a, b) < 0 || row_cmp_spec(t, keys, b, c) < 0 ==> row_cmp_spec(
            t,
            keys,
            a,
            c,
        ) < 0,
    decreases keys.len(),
{
    if keys.len() > 0 {
        let k = keys[0];
        let ka = t.cells[k.column_index as int][a];
        let kb = t.cells[k.column_index as int][b];
        let kc = t.cells[k.column_index as int][c];
        let cab = key_cmp_spec(ka, kb, k.ascending);
        let cbc = key_cmp_spec(kb, kc, k.ascending);
        if cab > 0 || cbc > 0 {
            // impossible: the whole comparison would be positive
            if cab > 0 {
                assert(row_cmp_spec(t, keys, a, b) > 0);
            } else {
                assert(row_cmp_spec(t, keys, b, c) > 0);
            }
        } else {
            lemma_key_cmp_trans(ka, kb, kc, k.ascending);
            if cab == 0 && cbc == 0 {
                lemma_key_cmp_subst(ka, kb, k.ascending);
                lemma_row_cmp_trans(t, keys.drop_first(), a, b, c);
            } else {
                // the first differing key decides strictly
                assert(key_cmp_spec(ka, kc, k.ascending) < 0);
            }
        }
    }
}

/// The emission order is a strict total order over distinct rows.
pub proof fn lemma_row_before_total(t: TableV, keys: Seq<ColumnSortKey>, a: int, b: int)
    requires
        a != b,
    ensures
        row_before(t, keys, a, b) <==> !row_before(t, keys, b, a),
{
    lemma_row_cmp_antisym(t, keys, a, b);
}

/// The emission order is transitive.
pub proof fn lemma_row_before_trans(t: TableV, keys: Seq<ColumnSortKey>, a: int, b: int, c: int)
    requires
        row_before(t, keys, a, b),
        row_before(t, keys, b, c),
    ensures
        row_before(t, keys, a, c),
{
    lemma_row_cmp_trans(t, keys, a, b, c);
}

/// Every key names a column of the table.
pub open spec fn keys_in_range(t: TableV, keys: Seq<ColumnSortKey>) -> bool {
    forall|i: int| 0 <= i < keys.len() ==> (#[trigger] keys[i]).column_index < t.columns.len()
}

/// The sequence is strictly ordered by the emission order.
pub open spec fn sorted_rows(t: TableV, keys: Seq<ColumnSortKey>, s: Seq<usize>) -> bool {
    forall|i: int, j: int|
        0 <= i < j < s.len() ==> row_before(t, keys, #[trigger] s[i] as int, #[trigger] s[j] as int)
}

/// Exec face of `cell_cmp_spec`.
fn cell_cmp_exec(a: &Cell, b: &Cell) -> (r: i8)
    requires
        a.wf(),
        b.wf(),
    ensures
        r as int == cell_cmp_spec(a@, b@),
        -1 <= r <= 1,
{
    let ca = cell_class_exec(a);
    let cb = cell_class_exec(b);
    if ca < cb {
        -1
    } else if ca > cb {
        1
    } else if ca == 1 {
        let va: i64 = match a {
            Cell::Number(m) => m.scaled,
            Cell::Whole(w) => *w * FIXED_SCALE,
            _ => 0,
        };
        let vb: i64 = match b {
            Cell::Number(m) => m.scaled,
            Cell::Whole(w) => *w * FIXED_SCALE,
            _ => 0,
        };
        if va < vb {
            -1
        } else if va > vb {
            1
        } else {
            0
        }
    } else if ca == 3 {
        match (a, b) {
            (Cell::Text(x), Cell::Text(y)) => crate::textsearch::str_cmp(x.as_str(), y.as_str()),
            _ => {
                assert(false);
                0
            },
        }
    } else if ca == 4 {
        match (a, b) {
            (Cell::Logical(x), Cell::Logical(y)) => {
                if *x == *y {
                    0
                } else if *y {
                    -1
                } else {
                    1
                }
            },
            _ => {
                assert(false);
                0
            },
        }
    } else {
        0
    }
}

/// Exec face of `cell_class`.
fn cell_class_exec(c: &Cell) -> (r: u8)
    ensures
        r as int == cell_class(c@),
{
    match c {
        Cell::NegInfinite => 0,
        Cell::Number(_) => 1,
        Cell::Whole(_) => 1,
        Cell::Infinite => 2,
        Cell::Text(_) => 3,
        Cell::Logical(_) => 4,
        Cell::Missing => 5,
        Cell::NotANumber => 6,
        Cell::Absent => 7,
    }
}

/// Exec face of `key_cmp_spec`.
fn key_cmp_exec(a: &Cell, b: &Cell, ascending: bool) -> (r: i8)
    requires
        a.wf(),
        b.wf(),
    ensures
        r as int == key_cmp_spec(a@, b@, ascending),
        -1 <= r <= 1,
{
    let sa = cell_class_exec(a) >= 5;
    let sb = cell_class_exec(b) >= 5;
    if sa && sb {
        cell_cmp_exec(a, b)
    } else if sa {
        1
    } else if sb {
        -1
    } else if ascending {
        cell_cmp_exec(a, b)
    } else {
        let c = cell_cmp_exec(a, b);
        -c
    }
}

/// Deciding by the keys after an all-equal prefix decides the whole list.
proof fn lemma_row_cmp_skip(t: TableV, keys: Seq<ColumnSortKey>, i: int, a: int, b: int)
    requires
        0 <= i <= keys.len(),
        forall|j: int|
            0 <= j < i ==> key_cmp_spec(
                t.cells[(#[trigger] keys[j]).column_index as int][a],
                t.cells[keys[j].column_index as int][b],
                keys[j].ascending,
            ) == 0,
    ensures
        row_cmp_spec(t, keys, a, b) == row_cmp_spec(t, keys.skip(i), a, b),
    decreases i,
{
    if i > 0 {
        assert(keys.drop_first().skip(i - 1) =~= keys.skip(i));
        assert(forall|j: int| 0 <= j < i - 1 ==> keys.drop_first()[j] == keys[j + 1]);
        lemma_row_cmp_skip(t, keys.drop_first(), i - 1, a, b);
    } else {
        assert(keys.skip(0) =~= keys);
    }
}

/// Exec face of `row_cmp_spec`.
fn row_cmp_exec(t: &Table, keys: &Vec<ColumnSortKey>, a: usize, b: usize) -> (r: i8)
    requires
        t.wf(),
        keys_in_range(t@, keys@),
        a < t@.nrows,
        b < t@.nrows,
    ensures
        r as int == row_cmp_spec(t@, keys@, a as int, b as int),
        -1 <= r <= 1,
{
    let n = keys.len();
    let mut i: usize = 0;
    while i < n
        invariant
            t.wf(),
            keys_in_range(t@, keys@),
            a < t@.nrows,
            b < t@.nrows,
            n == keys@.len(),
            i <= n,
            forall|j: int|
                0 <= j < i ==> key_cmp_spec(
                    t@.cells[(#[trigger] keys@[j]).column_index as int][a as int],
                    t@.cells[keys@[j].column_index as int][b as int],
                    keys@[j].ascending,
                ) == 0,
        decreases n - i,
    {
        let k = keys[i];
        let ca = t.cell_at(k.column_index, a);
        let cb = t.cell_at(k.column_index, b);
        let c = key_cmp_exec(ca, cb, k.ascending);
        if c != 0 {
            proof {
                lemma_row_cmp_skip(t@, keys@, i as int, a as int, b as int);
                assert(keys@.skip(i as int)[0] == keys@[i as int]);
                assert(keys@.skip(i as int).drop_first() =~= keys@.skip(i + 1));
            }
            return c;
        }
        i = i + 1;
    }
    proof {
        lemma_row_cmp_skip(t@, keys@, n as int, a as int, b as int);
        assert(keys@.skip(n as int).len() == 0);
    }
    0
}

/// Exec face of `row_before`.
fn row_before_exec(t: &Table, keys: &Vec<ColumnSortKey>, a: usize, b: usize) -> (r: bool)
    requires
        t.wf(),
        keys_in_range(t@, keys@),
        a < t@.nrows,
        b < t@.nrows,
    ensures
        r == row_before(t@, keys@, a as int, b as int),
{
    let c = row_cmp_exec(t, keys, a, b);
    c < 0 || (c == 0 && a < b)
}

/// First position in the sorted run where `x` goes: everything before it
/// precedes `x`, everything from it on follows `x`.
fn find_insert_pos(t: &Table, keys: &Vec<ColumnSortKey>, out: &Vec<usize>, x: usize) -> (pos:
    usize)
    requires
        t.wf(),
        keys_in_range(t@, keys@),
        x < t@.nrows,
        forall|i: int| 0 <= i < out@.len() ==> (#[trigger] out@[i]) < t@.nrows,
        forall|i: int| 0 <= i < out@.len() ==> (#[trigger] out@[i]) != x,
        sorted_rows(t@, keys@, out@),
    ensures
        pos <= out@.len(),
        forall|i: int|
            0 <= i < pos ==> row_before(t@, keys@, #[trigger] out@[i] as int, x as int),
        forall|i: int|
            pos <= i < out@.len() ==> row_before(t@, keys@, x as int, #[trigger] out@[i] as int),
{
    let n = out.len();
    let mut i: usize = 0;
    while i < n
        invariant
            t.wf(),
            keys_in_range(t@, keys@),
            x < t@.nrows,
            forall|k: int| 0 <= k < out@.len() ==> (#[trigger] out@[k]) < t@.nrows,
            forall|k: int| 0 <= k < out@.len() ==> (#[trigger] out@[k]) != x,
            sorted_rows(t@, keys@, out@),
            n == out@.len(),
            i <= n,
            forall|k: int|
                0 <= k < i ==> row_before(t@, keys@, #[trigger] out@[k] as int, x as int),
        decreases n - i,
    {
        if row_before_exec(t, keys, x, out[i]) {
            assert forall|k: int|
                i <= k < out@.len() implies row_before(
                t@,
                keys@,
                x as int,
                #[trigger] out@[k] as int,
            ) by {
                if k > i {
                    lemma_row_before_trans(
                        t@,
                        keys@,
                        x as int,
                        out@[i as int] as int,
                        out@[k] as int,
                    );
                }
            }
            return i;
        }
        proof {
            lemma_row_before_total(t@, keys@, x as int, out@[i as int] as int);
        }
        i = i + 1;
    }
    n
}

/// Stable multi-key sort: emit the given distinct rows in the strict total
/// order `row_before`.  The output is the unique reordering of `rows` that
/// is sorted by the keys with ties left in source order.
pub fn sort_rows(t: &Table, keys: &Vec<ColumnSortKey>, rows: &Vec<usize>) -> (out: Vec<usize>)
    requires
        t.wf(),
        keys_in_range(t@, keys@),
        forall|i: int| 0 <= i < rows@.len() ==> (#[trigger] rows@[i]) < t@.nrows,
        forall|i: int, j: int| 0 <= i < j < rows@.len() ==> rows@[i] < rows@[j],
    ensures
        out@.len() == rows@.len(),
        out@.to_multiset() == rows@.to_multiset(),
        sorted_rows(t@, keys@, out@),
        forall|i: int| 0 <= i < out@.len() ==> (#[trigger] out@[i]) < t@.nrows,
{
    broadcast use vstd::seq_lib::group_to_multiset_ensures;
    broadcast use vstd::seq_lib::to_multiset_insert;

    let n = rows.len();
    let mut out: Vec<usize> = Vec::new();
    proof {
        assert(rows@.take(0) =~= Seq::<usize>::empty());
        assert(out@.to_multiset() =~= rows@.take(0).to_multiset());
    }
    let mut k: usize = 0;
    while k < n
        invariant
            t.wf(),
            keys_in_range(t@, keys@),
            n == rows@.len(),
            forall|i: int| 0 <= i < rows@.len() ==> (#[trigger] rows@[i]) < t@.nrows,
            forall|i: int, j: int| 0 <= i < j < rows@.len() ==> rows@[i] < rows@[j],
            k <= n,
            out@.len() == k,
            out@.to_multiset() == rows@.take(k as int).to_multiset(),
            sorted_rows(t@, keys@, out@),
            forall|i: int| 0 <= i < out@.len() ==> (#[trigger] out@[i]) < t@.nrows,
            forall|i: int|
                0 <= i < out@.len() ==> exists|j: int|
                    0 <= j < k && (#[trigger] out@[i]) == rows@[j],
        decreases n - k,
    {
        let x = rows[k];
        assert forall|i: int| 0 <= i < out@.len() implies (#[trigger] out@[i]) != x by {
            let j = choose|j: int| 0 <= j < k && out@[i] == rows@[j];
            assert(rows@[j] < rows@[k as int]);
        }
        let pos = find_insert_pos(t, keys, &out, x);
        let ghost old_out = out@;
        out.insert(pos, x);
        proof {
            assert(out@ == old_out.insert(pos as int, x));
            vstd::seq_lib::to_multiset_insert::<usize>(old_out, pos as int, x);
            vstd::seq_lib::to_multiset_build::<usize>(rows@.take(k as int), x);
            assert(rows@.take(k + 1) =~= rows@.take(k as int).push(x));
            assert(out@.to_multiset() =~= rows@.take(k + 1).to_multiset());
            assert forall|i: int, j: int|
                0 <= i < j < out@.len() implies row_before(
                t@,
                keys@,
                #[trigger] out@[i] as int,
                #[trigger] out@[j] as int,
            ) by {
                if j < pos {
                    assert(out@[i] == old_out[i] && out@[j] == old_out[j]);
                } else if i > pos {
                    assert(out@[i] == old_out[i - 1] && out@[j] == old_out[j - 1]);
                } else if i < pos && j == pos {
                    assert(out@[i] == old_out[i] && out@[j] == x);
                } else if i == pos {
                    assert(out@[i] == x && out@[j] == old_out[j - 1]);
                } else {
                    // i < pos < j
                    assert(out@[i] == old_out[i] && out@[j] == old_out[j - 1]);
                    lemma_row_before_trans(
                        t@,
                        keys@,
                        old_out[i] as int,
                        x as int,
                        old_out[j - 1] as int,
                    );
                }
            }
            assert forall|i: int|
                0 <= i < out@.len() implies exists|j: int|
                0 <= j < k + 1 && (#[trigger] out@[i]) == rows@[j] by {
                if i < pos {
                    assert(out@[i] == old_out[i]);
                    let j = choose|j: int| 0 <= j < k && old_out[i] == rows@[j];
                    assert(0 <= j < k + 1 && out@[i] == rows@[j]);
                } else if i == pos {
                    assert(out@[i] == rows@[k as int]);
                } else {
                    assert(out@[i] == old_out[i - 1]);
                    let j = choose|j: int| 0 <= j < k && old_out[i - 1] == rows@[j];
                    assert(0 <= j < k + 1 && out@[i] == rows@[j]);
                }
            }
        }
        k = k + 1;
    }
    proof {
        assert(rows@.take(n as int) =~= rows@);
    }
    out
}

/// Two sequences of distinct rows sorted by the same strict total order
/// and holding the same rows are equal: the view mapping is unique.
pub proof fn lemma_sorted_unique(
    t: TableV,
    keys: Seq<ColumnSortKey>,
    s1: Seq<usize>,
    s2: Seq<usize>,
)
    requires
        s1.to_multiset() == s2.to_multiset(),
        sorted_rows(t, keys, s1),
        sorted_rows(t, keys, s2),
    ensures
        s1 == s2,
    decreases s1.len(),
{
    s1.to_multiset_ensures();
    s2.to_multiset_ensures();
    assert(s1.len() == s1.to_multiset().len());
    assert(s2.len() == s2.to_multiset().len());
    assert(s1.len() == s2.len());
    if s1.len() == 0 {
        assert(s1 =~= s2);
    } else {
        // the heads are equal: each head is the minimum of the shared multiset
        let a = s1[0];
        let b = s2[0];
        if a != b {
            assert(s2.contains(b)) by {
                assert(s2[0] == b);
            }
            assert(s1.to_multiset().count(b) > 0);
            assert(s1.contains(b));
            let ib = choose|i: int| 0 <= i < s1.len() && s1[i] == b;
            assert(ib != 0);
            assert(row_before(t, keys, s1[0] as int, s1[ib] as int));
            assert(s1.contains(a)) by {
                assert(s1[0] == a);
            }
            assert(s2.to_multiset().count(a) > 0);
            assert(s2.contains(a));
            let ia = choose|i: int| 0 <= i < s2.len() && s2[i] == a;
            assert(ia != 0);
            assert(row_before(t, keys, s2[0] as int, s2[ia] as int));
            // a before b and b before a: contradiction
            lemma_row_before_total(t, keys, a as int, b as int);
            assert(false);
        }
        assert(s1.drop_first().to_multiset() =~= s2.drop_first().to_multiset()) by {
            vstd::seq_lib::to_multiset_remove::<usize>(s1, 0);
            vstd::seq_lib::to_multiset_remove::<usize>(s2, 0);
            assert(s1.remove(0) =~= s1.drop_first());
            assert(s2.remove(0) =~= s2.drop_first());
        }
        assert(sorted_rows(t, keys, s1.drop_first())) by {
            assert(forall|i: int|
                0 <= i < s1.drop_first().len() ==> #[trigger] s1.drop_first()[i] == s1[i + 1]);
        }
        assert(sorted_rows(t, keys, s2.drop_first())) by {
            assert(forall|i: int|
                0 <= i < s2.drop_first().len() ==> #[trigger] s2.drop_first()[i] == s2[i + 1]);
        }
        lemma_sorted_unique(t, keys, s1.drop_first(), s2.drop_first());
        assert forall|i: int| 0 <= i < s1.len() implies s1[i] == s2[i] by {
            if i > 0 {
                assert(s1[i] == s1.drop_first()[i - 1]);
                assert(s2[i] == s2.drop_first()[i - 1]);
            }
        }
        assert(s1 =~= s2);
    }
}

} // verus!
