//! Column profiles over the current view: null counts and summary
//! statistics.
//!
//! Every profile is computed over the rows of the view mapping only, never
//! over the whole source.  Numeric summaries work on the scaled finite
//! values of the column: minimum, maximum, mean and median rounded half
//! away from zero to the engine's scale, and the sample standard deviation
//! rounded down to it.  Text summaries count empty values and distinct
//! values (all null markers collapse to one value each); boolean summaries
//! count the true and the false cells.

use vstd::prelude::*;
use vstd::arithmetic::div_mod::{
    lemma_div_is_ordered, lemma_div_multiples_vanish_fancy, lemma_div_pos_is_pos,
};
use crate::cells::{Cell, CellV, cell_is_null, FormatOptions, FormatOptionsV, chosen_digits};
use crate::fixed::{FIXED_MAX, FIXED_SCALE};
use crate::numfmt::format_scaled_spec;
use crate::table::{Table, TableV, TypeCategory, MAX_ROWS};

verus! {

/// Which profile is asked of a column.
#[derive(Clone, Copy, PartialEq, Eq, Structural, Debug)]
pub enum ColumnProfileType {
    NullCount,
    SummaryStats,
}

/// One profile request.
#[derive(Clone, Copy, PartialEq, Eq, Structural, Debug)]
pub struct ColumnProfileRequest {
    pub column_index: usize,
    pub profile_type: ColumnProfileType,
}

/// Summary of a number column, as display strings.
#[derive(Clone, Debug)]
pub struct SummaryStatsNumber {
    pub min_value: Option<String>,
    pub max_value: Option<String>,
    pub mean: Option<String>,
    pub median: Option<String>,
    pub stdev: Option<String>,
}

/// Mathematical value of a number summary.
pub struct SummaryStatsNumberV {
    pub min_value: Option<Seq<char>>,
    pub max_value: Option<Seq<char>>,
    pub mean: Option<Seq<char>>,
    pub median: Option<Seq<char>>,
    pub stdev: Option<Seq<char>>,
}

impl View for SummaryStatsNumber {
    type V = SummaryStatsNumberV;

    open spec fn view(&self) -> SummaryStatsNumberV {
        SummaryStatsNumberV {
            min_value: match self.min_value {
                Some(s) => Some(s@),
                None => None,
            },
            max_value: match self.max_value {
                Some(s) => Some(s@),
                None => None,
            },
            mean: match self.mean {
                Some(s) => Some(s@),
                None => None,
            },
            median: match self.median {
                Some(s) => Some(s@),
                None => None,
            },
            stdev: match self.stdev {
                Some(s) => Some(s@),
                None => None,
            },
        }
    }
}

impl PartialEq for SummaryStatsNumber {
    fn eq(&self, o: &SummaryStatsNumber) -> (r: bool) {
        opt_string_eq(&self.min_value, &o.min_value) && opt_string_eq(
            &self.max_value,
            &o.max_value,
        ) && opt_string_eq(&self.mean, &o.mean) && opt_string_eq(&self.median, &o.median)
            && opt_string_eq(&self.stdev, &o.stdev)
    }
}

impl vstd::std_specs::cmp::PartialEqSpecImpl for SummaryStatsNumber {
    open spec fn obeys_eq_spec() -> bool {
        true
    }

    open spec fn eq_spec(&self, o: &SummaryStatsNumber) -> bool {
        self@ == o@
    }
}

/// Equality of two optional strings by their characters.
fn opt_string_eq(a: &Option<String>, b: &Option<String>) -> (r: bool)
    ensures
        r == (match (a, b) {
            (Some(x), Some(y)) => x@ == y@,
            (None, None) => true,
            _ => false,
        }),
{
    match (a, b) {
        (Some(x), Some(y)) => *x == *y,
        (None, None) => true,
        _ => false,
    }
}

/// Summary of a text column.
#[derive(Clone, Copy, PartialEq, Eq, Structural, Debug)]
pub struct SummaryStatsString {
    /// How many view cells hold the empty text.
    pub num_empty: u64,
    /// How many distinct cell values the view holds.
    pub num_unique: u64,
}

/// Summary of a boolean column.
#[derive(Clone, Copy, PartialEq, Eq, Structural, Debug)]
pub struct SummaryStatsBoolean {
    pub true_count: u64,
    pub false_count: u64,
}

/// The summary matching the column's category.
#[derive(Clone, Debug)]
pub struct ColumnSummaryStats {
    pub number_stats: Option<SummaryStatsNumber>,
    pub string_stats: Option<SummaryStatsString>,
    pub boolean_stats: Option<SummaryStatsBoolean>,
}

/// One profile reply.
#[derive(Clone, Debug)]
pub struct ColumnProfileResult {
    pub null_count: Option<u64>,
    pub summary_stats: Option<ColumnSummaryStats>,
}

/// Mathematical value of a summary bundle.
pub struct ColumnSummaryStatsV {
    pub number_stats: Option<SummaryStatsNumberV>,
    pub string_stats: Option<SummaryStatsString>,
    pub boolean_stats: Option<SummaryStatsBoolean>,
}

impl View for ColumnSummaryStats {
    type V = ColumnSummaryStatsV;

    open spec fn view(&self) -> ColumnSummaryStatsV {
        ColumnSummaryStatsV {
            number_stats: match self.number_stats {
                Some(s) => Some(s@),
                None => None,
            },
            string_stats: self.string_stats,
            boolean_stats: self.boolean_stats,
        }
    }
}

/// Mathematical value of a profile reply.
pub struct ColumnProfileResultV {
    pub null_count: Option<u64>,
    pub summary_stats: Option<ColumnSummaryStatsV>,
}

impl View for ColumnProfileResult {
    type V = ColumnProfileResultV;

    open spec fn view(&self) -> ColumnProfileResultV {
        ColumnProfileResultV {
            null_count: self.null_count,
            summary_stats: match self.summary_stats {
                Some(s) => Some(s@),
                None => None,
            },
        }
    }
}

/// The cells of column `col` at the view rows, in view order.
pub open spec fn view_cells(t: TableV, col: int, view: Seq<usize>) -> Seq<CellV> {
    view.map_values(|r: usize| t.cells[col][r as int])
}

/// Number of null cells in the sequence.
pub open spec fn null_count_spec(cells: Seq<CellV>) -> int
    decreases cells.len(),
{
    if cells.len() == 0 {
        0
    } else {
        null_count_spec(cells.drop_last()) + if cell_is_null(cells.last()) {
            1int
        } else {
            0int
        }
    }
}

/// The scaled values of the finite numeric cells, in order.
pub open spec fn finite_vals(cells: Seq<CellV>) -> Seq<int>
    decreases cells.len(),
{
    if cells.len() == 0 {
        Seq::<int>::empty()
    } else {
        finite_vals(cells.drop_last()) + match cells.last() {
            CellV::Number(m) => seq![m],
            CellV::Whole(w) => seq![w * FIXED_SCALE],
            _ => Seq::<int>::empty(),
        }
    }
}

/// Least element of a non-empty sequence.
pub open spec fn seq_min(s: Seq<int>) -> int
    decreases s.len(),
{
    if s.len() <= 1 {
        s[0]
    } else {
        let rest = seq_min(s.drop_last());
        if s.last() < rest {
            s.last()
        } else {
            rest
        }
    }
}

/// Greatest element of a non-empty sequence.
pub open spec fn seq_max(s: Seq<int>) -> int
    decreases s.len(),
{
    if s.len() <= 1 {
        s[0]
    } else {
        let rest = seq_max(s.drop_last());
        if s.last() > rest {
            s.last()
        } else {
            rest
        }
    }
}

/// Sum of a sequence.
pub open spec fn int_sum(s: Seq<int>) -> int
    decreases s.len(),
{
    if s.len() == 0 {
        0
    } else {
        int_sum(s.drop_last()) + s.last()
    }
}

/// `n / d` rounded half away from zero, for `d > 0`.
pub open spec fn div_round_half_away(n: int, d: int) -> int {
    if n >= 0 {
        (n + d / 2) / d
    } else {
        -((-n + d / 2) / d)
    }
}

/// `x` inserted in front of the first element not below it.
pub open spec fn insert_sorted(x: int, s: Seq<int>) -> Seq<int>
    decreases s.len(),
{
    if s.len() == 0 {
        seq![x]
    } else if x <= s[0] {
        seq![x] + s
    } else {
        seq![s[0]] + insert_sorted(x, s.drop_first())
    }
}

/// The sequence sorted non-decreasingly, by repeated insertion.
pub open spec fn sort_ints(s: Seq<int>) -> Seq<int>
    decreases s.len(),
{
    if s.len() == 0 {
        s
    } else {
        insert_sorted(s.last(), sort_ints(s.drop_last()))
    }
}

/// Median of a non-empty sequence: the middle of the sorted values, or the
/// rounded mean of the two middles.
pub open spec fn median_of(s: Seq<int>) -> int {
    let ss = sort_ints(s);
    let n = s.len() as int;
    if n % 2 == 1 {
        ss[n / 2]
    } else {
        div_round_half_away(ss[n / 2 - 1] + ss[n / 2], 2)
    }
}

/// Mean of a non-empty sequence, rounded half away from zero.
pub open spec fn mean_of(s: Seq<int>) -> int {
    div_round_half_away(int_sum(s), s.len() as int)
}

/// Sum of squared deviations from `m`.
pub open spec fn sum_sq_dev(s: Seq<int>, m: int) -> int
    decreases s.len(),
{
    if s.len() == 0 {
        0
    } else {
        sum_sq_dev(s.drop_last(), m) + (s.last() - m) * (s.last() - m)
    }
}

/// Integer square root, rounded down.
pub open spec fn sqrt_floor(n: nat) -> nat
    decreases n,
{
    if n == 0 {
        0
    } else {
        let r = sqrt_floor((n - 1) as nat);
        if (r + 1) * (r + 1) <= n {
            r + 1
        } else {
            r
        }
    }
}

/// Sample standard deviation at the engine's scale: the square root of the
/// squared deviations from the rounded mean, divided by `len - 1`.
pub open spec fn stdev_of(s: Seq<int>) -> int
    recommends
        s.len() >= 2,
{
    sqrt_floor((sum_sq_dev(s, mean_of(s)) / (s.len() - 1)) as nat) as int
}

pub proof fn lemma_sqrt_floor_props(n: nat)
    ensures
        sqrt_floor(n) * sqrt_floor(n) <= n,
        n < (sqrt_floor(n) + 1) * (sqrt_floor(n) + 1),
    decreases n,
{
    if n > 0 {
        lemma_sqrt_floor_props((n - 1) as nat);
        let r = sqrt_floor((n - 1) as nat);
        assert(r * r <= n - 1);
        assert(n - 1 < (r + 1) * (r + 1));
        if (r + 1) * (r + 1) <= n {
            assert(sqrt_floor(n) == r + 1);
            assert(n <= (r + 1) * (r + 1));
            assert(n < ((r + 1) + 1) * ((r + 1) + 1)) by (nonlinear_arith)
                requires
                    r >= 0,
                    n <= (r + 1) * (r + 1),
            ;
        } else {
            assert(sqrt_floor(n) == r);
            assert(r * r <= n);
            assert(n < (r + 1) * (r + 1));
        }
    } else {
        assert(sqrt_floor(n) == 0);
        assert(sqrt_floor(n) * sqrt_floor(n) <= n) by (nonlinear_arith)
            requires
                n == 0,
                sqrt_floor(n) == 0,
        ;
        assert(n < (sqrt_floor(n) + 1) * (sqrt_floor(n) + 1)) by (nonlinear_arith)
            requires
                n == 0,
                sqrt_floor(n) == 0,
        ;
    }
}

pub proof fn lemma_sqrt_unique(n: nat, r: nat)
    requires
        r * r <= n,
        n < (r + 1) * (r + 1),
    ensures
        r == sqrt_floor(n),
{
    lemma_sqrt_floor_props(n);
    let s = sqrt_floor(n);
    if r < s {
        assert((r + 1) * (r + 1) <= s * s) by (nonlinear_arith)
            requires
                r + 1 <= s,
        ;
    }
    if r > s {
        assert((s + 1) * (s + 1) <= r * r) by (nonlinear_arith)
            requires
                s + 1 <= r,
        ;
    }
}

/// Inserting at the first position whose element is not below `x` is what
/// `insert_sorted` does.
pub proof fn lemma_insert_sorted_at(s: Seq<int>, x: int, p: int)
    requires
        0 <= p <= s.len(),
        forall|j: int| 0 <= j < p ==> s[j] < x,
        p == s.len() || x <= s[p],
    ensures
        insert_sorted(x, s) == s.insert(p, x),
    decreases p,
{
    if p == 0 {
        if s.len() == 0 {
            assert(insert_sorted(x, s) =~= s.insert(0, x));
        } else {
            assert(insert_sorted(x, s) =~= s.insert(0, x));
        }
    } else {
        assert(s[0] < x);
        assert(forall|j: int| 0 <= j < p - 1 ==> s.drop_first()[j] == s[j + 1]);
        if p - 1 < s.drop_first().len() {
            assert(s.drop_first()[p - 1] == s[p]);
        }
        lemma_insert_sorted_at(s.drop_first(), x, p - 1);
        assert(insert_sorted(x, s) == seq![s[0]] + s.drop_first().insert(p - 1, x));
        assert(seq![s[0]] + s.drop_first().insert(p - 1, x) =~= s.insert(p, x));
    }
}

/// Display form of one statistic: formatted like a number cell of the
/// same value.
pub open spec fn fmt_stat(m: int, opts: FormatOptionsV) -> Seq<char> {
    format_scaled_spec(m, chosen_digits(m, opts), opts.sep)
}

/// The summary of a number column over the given cells.
pub open spec fn number_stats_spec(cells: Seq<CellV>, opts: FormatOptionsV) -> SummaryStatsNumberV {
    let vals = finite_vals(cells);
    if vals.len() == 0 {
        SummaryStatsNumberV {
            min_value: None,
            max_value: None,
            mean: None,
            median: None,
            stdev: None,
        }
    } else {
        SummaryStatsNumberV {
            min_value: Some(fmt_stat(seq_min(vals), opts)),
            max_value: Some(fmt_stat(seq_max(vals), opts)),
            mean: Some(fmt_stat(mean_of(vals), opts)),
            median: Some(fmt_stat(median_of(vals), opts)),
            stdev: if vals.len() >= 2 {
                Some(fmt_stat(stdev_of(vals), opts))
            } else {
                None
            },
        }
    }
}

/// Number of empty-text cells in the sequence.
pub open spec fn empty_count_spec(cells: Seq<CellV>) -> int
    decreases cells.len(),
{
    if cells.len() == 0 {
        0
    } else {
        empty_count_spec(cells.drop_last()) + if cells.last() matches CellV::Text(s) && s.len()
            == 0 {
            1int
        } else {
            0int
        }
    }
}

/// Number of distinct cell values in the sequence.
pub open spec fn distinct_count_spec(cells: Seq<CellV>) -> int
    decreases cells.len(),
{
    if cells.len() == 0 {
        0
    } else {
        distinct_count_spec(cells.drop_last()) + if cells.drop_last().contains(cells.last()) {
            0int
        } else {
            1int
        }
    }
}

/// Number of true cells in the sequence.
pub open spec fn true_count_spec(cells: Seq<CellV>) -> int
    decreases cells.len(),
{
    if cells.len() == 0 {
        0
    } else {
        true_count_spec(cells.drop_last()) + if cells.last() == CellV::Logical(true) {
            1int
        } else {
            0int
        }
    }
}

/// Number of false cells in the sequence.
pub open spec fn false_count_spec(cells: Seq<CellV>) -> int
    decreases cells.len(),
{
    if cells.len() == 0 {
        0
    } else {
        false_count_spec(cells.drop_last()) + if cells.last() == CellV::Logical(false) {
            1int
        } else {
            0int
        }
    }
}

/// Rounded division stays within a bound that covers the numerator.
pub proof fn lemma_div_round_bound(n: int, d: int, b: int)
    requires
        d >= 1,
        b >= 0,
        -(d * b) <= n <= d * b,
    ensures
        -b <= div_round_half_away(n, d) <= b,
{
    if n >= 0 {
        assert(d / 2 <= d - 1);
        assert(n + d / 2 <= d * b + (d - 1));
        lemma_div_is_ordered(n + d / 2, d * b + (d - 1), d);
        lemma_div_multiples_vanish_fancy(b, d - 1, d);
        assert((d * b + (d - 1)) / d == b);
        lemma_div_pos_is_pos(n + d / 2, d);
        assert(div_round_half_away(n, d) == (n + d / 2) / d);
    } else {
        let m = -n;
        assert(m + d / 2 <= d * b + (d - 1));
        lemma_div_is_ordered(m + d / 2, d * b + (d - 1), d);
        lemma_div_multiples_vanish_fancy(b, d - 1, d);
        assert((d * b + (d - 1)) / d == b);
        lemma_div_pos_is_pos(m + d / 2, d);
        assert(div_round_half_away(n, d) == -((m + d / 2) / d));
    }
}

/// The summary bundle of a column: the field matching the column's
/// category is filled, the others stay empty.
pub open spec fn summary_stats_spec(
    t: TableV,
    col: int,
    view: Seq<usize>,
    opts: FormatOptionsV,
) -> ColumnSummaryStatsV {
    let cells = view_cells(t, col, view);
    match t.columns[col].type_category {
        TypeCategory::Number => ColumnSummaryStatsV {
            number_stats: Some(number_stats_spec(cells, opts)),
            string_stats: None,
            boolean_stats: None,
        },
        TypeCategory::Text => ColumnSummaryStatsV {
            number_stats: None,
            string_stats: Some(
                SummaryStatsString {
                    num_empty: empty_count_spec(cells) as u64,
                    num_unique: distinct_count_spec(cells) as u64,
                },
            ),
            boolean_stats: None,
        },
        TypeCategory::Boolean => ColumnSummaryStatsV {
            number_stats: None,
            string_stats: None,
            boolean_stats: Some(
                SummaryStatsBoolean {
                    true_count: true_count_spec(cells) as u64,
                    false_count: false_count_spec(cells) as u64,
                },
            ),
        },
        _ => ColumnSummaryStatsV { number_stats: None, string_stats: None, boolean_stats: None },
    }
}

/// The reply to one profile request.
pub open spec fn profile_result_spec(
    t: TableV,
    col: int,
    ptype: ColumnProfileType,
    view: Seq<usize>,
    opts: FormatOptionsV,
) -> ColumnProfileResultV {
    match ptype {
        ColumnProfileType::NullCount => ColumnProfileResultV {
            null_count: Some(null_count_spec(view_cells(t, col, view)) as u64),
            summary_stats: None,
        },
        ColumnProfileType::SummaryStats => ColumnProfileResultV {
            null_count: None,
            summary_stats: Some(summary_stats_spec(t, col, view, opts)),
        },
    }
}

/// Answer one profile request over the view rows.
pub fn column_profile(
    t: &Table,
    view: &Vec<usize>,
    col: usize,
    ptype: ColumnProfileType,
    opts: &FormatOptions,
) -> (r: ColumnProfileResult)
    requires
        t.wf(),
        col < t@.columns.len(),
        forall|i: int| 0 <= i < view@.len() ==> (#[trigger] view@[i]) < t@.nrows,
        view@.len() <= MAX_ROWS,
    ensures
        r@ == profile_result_spec(t@, col as int, ptype, view@, opts@),
{
    match ptype {
        ColumnProfileType::NullCount => {
            let cnt = null_count_of(t, col, view);
            ColumnProfileResult { null_count: Some(cnt as u64), summary_stats: None }
        },
        ColumnProfileType::SummaryStats => {
            let stats = match t.columns[col].type_category {
                TypeCategory::Number => {
                    let ns = number_stats(t, col, view, opts);
                    ColumnSummaryStats {
                        number_stats: Some(ns),
                        string_stats: None,
                        boolean_stats: None,
                    }
                },
                TypeCategory::Text => {
                    let ss = string_stats(t, col, view);
                    ColumnSummaryStats {
                        number_stats: None,
                        string_stats: Some(ss),
                        boolean_stats: None,
                    }
                },
                TypeCategory::Boolean => {
                    let bs = boolean_stats(t, col, view);
                    ColumnSummaryStats {
                        number_stats: None,
                        string_stats: None,
                        boolean_stats: Some(bs),
                    }
                },
                _ => ColumnSummaryStats {
                    number_stats: None,
                    string_stats: None,
                    boolean_stats: None,
                },
            };
            ColumnProfileResult { null_count: None, summary_stats: Some(stats) }
        },
    }
}

/// Count the null cells of a column over the view rows.
pub fn null_count_of(t: &Table, col: usize, view: &Vec<usize>) -> (r: usize)
    requires
        t.wf(),
        col < t@.columns.len(),
        forall|i: int| 0 <= i < view@.len() ==> (#[trigger] view@[i]) < t@.nrows,
    ensures
        r == null_count_spec(view_cells(t@, col as int, view@)),
        r <= view@.len(),
{
    let ghost cells = view_cells(t@, col as int, view@);
    let mut cnt: usize = 0;
    let mut i: usize = 0;
    while i < view.len()
        invariant
            t.wf(),
            col < t@.columns.len(),
            forall|k: int| 0 <= k < view@.len() ==> (#[trigger] view@[k]) < t@.nrows,
            cells == view_cells(t@, col as int, view@),
            i <= view@.len(),
            cnt <= i,
            cnt == null_count_spec(cells.take(i as int)),
        decreases view@.len() - i,
    {
        proof {
            assert(cells.take(i + 1).drop_last() =~= cells.take(i as int));
            assert(cells.take(i + 1).last() == cells[i as int]);
        }
        if t.cell_at(col, view[i]).is_null() {
            cnt = cnt + 1;
        }
        i = i + 1;
    }
    proof {
        assert(cells.take(cells.len() as int) =~= cells);
    }
    cnt
}

/// Collect the scaled finite values of a column over the view rows.
fn collect_finite_vals(t: &Table, col: usize, view: &Vec<usize>) -> (vals: Vec<i64>)
    requires
        t.wf(),
        col < t@.columns.len(),
        forall|i: int| 0 <= i < view@.len() ==> (#[trigger] view@[i]) < t@.nrows,
    ensures
        vals@.map_values(|x: i64| x as int) == finite_vals(view_cells(t@, col as int, view@)),
        forall|i: int|
            0 <= i < vals@.len() ==> -FIXED_MAX <= (#[trigger] vals@[i]) <= FIXED_MAX,
        vals@.len() <= view@.len(),
{
    let ghost cells = view_cells(t@, col as int, view@);
    let mut vals: Vec<i64> = Vec::new();
    let mut i: usize = 0;
    proof {
        assert(vals@.map_values(|x: i64| x as int) =~= finite_vals(cells.take(0)));
    }
    while i < view.len()
        invariant
            t.wf(),
            col < t@.columns.len(),
            forall|k: int| 0 <= k < view@.len() ==> (#[trigger] view@[k]) < t@.nrows,
            cells == view_cells(t@, col as int, view@),
            i <= view@.len(),
            vals@.len() <= i,
            vals@.map_values(|x: i64| x as int) == finite_vals(cells.take(i as int)),
            forall|k: int|
                0 <= k < vals@.len() ==> -FIXED_MAX <= (#[trigger] vals@[k]) <= FIXED_MAX,
        decreases view@.len() - i,
    {
        proof {
            assert(cells.take(i + 1).drop_last() =~= cells.take(i as int));
            assert(cells.take(i + 1).last() == cells[i as int]);
        }
        let cell = t.cell_at(col, view[i]);
        match cell {
            Cell::Number(f) => {
                vals.push(f.scaled);
                proof {
                    assert(vals@.map_values(|x: i64| x as int) =~= finite_vals(
                        cells.take(i + 1),
                    ));
                }
            },
            Cell::Whole(w) => {
                vals.push(*w * FIXED_SCALE);
                proof {
                    assert(vals@.map_values(|x: i64| x as int) =~= finite_vals(
                        cells.take(i + 1),
                    ));
                }
            },
            _ => {
                proof {
                    assert(vals@.map_values(|x: i64| x as int) =~= finite_vals(
                        cells.take(i + 1),
                    ));
                }
            },
        }
        i = i + 1;
    }
    proof {
        assert(cells.take(cells.len() as int) =~= cells);
    }
    vals
}

/// First position in `out` whose element is not below `x`.
fn find_insert_pos_i64(out: &Vec<i64>, x: i64) -> (pos: usize)
    ensures
        pos <= out@.len(),
        forall|j: int| 0 <= j < pos ==> (#[trigger] out@[j]) < x,
        pos < out@.len() ==> x <= out@[pos as int],
{
    let mut pos: usize = 0;
    while pos < out.len()
        invariant
            pos <= out@.len(),
            forall|j: int| 0 <= j < pos ==> (#[trigger] out@[j]) < x,
        decreases out@.len() - pos,
    {
        if x <= out[pos] {
            return pos;
        }
        pos = pos + 1;
    }
    pos
}

/// Sort the values non-decreasingly, matching `sort_ints`.
fn sort_vals(vals: &Vec<i64>) -> (out: Vec<i64>)
    requires
        forall|i: int|
            0 <= i < vals@.len() ==> -FIXED_MAX <= (#[trigger] vals@[i]) <= FIXED_MAX,
    ensures
        out@.map_values(|x: i64| x as int) == sort_ints(vals@.map_values(|x: i64| x as int)),
        out@.len() == vals@.len(),
        forall|i: int|
            0 <= i < out@.len() ==> -FIXED_MAX <= (#[trigger] out@[i]) <= FIXED_MAX,
{
    let ghost fv = vals@.map_values(|x: i64| x as int);
    let mut out: Vec<i64> = Vec::new();
    let mut k: usize = 0;
    proof {
        assert(fv.take(0) =~= Seq::<int>::empty());
        assert(out@.map_values(|x: i64| x as int) =~= sort_ints(fv.take(0)));
    }
    while k < vals.len()
        invariant
            forall|i: int|
                0 <= i < vals@.len() ==> -FIXED_MAX <= (#[trigger] vals@[i]) <= FIXED_MAX,
            fv == vals@.map_values(|x: i64| x as int),
            k <= vals@.len(),
            out@.len() == k,
            out@.map_values(|x: i64| x as int) == sort_ints(fv.take(k as int)),
            forall|i: int|
                0 <= i < out@.len() ==> -FIXED_MAX <= (#[trigger] out@[i]) <= FIXED_MAX,
        decreases vals@.len() - k,
    {
        let x = vals[k];
        let ghost old_out = out@;
        let ghost os = old_out.map_values(|v: i64| v as int);
        let pos = find_insert_pos_i64(&out, x);
        proof {
            assert(forall|j: int| 0 <= j < pos ==> (#[trigger] os[j]) < x as int);
            if (pos as int) < os.len() {
                assert(x as int <= os[pos as int]);
            }
            lemma_insert_sorted_at(os, x as int, pos as int);
        }
        out.insert(pos, x);
        proof {
            assert(fv.take(k + 1).drop_last() =~= fv.take(k as int));
            assert(fv.take(k + 1).last() == x as int);
            assert(out@.map_values(|v: i64| v as int) =~= os.insert(pos as int, x as int));
            assert(out@.map_values(|v: i64| v as int) =~= sort_ints(fv.take(k + 1)));
        }
        k = k + 1;
    }
    proof {
        assert(fv.take(fv.len() as int) =~= fv);
    }
    out
}

/// `n / d`, rounded half away from zero.
fn div_round_exec(n: i128, d: u64) -> (r: i128)
    requires
        d >= 1,
        -0x1000_0000_0000_0000_0000_0000 <= n <= 0x1000_0000_0000_0000_0000_0000,
    ensures
        r as int == div_round_half_away(n as int, d as int),
{
    if n >= 0 {
        let m = n as u128;
        let q = (m + (d as u128) / 2) / (d as u128);
        q as i128
    } else {
        let m = (-n) as u128;
        let q = (m + (d as u128) / 2) / (d as u128);
        proof {
            lemma_div_pos_is_pos((m + (d as u128) / 2) as int, d as int);
            lemma_div_is_ordered(
                (m + (d as u128) / 2) as int,
                0x1000_0000_0000_0000_0000_0000 + d as int,
                d as int,
            );
        }
        -(q as i128)
    }
}

/// Integer square root of `x`, for `x` below `2^110`.
fn isqrt(x: u128) -> (r: u64)
    requires
        x < 0x4000_0000_0000_0000_0000_0000_0000,
    ensures
        r as nat == sqrt_floor(x as nat),
{
    let mut lo: u128 = 0;
    let mut hi: u128 = 0x80_0000_0000_0000;  // 2^55
    proof {
        assert(hi * hi == 0x4000_0000_0000_0000_0000_0000_0000) by (nonlinear_arith)
            requires
                hi == 0x80_0000_0000_0000,
        ;
    }
    while hi - lo > 1
        invariant
            lo < hi <= 0x80_0000_0000_0000,
            lo * lo <= x,
            x < hi * hi,
        decreases hi - lo,
    {
        let mid = lo + (hi - lo) / 2;
        proof {
            assert(mid < hi);
            assert(mid * mid < hi * hi) by (nonlinear_arith)
                requires
                    0 <= mid < hi,
            ;
            assert(mid * mid <= 0x4000_0000_0000_0000_0000_0000_0000) by (nonlinear_arith)
                requires
                    0 <= mid <= 0x80_0000_0000_0000,
            ;
        }
        let sq = mid * mid;
        if sq <= x {
            lo = mid;
        } else {
            hi = mid;
        }
    }
    proof {
        assert(hi == lo + 1);
        lemma_sqrt_unique(x as nat, lo as nat);
    }
    lo as u64
}

/// The summary of a number column over the view rows.
pub fn number_stats(t: &Table, col: usize, view: &Vec<usize>, opts: &FormatOptions) -> (r:
    SummaryStatsNumber)
    requires
        t.wf(),
        col < t@.columns.len(),
        forall|i: int| 0 <= i < view@.len() ==> (#[trigger] view@[i]) < t@.nrows,
        view@.len() <= MAX_ROWS,
    ensures
        r@ == number_stats_spec(view_cells(t@, col as int, view@), opts@),
{
    let ghost cells = view_cells(t@, col as int, view@);
    let vals = collect_finite_vals(t, col, view);
    let ghost fv = finite_vals(cells);
    let n = vals.len();
    if n == 0 {
        return SummaryStatsNumber {
            min_value: None,
            max_value: None,
            mean: None,
            median: None,
            stdev: None,
        };
    }
    // minimum and maximum
    let mut mn: i64 = vals[0];
    let mut mx: i64 = vals[0];
    let mut i: usize = 1;
    while i < n
        invariant
            n == vals@.len(),
            fv == vals@.map_values(|x: i64| x as int),
            forall|k: int|
                0 <= k < vals@.len() ==> -FIXED_MAX <= (#[trigger] vals@[k]) <= FIXED_MAX,
            1 <= i <= n,
            mn as int == seq_min(fv.take(i as int)),
            mx as int == seq_max(fv.take(i as int)),
            -FIXED_MAX <= mn <= FIXED_MAX,
            -FIXED_MAX <= mx <= FIXED_MAX,
        decreases n - i,
    {
        proof {
            assert(fv.take(i + 1).drop_last() =~= fv.take(i as int));
            assert(fv.take(i + 1).last() == vals@[i as int] as int);
        }
        if vals[i] < mn {
            mn = vals[i];
        }
        if vals[i] > mx {
            mx = vals[i];
        }
        i = i + 1;
    }
    proof {
        assert(fv.take(fv.len() as int) =~= fv);
    }
    // mean
    let mut sum: i128 = 0;
    let mut i: usize = 0;
    while i < n
        invariant
            n == vals@.len(),
            fv == vals@.map_values(|x: i64| x as int),
            forall|k: int|
                0 <= k < vals@.len() ==> -FIXED_MAX <= (#[trigger] vals@[k]) <= FIXED_MAX,
            i <= n,
            sum == int_sum(fv.take(i as int)),
            -(i as int) * FIXED_MAX <= sum <= (i as int) * FIXED_MAX,
            n <= MAX_ROWS,
        decreases n - i,
    {
        proof {
            assert(fv.take(i + 1).drop_last() =~= fv.take(i as int));
            assert(fv.take(i + 1).last() == vals@[i as int] as int);
            assert((i as int + 1) * FIXED_MAX == (i as int) * FIXED_MAX + FIXED_MAX)
                by (nonlinear_arith)
            ;
        }
        sum = sum + vals[i] as i128;
        i = i + 1;
    }
    proof {
        assert(fv.take(fv.len() as int) =~= fv);
        assert((n as int) * FIXED_MAX <= 0x1000_0000_0000_0000_0000_0000) by (nonlinear_arith)
            requires
                0 <= n <= MAX_ROWS,
        ;
    }
    let mean_v = div_round_exec(sum, n as u64);
    proof {
        lemma_div_round_bound(sum as int, n as int, FIXED_MAX as int);
    }
    let mean_i = mean_v as i64;
    // median
    let sorted = sort_vals(&vals);
    let ghost ss = sort_ints(fv);
    let med: i64 = if n % 2 == 1 {
        sorted[n / 2]
    } else {
        let a = sorted[n / 2 - 1];
        let b = sorted[n / 2];
        let m2 = div_round_exec(a as i128 + b as i128, 2);
        proof {
            lemma_div_round_bound(a as int + b as int, 2, FIXED_MAX as int);
        }
        m2 as i64
    };
    proof {
        assert(med as int == median_of(fv));
    }
    // sample standard deviation
    let stdev: Option<String> = if n >= 2 {
        let mut acc: u128 = 0;
        let mut i: usize = 0;
        while i < n
            invariant
                n == vals@.len(),
                fv == vals@.map_values(|x: i64| x as int),
                forall|k: int|
                    0 <= k < vals@.len() ==> -FIXED_MAX <= (#[trigger] vals@[k]) <= FIXED_MAX,
                -FIXED_MAX <= mean_i <= FIXED_MAX,
                i <= n,
                acc == sum_sq_dev(fv.take(i as int), mean_i as int),
                acc <= (i as int) * (4 * FIXED_MAX * FIXED_MAX),
                n <= MAX_ROWS,
            decreases n - i,
        {
            proof {
                assert(fv.take(i + 1).drop_last() =~= fv.take(i as int));
                assert(fv.take(i + 1).last() == vals@[i as int] as int);
            }
            let dev: i64 = vals[i] - mean_i;
            proof {
                assert(0 <= (dev as int) * (dev as int) <= 4 * FIXED_MAX * FIXED_MAX)
                    by (nonlinear_arith)
                    requires
                        -2 * FIXED_MAX <= dev <= 2 * FIXED_MAX,
                ;
                assert((i as int + 1) * (4 * FIXED_MAX * FIXED_MAX) == (i as int) * (4 * FIXED_MAX
                    * FIXED_MAX) + 4 * FIXED_MAX * FIXED_MAX) by (nonlinear_arith)
                ;
                assert((i as int) * (4 * FIXED_MAX * FIXED_MAX) <= (MAX_ROWS as int) * (4
                    * FIXED_MAX * FIXED_MAX)) by (nonlinear_arith)
                    requires
                        0 <= i <= MAX_ROWS,
                ;
            }
            let sq: i128 = (dev as i128) * (dev as i128);
            acc = acc + sq as u128;
            i = i + 1;
        }
        proof {
            assert(fv.take(fv.len() as int) =~= fv);
            assert((n as int) * (4 * FIXED_MAX * FIXED_MAX) <= (MAX_ROWS as int) * (4 * FIXED_MAX
                * FIXED_MAX)) by (nonlinear_arith)
                requires
                    0 <= n <= MAX_ROWS,
            ;
        }
        let var: u128 = acc / ((n - 1) as u128);
        proof {
            assert(var as int == sum_sq_dev(fv, mean_i as int) / (fv.len() - 1));
            // acc <= n * K and n * K <= 2K * (n - 1) for n >= 2, so var <= 2K
            assert(acc <= ((n - 1) as int) * (8 * FIXED_MAX * FIXED_MAX)) by (nonlinear_arith)
                requires
                    2 <= n,
                    acc <= (n as int) * (4 * FIXED_MAX * FIXED_MAX),
            ;
            lemma_div_is_ordered(
                acc as int,
                ((n - 1) as int) * (8 * FIXED_MAX * FIXED_MAX),
                (n - 1) as int,
            );
            vstd::arithmetic::div_mod::lemma_div_multiples_vanish(
                8 * FIXED_MAX * FIXED_MAX,
                (n - 1) as int,
            );
            assert(var as int <= 8 * FIXED_MAX * FIXED_MAX);
        }
        let sd = isqrt(var);
        proof {
            lemma_sqrt_floor_props(var as nat);
            assert(sqrt_floor(var as nat) <= 100_000_000_000_000) by {
                if sqrt_floor(var as nat) > 100_000_000_000_000 {
                    assert(sqrt_floor(var as nat) * sqrt_floor(var as nat) > 8 * FIXED_MAX
                        * FIXED_MAX) by (nonlinear_arith)
                        requires
                            sqrt_floor(var as nat) > 100_000_000_000_000,
                            FIXED_MAX == 1_000_000_000_000,
                    ;
                }
            }
        }
        Some(fmt_stat_exec(sd as i64, opts))
    } else {
        None
    };
    SummaryStatsNumber {
        min_value: Some(fmt_stat_exec(mn, opts)),
        max_value: Some(fmt_stat_exec(mx, opts)),
        mean: Some(fmt_stat_exec(mean_i, opts)),
        median: Some(fmt_stat_exec(med, opts)),
        stdev,
    }
}

/// Format one statistic value like a number cell.
fn fmt_stat_exec(m: i64, opts: &FormatOptions) -> (r: String)
    requires
        -crate::numfmt::FORMAT_ABS_MAX <= m <= crate::numfmt::FORMAT_ABS_MAX,
    ensures
        r@ == fmt_stat(m as int, opts@),
{
    let sep: &str = match &opts.thousands_sep {
        Some(s) => s.as_str(),
        None => {
            let e = "";
            proof {
                reveal_strlit("");
                assert(e@ =~= Seq::<char>::empty());
            }
            e
        },
    };
    let wanted = if m == 0 || m >= FIXED_SCALE || m <= -FIXED_SCALE {
        opts.large_num_digits
    } else {
        opts.small_num_digits
    };
    let dd = if wanted > crate::numfmt::MAX_FRACTION_DIGITS {
        crate::numfmt::MAX_FRACTION_DIGITS
    } else {
        wanted
    };
    crate::numfmt::format_scaled(m, dd, sep)
}

/// The summary of a text column over the view rows.
pub fn string_stats(t: &Table, col: usize, view: &Vec<usize>) -> (r: SummaryStatsString)
    requires
        t.wf(),
        col < t@.columns.len(),
        forall|i: int| 0 <= i < view@.len() ==> (#[trigger] view@[i]) < t@.nrows,
    ensures
        r.num_empty == empty_count_spec(view_cells(t@, col as int, view@)),
        r.num_unique == distinct_count_spec(view_cells(t@, col as int, view@)),
{
    let ghost cells = view_cells(t@, col as int, view@);
    let mut empties: u64 = 0;
    let mut uniques: u64 = 0;
    let mut i: usize = 0;
    while i < view.len()
        invariant
            t.wf(),
            col < t@.columns.len(),
            forall|k: int| 0 <= k < view@.len() ==> (#[trigger] view@[k]) < t@.nrows,
            cells == view_cells(t@, col as int, view@),
            i <= view@.len(),
            empties <= i,
            uniques <= i,
            empties == empty_count_spec(cells.take(i as int)),
            uniques == distinct_count_spec(cells.take(i as int)),
        decreases view@.len() - i,
    {
        proof {
            assert(cells.take(i + 1).drop_last() =~= cells.take(i as int));
            assert(cells.take(i + 1).last() == cells[i as int]);
        }
        let cell = t.cell_at(col, view[i]);
        match cell {
            Cell::Text(s) => {
                if s.as_str().is_empty() {
                    empties = empties + 1;
                }
            },
            _ => {},
        }
        // first occurrence check
        let mut seen = false;
        let mut j: usize = 0;
        while j < i
            invariant
                t.wf(),
                col < t@.columns.len(),
                forall|k: int| 0 <= k < view@.len() ==> (#[trigger] view@[k]) < t@.nrows,
                cells == view_cells(t@, col as int, view@),
                i < view@.len(),
                j <= i,
                cell@ == cells[i as int],
                seen == exists|k: int| 0 <= k < j && cells[k] == cells[i as int],
            decreases i - j,
        {
            if !seen {
                if t.cell_at(col, view[j]).same_value(cell) {
                    assert(cells[j as int] == cells[i as int]);
                    seen = true;
                }
            }
            j = j + 1;
        }
        proof {
            if seen {
                let k = choose|k: int| 0 <= k < i && cells[k] == cells[i as int];
                assert(cells.take(i as int)[k] == cells[i as int]);
                assert(cells.take(i as int).contains(cells[i as int]));
            }
            if cells.take(i as int).contains(cells[i as int]) {
                let k = choose|k: int|
                    0 <= k < i && cells.take(i as int)[k] == cells[i as int];
                assert(cells[k] == cells[i as int]);
            }
            assert(seen == cells.take(i as int).contains(cells[i as int]));
        }
        if !seen {
            uniques = uniques + 1;
        }
        i = i + 1;
    }
    proof {
        assert(cells.take(cells.len() as int) =~= cells);
    }
    SummaryStatsString { num_empty: empties, num_unique: uniques }
}

/// The summary of a boolean column over the view rows.
pub fn boolean_stats(t: &Table, col: usize, view: &Vec<usize>) -> (r: SummaryStatsBoolean)
    requires
        t.wf(),
        col < t@.columns.len(),
        forall|i: int| 0 <= i < view@.len() ==> (#[trigger] view@[i]) < t@.nrows,
    ensures
        r.true_count == true_count_spec(view_cells(t@, col as int, view@)),
        r.false_count == false_count_spec(view_cells(t@, col as int, view@)),
{
    let ghost cells = view_cells(t@, col as int, view@);
    let mut trues: u64 = 0;
    let mut falses: u64 = 0;
    let mut i: usize = 0;
    while i < view.len()
        invariant
            t.wf(),
            col < t@.columns.len(),
            forall|k: int| 0 <= k < view@.len() ==> (#[trigger] view@[k]) < t@.nrows,
            cells == view_cells(t@, col as int, view@),
            i <= view@.len(),
            trues <= i,
            falses <= i,
            trues == true_count_spec(cells.take(i as int)),
            falses == false_count_spec(cells.take(i as int)),
        decreases view@.len() - i,
    {
        proof {
            assert(cells.take(i + 1).drop_last() =~= cells.take(i as int));
            assert(cells.take(i + 1).last() == cells[i as int]);
        }
        match t.cell_at(col, view[i]) {
            Cell::Logical(b) => {
                if *b {
                    trues = trues + 1;
                } else {
                    falses = falses + 1;
                }
            },
            _ => {},
        }
        i = i + 1;
    }
    proof {
        assert(cells.take(cells.len() as int) =~= cells);
    }
    SummaryStatsBoolean { true_count: trues, false_count: falses }
}

} // verus!
