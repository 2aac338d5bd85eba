//! Row filters: validation against the schema and evaluation into a
//! selection mask.
//!
//! Filters are evaluated left to right.  The first usable filter seeds the
//! running selection; every later usable filter combines into it with its
//! own condition (and intersects, or unions).  A filter that fails
//! validation is kept, marked invalid with an error message, and excluded
//! from the combination.  With no usable filter every row is selected.

use vstd::prelude::*;
use vstd::string::StringSliceAdditionalSpecFns;
use vstd::utf8::encode_utf8;
use crate::cells::{Cell, CellV, cell_is_null};
use crate::fixed::{parse_fixed, parse_fixed_spec, FIXED_SCALE};
use crate::table::{Table, TableV, ColumnSchema, ColumnSchemaV, TypeCategory, category_eq};
use crate::textsearch::{
    contains_seq, starts_with_seq, ends_with_seq, lower_of, regex_valid, regex_match,
    str_contains, str_starts_with, str_ends_with, to_lower, regex_pattern_ok, regex_is_match,
};

verus! {

/// The kind of one row filter.
#[derive(Clone, Copy, PartialEq, Eq, Structural, Debug)]
pub enum RowFilterType {
    Compare,
    Between,
    Search,
    SetMembership,
    NotNull,
    IsNull,
    IsEmpty,
    IsTrue,
    IsFalse,
}

/// Relational operator of a compare filter.
#[derive(Clone, Copy, PartialEq, Eq, Structural, Debug)]
pub enum CompareFilterParamsOp {
    Eq,
    NotEq,
    Lt,
    LtEq,
    Gt,
    GtEq,
}

/// Parameters of a compare filter.
#[derive(Clone, Debug)]
pub struct CompareFilterParams {
    pub op: CompareFilterParamsOp,
    /// Decimal literal the column value is compared against.
    pub value: String,
}

pub struct CompareFilterParamsV {
    pub op: CompareFilterParamsOp,
    pub value: Seq<char>,
}

impl View for CompareFilterParams {
    type V = CompareFilterParamsV;

    open spec fn view(&self) -> CompareFilterParamsV {
        CompareFilterParamsV { op: self.op, value: self.value@ }
    }
}

/// Parameters of a between filter; both bounds are inclusive.
#[derive(Clone, Debug)]
pub struct BetweenFilterParams {
    pub left_value: String,
    pub right_value: String,
}

pub struct BetweenFilterParamsV {
    pub left_value: Seq<char>,
    pub right_value: Seq<char>,
}

impl View for BetweenFilterParams {
    type V = BetweenFilterParamsV;

    open spec fn view(&self) -> BetweenFilterParamsV {
        BetweenFilterParamsV { left_value: self.left_value@, right_value: self.right_value@ }
    }
}

/// The kind of one search filter.
#[derive(Clone, Copy, PartialEq, Eq, Structural, Debug)]
pub enum SearchFilterType {
    Contains,
    StartsWith,
    EndsWith,
    RegexMatch,
}

/// Parameters of a search filter.
#[derive(Clone, Debug)]
pub struct SearchFilterParams {
    pub case_sensitive: bool,
    pub search_type: SearchFilterType,
    pub term: String,
}

pub struct SearchFilterParamsV {
    pub case_sensitive: bool,
    pub search_type: SearchFilterType,
    pub term: Seq<char>,
}

impl View for SearchFilterParams {
    type V = SearchFilterParamsV;

    open spec fn view(&self) -> SearchFilterParamsV {
        SearchFilterParamsV {
            case_sensitive: self.case_sensitive,
            search_type: self.search_type,
            term: self.term@,
        }
    }
}

/// Parameters of a set-membership filter.
#[derive(Clone, Debug)]
pub struct SetMembershipFilterParams {
    pub values: Vec<String>,
    /// `true` keeps members of the set, `false` keeps non-members.
    pub inclusive: bool,
}

pub struct SetMembershipFilterParamsV {
    pub values: Seq<Seq<char>>,
    pub inclusive: bool,
}

impl View for SetMembershipFilterParams {
    type V = SetMembershipFilterParamsV;

    open spec fn view(&self) -> SetMembershipFilterParamsV {
        SetMembershipFilterParamsV {
            values: self.values@.map_values(|v: String| v@),
            inclusive: self.inclusive,
        }
    }
}

/// How a filter combines into the running selection.
#[derive(Clone, Copy, PartialEq, Eq, Structural, Debug)]
pub enum RowFilterCondition {
    And,
    Or,
}

/// One stored row filter.
#[derive(Clone, Debug)]
pub struct RowFilter {
    /// Schema of the referenced column as the caller saw it; the column is
    /// resolved again by name on every evaluation.
    pub column_schema: ColumnSchema,
    pub filter_type: RowFilterType,
    /// Caller-assigned opaque identity.
    pub filter_id: String,
    pub condition: RowFilterCondition,
    /// Derived: whether the filter passed validation, once validated.
    pub is_valid: Option<bool>,
    /// Derived: why validation failed, when it did.
    pub error_message: Option<String>,
    pub compare_params: Option<CompareFilterParams>,
    pub between_params: Option<BetweenFilterParams>,
    pub search_params: Option<SearchFilterParams>,
    pub set_membership_params: Option<SetMembershipFilterParams>,
}

pub struct RowFilterV {
    pub column_schema: ColumnSchemaV,
    pub filter_type: RowFilterType,
    pub filter_id: Seq<char>,
    pub condition: RowFilterCondition,
    pub is_valid: Option<bool>,
    pub error_message: Option<Seq<char>>,
    pub compare_params: Option<CompareFilterParamsV>,
    pub between_params: Option<BetweenFilterParamsV>,
    pub search_params: Option<SearchFilterParamsV>,
    pub set_membership_params: Option<SetMembershipFilterParamsV>,
}

impl View for RowFilter {
    type V = RowFilterV;

    open spec fn view(&self) -> RowFilterV {
        RowFilterV {
            column_schema: self.column_schema@,
            filter_type: self.filter_type,
            filter_id: self.filter_id@,
            condition: self.condition,
            is_valid: self.is_valid,
            error_message: match self.error_message {
                Some(m) => Some(m@),
                None => None,
            },
            compare_params: match self.compare_params {
                Some(p) => Some(p@),
                None => None,
            },
            between_params: match self.between_params {
                Some(p) => Some(p@),
                None => None,
            },
            search_params: match self.search_params {
                Some(p) => Some(p@),
                None => None,
            },
            set_membership_params: match self.set_membership_params {
                Some(p) => Some(p@),
                None => None,
            },
        }
    }
}

/// The parts of a filter that the caller owns; validation annotations may
/// differ between two filters with the same core.
pub open spec fn same_core(a: RowFilterV, b: RowFilterV) -> bool {
    &&& a.column_schema == b.column_schema
    &&& a.filter_type == b.filter_type
    &&& a.filter_id == b.filter_id
    &&& a.condition == b.condition
    &&& a.compare_params == b.compare_params
    &&& a.between_params == b.between_params
    &&& a.search_params == b.search_params
    &&& a.set_membership_params == b.set_membership_params
}

impl RowFilter {
    /// An equal filter, with an exact contract.
    pub fn duplicate(&self) -> (r: RowFilter)
        ensures
            r@ == self@,
    {
        RowFilter {
            column_schema: self.column_schema.duplicate(),
            filter_type: self.filter_type,
            filter_id: self.filter_id.clone(),
            condition: self.condition,
            is_valid: self.is_valid,
            error_message: match &self.error_message {
                Some(m) => Some(m.clone()),
                None => None,
            },
            compare_params: match &self.compare_params {
                Some(p) => Some(
                    CompareFilterParams { op: p.op, value: p.value.clone() },
                ),
                None => None,
            },
            between_params: match &self.between_params {
                Some(p) => Some(
                    BetweenFilterParams {
                        left_value: p.left_value.clone(),
                        right_value: p.right_value.clone(),
                    },
                ),
                None => None,
            },
            search_params: match &self.search_params {
                Some(p) => Some(
                    SearchFilterParams {
                        case_sensitive: p.case_sensitive,
                        search_type: p.search_type,
                        term: p.term.clone(),
                    },
                ),
                None => None,
            },
            set_membership_params: match &self.set_membership_params {
                Some(p) => Some(
                    SetMembershipFilterParams {
                        values: dup_strings(&p.values),
                        inclusive: p.inclusive,
                    },
                ),
                None => None,
            },
        }
    }
}

/// Copy a vector of strings, preserving every element's value.
fn dup_strings(v: &Vec<String>) -> (r: Vec<String>)
    ensures
        r@.map_values(|s: String| s@) == v@.map_values(|s: String| s@),
{
    let mut out: Vec<String> = Vec::new();
    let mut i: usize = 0;
    while i < v.len()
        invariant
            i <= v@.len(),
            out@.len() == i,
            forall|j: int| 0 <= j < i ==> #[trigger] out@[j]@ == v@[j]@,
        decreases v@.len() - i,
    {
        out.push(v[i].clone());
        i = i + 1;
    }
    proof {
        assert(out@.map_values(|s: String| s@) =~= v@.map_values(|s: String| s@));
    }
    out
}

/// Index of the first column with the given name, or `-1`.
pub open spec fn find_column(cols: Seq<ColumnSchemaV>, name: Seq<char>) -> int
    decreases cols.len(),
{
    if cols.len() == 0 {
        -1
    } else if cols[0].column_name == name {
        0
    } else {
        let r = find_column(cols.drop_first(), name);
        if r < 0 {
            -1
        } else {
            r + 1
        }
    }
}

proof fn lemma_find_column_absent(cols: Seq<ColumnSchemaV>, name: Seq<char>)
    requires
        forall|i: int| 0 <= i < cols.len() ==> (#[trigger] cols[i]).column_name != name,
    ensures
        find_column(cols, name) == -1,
    decreases cols.len(),
{
    if cols.len() > 0 {
        lemma_find_column_absent(cols.drop_first(), name);
    }
}

proof fn lemma_find_column_at(cols: Seq<ColumnSchemaV>, name: Seq<char>, i: int)
    requires
        0 <= i < cols.len(),
        cols[i].column_name == name,
        forall|j: int| 0 <= j < i ==> (#[trigger] cols[j]).column_name != name,
    ensures
        find_column(cols, name) == i,
    decreases i,
{
    if i > 0 {
        lemma_find_column_at(cols.drop_first(), name, i - 1);
    }
}

/// Bounds of the index `find_column` reports.
pub proof fn lemma_find_column_in_range(cols: Seq<ColumnSchemaV>, name: Seq<char>)
    ensures
        -1 <= find_column(cols, name) < cols.len(),
        find_column(cols, name) >= 0 ==> cols[find_column(cols, name)].column_name == name,
    decreases cols.len(),
{
    if cols.len() > 0 {
        lemma_find_column_in_range(cols.drop_first(), name);
    }
}

/// Resolve a column by name.
pub fn find_column_exec(t: &Table, name: &String) -> (r: Option<usize>)
    ensures
        match r {
            Some(i) => i < t@.columns.len() && find_column(t@.columns, name@) == i,
            None => find_column(t@.columns, name@) == -1,
        },
{
    let nc = t.columns.len();
    let mut i: usize = 0;
    while i < nc
        invariant
            nc == t@.columns.len(),
            i <= nc,
            forall|j: int| 0 <= j < i ==> (#[trigger] t@.columns[j]).column_name != name@,
        decreases nc - i,
    {
        if t.columns[i].column_name == *name {
            proof {
                lemma_find_column_at(t@.columns, name@, i as int);
            }
            return Some(i);
        }
        assert(t@.columns[i as int].column_name != name@);
        i = i + 1;
    }
    proof {
        lemma_find_column_absent(t@.columns, name@);
    }
    None
}

/// UTF-8 bytes of a character sequence.
pub open spec fn bytes_of(s: Seq<char>) -> Seq<u8> {
    encode_utf8(s)
}

/// Whether the filter can be evaluated against the current schema: its
/// column resolves by name, the filter kind applies to that column's
/// category, and its parameters are present and parseable.
pub open spec fn filter_valid_spec(t: TableV, f: RowFilterV) -> bool {
    let ci = find_column(t.columns, f.column_schema.column_name);
    if ci < 0 {
        false
    } else {
        let cat = t.columns[ci].type_category;
        match f.filter_type {
            RowFilterType::Compare => (cat == TypeCategory::Number || cat
                == TypeCategory::DateTime) && match f.compare_params {
                Some(p) => parse_fixed_spec(bytes_of(p.value)) is Some,
                None => false,
            },
            RowFilterType::Between => (cat == TypeCategory::Number || cat
                == TypeCategory::DateTime) && match f.between_params {
                Some(p) => parse_fixed_spec(bytes_of(p.left_value)) is Some && parse_fixed_spec(
                    bytes_of(p.right_value),
                ) is Some,
                None => false,
            },
            RowFilterType::Search => cat == TypeCategory::Text && match f.search_params {
                Some(p) => p.search_type != SearchFilterType::RegexMatch || regex_valid(
                    p.term,
                    !p.case_sensitive,
                ),
                None => false,
            },
            RowFilterType::SetMembership => cat == TypeCategory::Text
                && f.set_membership_params is Some,
            RowFilterType::NotNull => true,
            RowFilterType::IsNull => true,
            RowFilterType::IsEmpty => cat == TypeCategory::Text,
            RowFilterType::IsTrue => cat == TypeCategory::Boolean,
            RowFilterType::IsFalse => cat == TypeCategory::Boolean,
        }
    }
}

/// Does the relational operator hold between two scaled values?
pub open spec fn op_holds(a: int, b: int, op: CompareFilterParamsOp) -> bool {
    match op {
        CompareFilterParamsOp::Eq => a == b,
        CompareFilterParamsOp::NotEq => a != b,
        CompareFilterParamsOp::Lt => a < b,
        CompareFilterParamsOp::LtEq => a <= b,
        CompareFilterParamsOp::Gt => a > b,
        CompareFilterParamsOp::GtEq => a >= b,
    }
}

/// Compare semantics per cell: finite numbers by value, the infinities as
/// beyond every finite operand, and every other cell never matching.
pub open spec fn compare_matches(cell: CellV, op: CompareFilterParamsOp, target: int) -> bool {
    match cell {
        CellV::Number(m) => op_holds(m, target, op),
        CellV::Whole(w) => op_holds(w * FIXED_SCALE, target, op),
        CellV::Infinite => op == CompareFilterParamsOp::Gt || op == CompareFilterParamsOp::GtEq
            || op == CompareFilterParamsOp::NotEq,
        CellV::NegInfinite => op == CompareFilterParamsOp::Lt || op == CompareFilterParamsOp::LtEq
            || op == CompareFilterParamsOp::NotEq,
        _ => false,
    }
}

/// Between semantics: finite numbers within the inclusive bounds.
pub open spec fn between_matches(cell: CellV, lo: int, hi: int) -> bool {
    match cell {
        CellV::Number(m) => lo <= m <= hi,
        CellV::Whole(w) => lo <= w * FIXED_SCALE <= hi,
        _ => false,
    }
}

/// Search semantics on a text cell; case-insensitive variants lowercase
/// both sides first.
pub open spec fn search_matches(cell: CellV, p: SearchFilterParamsV) -> bool {
    match cell {
        CellV::Text(s) => {
            match p.search_type {
                SearchFilterType::Contains => if p.case_sensitive {
                    contains_seq(bytes_of(s), bytes_of(p.term))
                } else {
                    contains_seq(bytes_of(lower_of(s)), bytes_of(lower_of(p.term)))
                },
                SearchFilterType::StartsWith => if p.case_sensitive {
                    starts_with_seq(bytes_of(s), bytes_of(p.term))
                } else {
                    starts_with_seq(bytes_of(lower_of(s)), bytes_of(lower_of(p.term)))
                },
                SearchFilterType::EndsWith => if p.case_sensitive {
                    ends_with_seq(bytes_of(s), bytes_of(p.term))
                } else {
                    ends_with_seq(bytes_of(lower_of(s)), bytes_of(lower_of(p.term)))
                },
                SearchFilterType::RegexMatch => regex_match(p.term, !p.case_sensitive, s),
            }
        },
        _ => false,
    }
}

/// Is the text among the listed values?
pub open spec fn value_listed(vals: Seq<Seq<char>>, s: Seq<char>) -> bool {
    exists|i: int| 0 <= i < vals.len() && vals[i] == s
}

/// Set-membership semantics on a text cell; cells that are not text never
/// match, in either mode.
pub open spec fn membership_matches(cell: CellV, p: SetMembershipFilterParamsV) -> bool {
    match cell {
        CellV::Text(s) => if p.inclusive {
            value_listed(p.values, s)
        } else {
            !value_listed(p.values, s)
        },
        _ => false,
    }
}

/// Whether a (valid) filter keeps the given row.
pub open spec fn filter_matches_spec(t: TableV, f: RowFilterV, row: int) -> bool {
    let ci = find_column(t.columns, f.column_schema.column_name);
    let cell = t.cells[ci][row];
    match f.filter_type {
        RowFilterType::Compare => match f.compare_params {
            Some(p) => compare_matches(cell, p.op, parse_fixed_spec(bytes_of(p.value))->0),
            None => false,
        },
        RowFilterType::Between => match f.between_params {
            Some(p) => between_matches(
                cell,
                parse_fixed_spec(bytes_of(p.left_value))->0,
                parse_fixed_spec(bytes_of(p.right_value))->0,
            ),
            None => false,
        },
        RowFilterType::Search => match f.search_params {
            Some(p) => search_matches(cell, p),
            None => false,
        },
        RowFilterType::SetMembership => match f.set_membership_params {
            Some(p) => membership_matches(cell, p),
            None => false,
        },
        RowFilterType::NotNull => !cell_is_null(cell),
        RowFilterType::IsNull => cell_is_null(cell),
        RowFilterType::IsEmpty => cell matches CellV::Text(s) && s.len() == 0,
        RowFilterType::IsTrue => cell == CellV::Logical(true),
        RowFilterType::IsFalse => cell == CellV::Logical(false),
    }
}

/// Is some filter among the first `k` valid?
pub open spec fn any_valid_upto(t: TableV, fs: Seq<RowFilterV>, k: int) -> bool {
    exists|j: int| 0 <= j < k && filter_valid_spec(t, #[trigger] fs[j])
}

/// Whether the row stays selected after the first `k` filters: invalid
/// filters are skipped, the first valid filter seeds the selection, and
/// each later valid filter combines with its own condition.
pub open spec fn selected_upto(t: TableV, fs: Seq<RowFilterV>, k: int, row: int) -> bool
    decreases k,
{
    if k <= 0 {
        true
    } else {
        let prev = selected_upto(t, fs, k - 1, row);
        let f = fs[k - 1];
        if !filter_valid_spec(t, f) {
            prev
        } else if !any_valid_upto(t, fs, k - 1) {
            filter_matches_spec(t, f, row)
        } else {
            match f.condition {
                RowFilterCondition::And => prev && filter_matches_spec(t, f, row),
                RowFilterCondition::Or => prev || filter_matches_spec(t, f, row),
            }
        }
    }
}

/// Whether the whole filter list keeps the row.
pub open spec fn row_selected(t: TableV, fs: Seq<RowFilterV>, row: int) -> bool {
    selected_upto(t, fs, fs.len() as int, row)
}

/// Views of a vector of filters.
pub open spec fn filters_view(fs: Seq<RowFilter>) -> Seq<RowFilterV> {
    fs.map_values(|f: RowFilter| f@)
}

/// Number of selected rows in a mask.
pub open spec fn count_true(mask: Seq<bool>) -> int
    decreases mask.len(),
{
    if mask.len() == 0 {
        0
    } else {
        count_true(mask.drop_last()) + if mask.last() {
            1int
        } else {
            0int
        }
    }
}

/// Count the selected rows of a mask.
pub fn count_true_exec(mask: &Vec<bool>) -> (r: usize)
    ensures
        r == count_true(mask@),
        r <= mask@.len(),
{
    let mut cnt: usize = 0;
    let mut i: usize = 0;
    while i < mask.len()
        invariant
            i <= mask@.len(),
            cnt == count_true(mask@.take(i as int)),
            cnt <= i,
        decreases mask@.len() - i,
    {
        proof {
            assert(mask@.take(i + 1).drop_last() =~= mask@.take(i as int));
        }
        if mask[i] {
            cnt = cnt + 1;
        }
        i = i + 1;
    }
    proof {
        assert(mask@.take(mask@.len() as int) =~= mask@);
    }
    cnt
}

/// An owned copy of a short message.
fn msg(text: &str) -> (r: String)
    requires
        text@.len() > 0,
    ensures
        r@.len() > 0,
{
    text.to_owned()
}

/// Validate one filter against the current schema: `None` when it is
/// usable, otherwise the reason it is not.
pub fn validate_filter(t: &Table, f: &RowFilter) -> (r: Option<String>)
    ensures
        (r is None) == filter_valid_spec(t@, f@),
        r is Some ==> r.unwrap()@.len() > 0,
{
    let ci = match find_column_exec(t, &f.column_schema.column_name) {
        Some(i) => i,
        None => {
            let s = "the filtered column was not found in the current schema";
            proof {
                reveal_strlit("the filtered column was not found in the current schema");
            }
            return Some(msg(s));
        },
    };
    let cat = t.columns[ci].type_category;
    match f.filter_type {
        RowFilterType::Compare => {
            if !(category_eq(cat, TypeCategory::Number) || category_eq(
                cat,
                TypeCategory::DateTime,
            )) {
                let s = "a compare filter needs a number or date-time column";
                proof {
                    reveal_strlit("a compare filter needs a number or date-time column");
                }
                return Some(msg(s));
            }
            match &f.compare_params {
                Some(p) => {
                    match parse_fixed(p.value.as_str()) {
                        Some(_) => None,
                        None => {
                            let s = "the compare operand is not a valid number";
                            proof {
                                reveal_strlit("the compare operand is not a valid number");
                            }
                            Some(msg(s))
                        },
                    }
                },
                None => {
                    let s = "the compare filter has no parameters";
                    proof {
                        reveal_strlit("the compare filter has no parameters");
                    }
                    Some(msg(s))
                },
            }
        },
        RowFilterType::Between => {
            if !(category_eq(cat, TypeCategory::Number) || category_eq(
                cat,
                TypeCategory::DateTime,
            )) {
                let s = "a between filter needs a number or date-time column";
                proof {
                    reveal_strlit("a between filter needs a number or date-time column");
                }
                return Some(msg(s));
            }
            match &f.between_params {
                Some(p) => {
                    if parse_fixed(p.left_value.as_str()).is_none() || parse_fixed(
                        p.right_value.as_str(),
                    ).is_none() {
                        let s = "a between bound is not a valid number";
                        proof {
                            reveal_strlit("a between bound is not a valid number");
                        }
                        Some(msg(s))
                    } else {
                        None
                    }
                },
                None => {
                    let s = "the between filter has no parameters";
                    proof {
                        reveal_strlit("the between filter has no parameters");
                    }
                    Some(msg(s))
                },
            }
        },
        RowFilterType::Search => {
            if !category_eq(cat, TypeCategory::Text) {
                let s = "a search filter needs a text column";
                proof {
                    reveal_strlit("a search filter needs a text column");
                }
                return Some(msg(s));
            }
            match &f.search_params {
                Some(p) => {
                    match p.search_type {
                        SearchFilterType::RegexMatch => {
                            if regex_pattern_ok(p.term.as_str(), !p.case_sensitive) {
                                None
                            } else {
                                let s = "the search pattern is not a valid regular expression";
                                proof {
                                    reveal_strlit(
                                        "the search pattern is not a valid regular expression",
                                    );
                                }
                                Some(msg(s))
                            }
                        },
                        _ => None,
                    }
                },
                None => {
                    let s = "the search filter has no parameters";
                    proof {
                        reveal_strlit("the search filter has no parameters");
                    }
                    Some(msg(s))
                },
            }
        },
        RowFilterType::SetMembership => {
            if !category_eq(cat, TypeCategory::Text) {
                let s = "a membership filter needs a text column";
                proof {
                    reveal_strlit("a membership filter needs a text column");
                }
                return Some(msg(s));
            }
            match &f.set_membership_params {
                Some(_) => None,
                None => {
                    let s = "the membership filter has no parameters";
                    proof {
                        reveal_strlit("the membership filter has no parameters");
                    }
                    Some(msg(s))
                },
            }
        },
        RowFilterType::NotNull => None,
        RowFilterType::IsNull => None,
        RowFilterType::IsEmpty => {
            if category_eq(cat, TypeCategory::Text) {
                None
            } else {
                let s = "an is-empty filter needs a text column";
                proof {
                    reveal_strlit("an is-empty filter needs a text column");
                }
                Some(msg(s))
            }
        },
        RowFilterType::IsTrue => {
            if category_eq(cat, TypeCategory::Boolean) {
                None
            } else {
                let s = "an is-true filter needs a boolean column";
                proof {
                    reveal_strlit("an is-true filter needs a boolean column");
                }
                Some(msg(s))
            }
        },
        RowFilterType::IsFalse => {
            if category_eq(cat, TypeCategory::Boolean) {
                None
            } else {
                let s = "an is-false filter needs a boolean column";
                proof {
                    reveal_strlit("an is-false filter needs a boolean column");
                }
                Some(msg(s))
            }
        },
    }
}

/// Relational comparison of two scaled values.
fn op_holds_exec(a: i64, b: i64, op: CompareFilterParamsOp) -> (r: bool)
    ensures
        r == op_holds(a as int, b as int, op),
{
    match op {
        CompareFilterParamsOp::Eq => a == b,
        CompareFilterParamsOp::NotEq => a != b,
        CompareFilterParamsOp::Lt => a < b,
        CompareFilterParamsOp::LtEq => a <= b,
        CompareFilterParamsOp::Gt => a > b,
        CompareFilterParamsOp::GtEq => a >= b,
    }
}

/// Whether the text equals one of the listed values.
fn value_listed_exec(vals: &Vec<String>, s: &String) -> (r: bool)
    ensures
        r == value_listed(vals@.map_values(|v: String| v@), s@),
{
    let ghost vv = vals@.map_values(|v: String| v@);
    let mut i: usize = 0;
    while i < vals.len()
        invariant
            vv == vals@.map_values(|v: String| v@),
            i <= vals@.len(),
            forall|j: int| 0 <= j < i ==> #[trigger] vv[j] != s@,
        decreases vals@.len() - i,
    {
        if vals[i] == *s {
            assert(vv[i as int] == s@);
            return true;
        }
        assert(vv[i as int] != s@);
        i = i + 1;
    }
    false
}

/// Evaluate one valid filter against one row.
pub fn filter_matches_exec(t: &Table, f: &RowFilter, row: usize) -> (r: bool)
    requires
        t.wf(),
        filter_valid_spec(t@, f@),
        row < t@.nrows,
    ensures
        r == filter_matches_spec(t@, f@, row as int),
{
    proof {
        lemma_find_column_in_range(t@.columns, f@.column_schema.column_name);
    }
    let ci = match find_column_exec(t, &f.column_schema.column_name) {
        Some(i) => i,
        None => {
            assert(false);
            return false;
        },
    };
    let cell = t.cell_at(ci, row);
    match f.filter_type {
        RowFilterType::Compare => {
            let p = match &f.compare_params {
                Some(p) => p,
                None => {
                    assert(false);
                    return false;
                },
            };
            let target = match parse_fixed(p.value.as_str()) {
                Some(v) => v,
                None => {
                    assert(false);
                    return false;
                },
            };
            match cell {
                Cell::Number(m) => op_holds_exec(m.scaled, target.scaled, p.op),
                Cell::Whole(w) => op_holds_exec(*w * FIXED_SCALE, target.scaled, p.op),
                Cell::Infinite => match p.op {
                    CompareFilterParamsOp::Gt => true,
                    CompareFilterParamsOp::GtEq => true,
                    CompareFilterParamsOp::NotEq => true,
                    _ => false,
                },
                Cell::NegInfinite => match p.op {
                    CompareFilterParamsOp::Lt => true,
                    CompareFilterParamsOp::LtEq => true,
                    CompareFilterParamsOp::NotEq => true,
                    _ => false,
                },
                _ => false,
            }
        },
        RowFilterType::Between => {
            let p = match &f.between_params {
                Some(p) => p,
                None => {
                    assert(false);
                    return false;
                },
            };
            let lo = match parse_fixed(p.left_value.as_str()) {
                Some(v) => v,
                None => {
                    assert(false);
                    return false;
                },
            };
            let hi = match parse_fixed(p.right_value.as_str()) {
                Some(v) => v,
                None => {
                    assert(false);
                    return false;
                },
            };
            match cell {
                Cell::Number(m) => lo.scaled <= m.scaled && m.scaled <= hi.scaled,
                Cell::Whole(w) => {
                    let v = *w * FIXED_SCALE;
                    lo.scaled <= v && v <= hi.scaled
                },
                _ => false,
            }
        },
        RowFilterType::Search => {
            let p = match &f.search_params {
                Some(p) => p,
                None => {
                    assert(false);
                    return false;
                },
            };
            match cell {
                Cell::Text(s) => {
                    match p.search_type {
                        SearchFilterType::Contains => {
                            if p.case_sensitive {
                                str_contains(s.as_str(), p.term.as_str())
                            } else {
                                let ls = to_lower(s.as_str());
                                let lt = to_lower(p.term.as_str());
                                str_contains(ls.as_str(), lt.as_str())
                            }
                        },
                        SearchFilterType::StartsWith => {
                            if p.case_sensitive {
                                str_starts_with(s.as_str(), p.term.as_str())
                            } else {
                                let ls = to_lower(s.as_str());
                                let lt = to_lower(p.term.as_str());
                                str_starts_with(ls.as_str(), lt.as_str())
                            }
                        },
                        SearchFilterType::EndsWith => {
                            if p.case_sensitive {
                                str_ends_with(s.as_str(), p.term.as_str())
                            } else {
                                let ls = to_lower(s.as_str());
                                let lt = to_lower(p.term.as_str());
                                str_ends_with(ls.as_str(), lt.as_str())
                            }
                        },
                        SearchFilterType::RegexMatch => {
                            match regex_is_match(p.term.as_str(), !p.case_sensitive, s.as_str()) {
                                Some(b) => b,
                                None => {
                                    assert(false);
                                    false
                                },
                            }
                        },
                    }
                },
                _ => false,
            }
        },
        RowFilterType::SetMembership => {
            let p = match &f.set_membership_params {
                Some(p) => p,
                None => {
                    assert(false);
                    return false;
                },
            };
            match cell {
                Cell::Text(s) => {
                    let listed = value_listed_exec(&p.values, s);
                    if p.inclusive {
                        listed
                    } else {
                        !listed
                    }
                },
                _ => false,
            }
        },
        RowFilterType::NotNull => !cell.is_null(),
        RowFilterType::IsNull => cell.is_null(),
        RowFilterType::IsEmpty => match cell {
            Cell::Text(s) => s.as_str().is_empty(),
            _ => false,
        },
        RowFilterType::IsTrue => match cell {
            Cell::Logical(b) => *b,
            _ => false,
        },
        RowFilterType::IsFalse => match cell {
            Cell::Logical(b) => !*b,
            _ => false,
        },
    }
}

/// Evaluate the whole filter list against one row.
fn row_selected_exec(t: &Table, fs: &Vec<RowFilter>, valid: &Vec<bool>, row: usize) -> (r: bool)
    requires
        t.wf(),
        row < t@.nrows,
        valid@.len() == fs@.len(),
        forall|i: int|
            0 <= i < fs@.len() ==> valid@[i] == filter_valid_spec(t@, #[trigger] fs@[i]@),
    ensures
        r == row_selected(t@, filters_view(fs@), row as int),
{
    let ghost fv = filters_view(fs@);
    let n = fs.len();
    let mut acc: bool = true;
    let mut seeded: bool = false;
    let mut k: usize = 0;
    while k < n
        invariant
            t.wf(),
            row < t@.nrows,
            n == fs@.len(),
            fv == filters_view(fs@),
            valid@.len() == fs@.len(),
            forall|i: int|
                0 <= i < fs@.len() ==> valid@[i] == filter_valid_spec(t@, #[trigger] fs@[i]@),
            k <= n,
            seeded == any_valid_upto(t@, fv, k as int),
            acc == selected_upto(t@, fv, k as int, row as int),
        decreases n - k,
    {
        assert(fv[k as int] == fs@[k as int]@);
        if valid[k] {
            let m = filter_matches_exec(t, &fs[k], row);
            if !seeded {
                acc = m;
                seeded = true;
            } else {
                acc = match fs[k].condition {
                    RowFilterCondition::And => acc && m,
                    RowFilterCondition::Or => acc || m,
                };
            }
            assert(any_valid_upto(t@, fv, k + 1)) by {
                assert(filter_valid_spec(t@, fv[k as int]));
            }
        } else {
            assert(any_valid_upto(t@, fv, k + 1) == any_valid_upto(t@, fv, k as int)) by {
                if any_valid_upto(t@, fv, k + 1) {
                    let j = choose|j: int|
                        0 <= j < k + 1 && filter_valid_spec(t@, #[trigger] fv[j]);
                    assert(j < k);
                    assert(any_valid_upto(t@, fv, k as int));
                }
                if any_valid_upto(t@, fv, k as int) {
                    let j = choose|j: int| 0 <= j < k && filter_valid_spec(t@, #[trigger] fv[j]);
                    assert(0 <= j < k + 1 && filter_valid_spec(t@, fv[j]));
                }
            }
        }
        k = k + 1;
    }
    acc
}

/// Compute the selection mask of the filter list: one flag per source row.
pub fn compute_selection(t: &Table, fs: &Vec<RowFilter>) -> (mask: Vec<bool>)
    requires
        t.wf(),
    ensures
        mask@.len() == t@.nrows,
        forall|r: int|
            0 <= r < t@.nrows ==> mask@[r] == row_selected(t@, filters_view(fs@), r),
{
    let n = fs.len();
    let mut valid: Vec<bool> = Vec::new();
    let mut i: usize = 0;
    while i < n
        invariant
            t.wf(),
            n == fs@.len(),
            i <= n,
            valid@.len() == i,
            forall|j: int|
                0 <= j < i ==> valid@[j] == filter_valid_spec(t@, #[trigger] fs@[j]@),
        decreases n - i,
    {
        let v = validate_filter(t, &fs[i]).is_none();
        valid.push(v);
        i = i + 1;
    }
    let mut mask: Vec<bool> = Vec::new();
    let mut r: usize = 0;
    while r < t.nrows
        invariant
            t.wf(),
            valid@.len() == fs@.len(),
            forall|j: int|
                0 <= j < fs@.len() ==> valid@[j] == filter_valid_spec(t@, #[trigger] fs@[j]@),
            r <= t@.nrows,
            mask@.len() == r,
            forall|j: int| 0 <= j < r ==> mask@[j] == row_selected(t@, filters_view(fs@), j),
        decreases t@.nrows - r,
    {
        let s = row_selected_exec(t, fs, &valid, r);
        mask.push(s);
        r = r + 1;
    }
    mask
}

/// Validation never reads the derived annotations: two filters with the
/// same core validate alike.
pub proof fn lemma_valid_same_core(t: TableV, a: RowFilterV, b: RowFilterV)
    requires
        same_core(a, b),
    ensures
        filter_valid_spec(t, a) == filter_valid_spec(t, b),
        forall|row: int| filter_matches_spec(t, a, row) == filter_matches_spec(t, b, row),
{
}

/// Re-validate every stored filter against a (possibly new) schema,
/// keeping each filter's core and rewriting only its annotations.
pub fn revalidate_filters(t: &Table, fs: &Vec<RowFilter>) -> (r: Vec<RowFilter>)
    ensures
        r@.len() == fs@.len(),
        forall|i: int|
            0 <= i < fs@.len() ==> {
                &&& same_core(#[trigger] r@[i]@, fs@[i]@)
                &&& r@[i]@.is_valid == Some(filter_valid_spec(t@, fs@[i]@))
                &&& (r@[i]@.error_message is Some <==> !filter_valid_spec(t@, fs@[i]@))
                &&& (r@[i]@.error_message is Some ==> r@[i]@.error_message->0.len() > 0)
            },
{
    let n = fs.len();
    let mut out: Vec<RowFilter> = Vec::new();
    let mut i: usize = 0;
    while i < n
        invariant
            n == fs@.len(),
            i <= n,
            out@.len() == i,
            forall|j: int|
                0 <= j < i ==> {
                    &&& same_core(#[trigger] out@[j]@, fs@[j]@)
                    &&& out@[j]@.is_valid == Some(filter_valid_spec(t@, fs@[j]@))
                    &&& (out@[j]@.error_message is Some <==> !filter_valid_spec(t@, fs@[j]@))
                    &&& (out@[j]@.error_message is Some ==> out@[j]@.error_message->0.len() > 0)
                },
        decreases n - i,
    {
        let mut f = fs[i].duplicate();
        let verdict = validate_filter(t, &fs[i]);
        match verdict {
            None => {
                f.is_valid = Some(true);
                f.error_message = None;
            },
            Some(m) => {
                f.is_valid = Some(false);
                f.error_message = Some(m);
            },
        }
        out.push(f);
        i = i + 1;
    }
    out
}

} // verus!
