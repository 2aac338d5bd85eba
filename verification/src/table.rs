//! Tables: column schemas, cell storage, and change classification.
//!
//! A table is an immutable snapshot of the data source: a column-major grid
//! of plain cells with per-column schema and optional row names.  The host
//! converts whatever it watches into this shape and hands the engine a fresh
//! snapshot whenever it wants mutation detected.

use vstd::prelude::*;
use crate::cells::{Cell, CellV};

verus! {

/// Bound on the row count of a table, chosen so that sums and squared
/// deviations over one column fit in `i128`.
pub const MAX_ROWS: usize = 100_000_000;

/// The broad kind of a column, used to validate filters and classify
/// schema changes.
#[derive(Clone, Copy, PartialEq, Eq, Structural, Debug)]
pub enum TypeCategory {
    Number,
    Boolean,
    Text,
    DateTime,
    Other,
}

/// Schema of one column.
#[derive(Clone, Debug)]
pub struct ColumnSchema {
    /// Position of the column in the current schema.
    pub column_index: usize,
    /// Name of the column; filters resolve their column by this name.
    pub column_name: String,
    /// Display name of the concrete type.
    pub type_label: String,
    /// Broad kind of the column.
    pub type_category: TypeCategory,
}

/// Mathematical value of a column schema.
pub struct ColumnSchemaV {
    pub column_index: int,
    pub column_name: Seq<char>,
    pub type_label: Seq<char>,
    pub type_category: TypeCategory,
}

impl View for ColumnSchema {
    type V = ColumnSchemaV;

    open spec fn view(&self) -> ColumnSchemaV {
        ColumnSchemaV {
            column_index: self.column_index as int,
            column_name: self.column_name@,
            type_label: self.type_label@,
            type_category: self.type_category,
        }
    }
}

impl ColumnSchema {
    /// An equal schema, with an exact contract.
    pub fn duplicate(&self) -> (r: ColumnSchema)
        ensures
            r@ == self@,
    {
        ColumnSchema {
            column_index: self.column_index,
            column_name: self.column_name.clone(),
            type_label: self.type_label.clone(),
            type_category: self.type_category,
        }
    }
}

/// An immutable table snapshot, stored column-major.
#[derive(Debug)]
pub struct Table {
    /// Schema of each column, in order.
    pub columns: Vec<ColumnSchema>,
    /// Cells of each column; `cells[c][r]` is row `r` of column `c`.
    pub cells: Vec<Vec<Cell>>,
    /// Number of rows.
    pub nrows: usize,
    /// Row names, when the source exposes row identity.
    pub row_names: Option<Vec<String>>,
}

/// Mathematical value of a table.
pub struct TableV {
    pub columns: Seq<ColumnSchemaV>,
    pub cells: Seq<Seq<CellV>>,
    pub nrows: int,
    pub row_names: Option<Seq<Seq<char>>>,
}

impl View for Table {
    type V = TableV;

    open spec fn view(&self) -> TableV {
        TableV {
            columns: self.columns@.map_values(|c: ColumnSchema| c@),
            cells: self.cells@.map_values(|col: Vec<Cell>| col@.map_values(|c: Cell| c@)),
            nrows: self.nrows as int,
            row_names: match self.row_names {
                Some(ns) => Some(ns@.map_values(|n: String| n@)),
                None => None,
            },
        }
    }
}

impl Table {
    /// Well-formedness: a consistent rectangular grid of bounded cells.
    pub open spec fn wf(self) -> bool {
        &&& self.columns@.len() == self.cells@.len()
        &&& self.nrows <= MAX_ROWS
        &&& forall|c: int|
            0 <= c < self.cells@.len() ==> (#[trigger] self.cells@[c])@.len() == self.nrows
        &&& forall|c: int|
            0 <= c < self.columns@.len() ==> (#[trigger] self.columns@[c]).column_index == c
        &&& forall|c: int, r: int|
            0 <= c < self.cells@.len() && 0 <= r < self.nrows ==> (#[trigger] self.cells@[c]@[r]).wf()
        &&& match self.row_names {
            Some(ns) => ns@.len() == self.nrows,
            None => true,
        }
    }

    /// Number of columns.
    pub fn ncols(&self) -> (r: usize)
        ensures
            r == self@.columns.len(),
    {
        self.columns.len()
    }

    /// The cell at column `c`, row `r`.
    pub fn cell_at(&self, c: usize, r: usize) -> (cell: &Cell)
        requires
            self.wf(),
            c < self@.columns.len(),
            r < self@.nrows,
        ensures
            cell@ == self@.cells[c as int][r as int],
            cell.wf(),
    {
        &self.cells[c][r]
    }

    /// Build a table after checking well-formedness; reports whether the
    /// pieces form a consistent grid.
    pub fn new(
        columns: Vec<ColumnSchema>,
        cells: Vec<Vec<Cell>>,
        nrows: usize,
        row_names: Option<Vec<String>>,
    ) -> (r: Option<Table>)
        ensures
            match r {
                Some(t) => t.wf() && t == (Table { columns, cells, nrows, row_names }),
                None => !(Table { columns, cells, nrows, row_names }).wf(),
            },
    {
        let t = Table { columns, cells, nrows, row_names };
        if t.check_wf() {
            Some(t)
        } else {
            None
        }
    }

    /// Run-time check of the well-formedness conditions.
    pub fn check_wf(&self) -> (r: bool)
        ensures
            r == self.wf(),
    {
        if self.columns.len() != self.cells.len() {
            return false;
        }
        if self.nrows > MAX_ROWS {
            return false;
        }
        match &self.row_names {
            Some(ns) => {
                if ns.len() != self.nrows {
                    return false;
                }
            },
            None => {},
        }
        let nc = self.cells.len();
        let mut c: usize = 0;
        while c < nc
            invariant
                nc == self.cells@.len(),
                nc == self.columns@.len(),
                c <= nc,
                forall|k: int| 0 <= k < c ==> (#[trigger] self.cells@[k])@.len() == self.nrows,
                forall|k: int| 0 <= k < c ==> (#[trigger] self.columns@[k]).column_index == k,
                forall|k: int, r: int|
                    0 <= k < c && 0 <= r < self.nrows ==> (#[trigger] self.cells@[k]@[r]).wf(),
            decreases nc - c,
        {
            if self.cells[c].len() != self.nrows {
                return false;
            }
            if self.columns[c].column_index != c {
                return false;
            }
            let col = &self.cells[c];
            let mut r: usize = 0;
            while r < self.nrows
                invariant
                    nc == self.cells@.len(),
                    c < nc,
                    col == &self.cells@[c as int],
                    col@.len() == self.nrows,
                    r <= self.nrows,
                    forall|j: int| 0 <= j < r ==> (#[trigger] col@[j]).wf(),
                decreases self.nrows - r,
            {
                if !cell_wf_exec(&col[r]) {
                    assert(!(#[trigger] self.cells@[c as int]@[r as int]).wf());
                    return false;
                }
                r = r + 1;
            }
            c = c + 1;
        }
        true
    }
}

/// Run-time check of the cell bounds.
fn cell_wf_exec(c: &Cell) -> (r: bool)
    ensures
        r == c.wf(),
{
    match c {
        Cell::Number(f) => -crate::fixed::FIXED_MAX <= f.scaled && f.scaled
            <= crate::fixed::FIXED_MAX,
        Cell::Whole(w) => -crate::cells::WHOLE_MAX <= *w && *w <= crate::cells::WHOLE_MAX,
        _ => true,
    }
}

/// How a fresh snapshot differs from the cached one.
#[derive(Clone, Copy, PartialEq, Eq, Structural, Debug)]
pub enum ChangeKind {
    /// Equal in every observable part.
    NoChange,
    /// Same column count and categories; anything else differs.
    DataChanged,
    /// Column count or some column category differs.
    SchemaChanged,
}

/// The structural fingerprint agrees: same column count and, column by
/// column, the same type category.
pub open spec fn same_schema_types(a: TableV, b: TableV) -> bool {
    a.columns.len() == b.columns.len() && forall|i: int|
        0 <= i < a.columns.len() ==> (#[trigger] a.columns[i]).type_category
            == b.columns[i].type_category
}

/// Classification of an update: a differing fingerprint is a schema change,
/// any other observable difference is a data change.
pub open spec fn classify_spec(a: TableV, b: TableV) -> ChangeKind {
    if !same_schema_types(a, b) {
        ChangeKind::SchemaChanged
    } else if a == b {
        ChangeKind::NoChange
    } else {
        ChangeKind::DataChanged
    }
}

/// Compare two tables in every observable part.
pub fn tables_equal(a: &Table, b: &Table) -> (r: bool)
    requires
        a.wf(),
        b.wf(),
    ensures
        r == (a@ == b@),
{
    let nc = a.columns.len();
    if nc != b.columns.len() {
        assert(a@.columns.len() != b@.columns.len());
        return false;
    }
    if a.nrows != b.nrows {
        return false;
    }
    let mut c: usize = 0;
    while c < nc
        invariant
            a.wf(),
            b.wf(),
            nc == a@.columns.len(),
            nc == b@.columns.len(),
            a.nrows == b.nrows,
            c <= nc,
            forall|k: int| 0 <= k < c ==> #[trigger] a@.columns[k] == b@.columns[k],
            forall|k: int| 0 <= k < c ==> #[trigger] a@.cells[k] == b@.cells[k],
        decreases nc - c,
    {
        let ca = &a.columns[c];
        let cb = &b.columns[c];
        if !(ca.column_name == cb.column_name) {
            assert(a@.columns[c as int].column_name != b@.columns[c as int].column_name);
            return false;
        }
        if !(ca.type_label == cb.type_label) {
            assert(a@.columns[c as int].type_label != b@.columns[c as int].type_label);
            return false;
        }
        if !category_eq(ca.type_category, cb.type_category) {
            assert(a@.columns[c as int].type_category != b@.columns[c as int].type_category);
            return false;
        }
        assert(a@.columns[c as int] == b@.columns[c as int]);
        let cola = &a.cells[c];
        let colb = &b.cells[c];
        let mut r: usize = 0;
        while r < a.nrows
            invariant
                a.wf(),
                b.wf(),
                c < a@.columns.len(),
                c < b@.columns.len(),
                a.nrows == b.nrows,
                cola == &a.cells@[c as int],
                colb == &b.cells@[c as int],
                cola@.len() == a.nrows,
                colb@.len() == a.nrows,
                r <= a.nrows,
                forall|j: int| 0 <= j < r ==> #[trigger] cola@[j]@ == colb@[j]@,
            decreases a.nrows - r,
        {
            if !cola[r].same_value(&colb[r]) {
                assert(a@.cells[c as int][r as int] != b@.cells[c as int][r as int]);
                return false;
            }
            r = r + 1;
        }
        assert(a@.cells[c as int] =~= b@.cells[c as int]);
        c = c + 1;
    }
    match (&a.row_names, &b.row_names) {
        (None, None) => {},
        (Some(na), Some(nb)) => {
            let mut r: usize = 0;
            while r < a.nrows
                invariant
                    a.wf(),
                    b.wf(),
                    a.nrows == b.nrows,
                    a.row_names == Some(*na),
                    b.row_names == Some(*nb),
                    na@.len() == a.nrows,
                    nb@.len() == a.nrows,
                    r <= a.nrows,
                    forall|j: int| 0 <= j < r ==> #[trigger] na@[j]@ == nb@[j]@,
                decreases a.nrows - r,
            {
                if !(na[r] == nb[r]) {
                    assert(a@.row_names.unwrap()[r as int] != b@.row_names.unwrap()[r as int]);
                    return false;
                }
                r = r + 1;
            }
            assert(a@.row_names.unwrap() =~= b@.row_names.unwrap());
        },
        _ => {
            return false;
        },
    }
    proof {
        assert(a@.columns =~= b@.columns);
        assert(a@.cells =~= b@.cells);
        assert(a@ =~= b@);
    }
    true
}

/// Equality of type categories.
pub fn category_eq(a: TypeCategory, b: TypeCategory) -> (r: bool)
    ensures
        r == (a == b),
{
    match (a, b) {
        (TypeCategory::Number, TypeCategory::Number) => true,
        (TypeCategory::Boolean, TypeCategory::Boolean) => true,
        (TypeCategory::Text, TypeCategory::Text) => true,
        (TypeCategory::DateTime, TypeCategory::DateTime) => true,
        (TypeCategory::Other, TypeCategory::Other) => true,
        _ => false,
    }
}

/// Classify how snapshot `b` differs from snapshot `a`.
pub fn classify_change(a: &Table, b: &Table) -> (r: ChangeKind)
    requires
        a.wf(),
        b.wf(),
    ensures
        r == classify_spec(a@, b@),
{
    let nc = a.columns.len();
    if nc != b.columns.len() {
        return ChangeKind::SchemaChanged;
    }
    let mut c: usize = 0;
    while c < nc
        invariant
            a.wf(),
            b.wf(),
            nc == a@.columns.len(),
            nc == b@.columns.len(),
            c <= nc,
            forall|k: int|
                0 <= k < c ==> (#[trigger] a@.columns[k]).type_category
                    == b@.columns[k].type_category,
        decreases nc - c,
    {
        if !category_eq(a.columns[c].type_category, b.columns[c].type_category) {
            assert(a@.columns[c as int].type_category != b@.columns[c as int].type_category);
            assert(!same_schema_types(a@, b@));
            return ChangeKind::SchemaChanged;
        }
        assert(a@.columns[c as int].type_category == b@.columns[c as int].type_category);
        c = c + 1;
    }
    assert(same_schema_types(a@, b@));
    if tables_equal(a, b) {
        ChangeKind::NoChange
    } else {
        ChangeKind::DataChanged
    }
}

} // verus!
