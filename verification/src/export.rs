//! Export of a view-space selection as delimited text.
//!
//! A selection is resolved in view coordinates (after filtering and
//! sorting) to source cells.  Each cell exports as plain text: numbers at
//! the engine's display rule with no grouping, texts verbatim, truth
//! values as `TRUE`/`FALSE`, null-like cells as nothing, and the special
//! numeric values by name.  A field that holds the delimiter, a quote, or
//! a line break is quoted with doubled quotes; fields are joined by the
//! format's delimiter and rows by a newline.

use vstd::prelude::*;
use vstd::string::StrSliceExecFns;
use crate::cells::{Cell, CellV};
use crate::numfmt::{format_scaled_spec, format_int_spec, format_scaled, format_int};
use crate::fixed::FIXED_SCALE;
use crate::table::{Table, TableV};

verus! {

/// The delimited-text formats a selection can export to.
#[derive(Clone, Copy, PartialEq, Eq, Structural, Debug)]
pub enum ExportFormat {
    Csv,
    Tsv,
}

/// One cell, in view coordinates.
#[derive(Clone, Copy, PartialEq, Eq, Structural, Debug)]
pub struct DataSelectionSingleCell {
    pub row_index: usize,
    pub column_index: usize,
}

/// A rectangle of cells, in view coordinates; bounds are inclusive.
#[derive(Clone, Copy, PartialEq, Eq, Structural, Debug)]
pub struct DataSelectionCellRange {
    pub first_row_index: usize,
    pub last_row_index: usize,
    pub first_column_index: usize,
    pub last_column_index: usize,
}

/// A run of whole rows or whole columns; bounds are inclusive.
#[derive(Clone, Copy, PartialEq, Eq, Structural, Debug)]
pub struct DataSelectionRange {
    pub first_index: usize,
    pub last_index: usize,
}

/// What a selection covers.
#[derive(Clone, Copy, PartialEq, Eq, Structural, Debug)]
pub enum DataSelectionKind {
    SingleCell,
    CellRange,
    RowRange,
    ColumnRange,
}

/// The resolved shape of a selection.
#[derive(Clone, Copy, PartialEq, Eq, Structural, Debug)]
pub enum Selection {
    SingleCell(DataSelectionSingleCell),
    CellRange(DataSelectionCellRange),
    RowRange(DataSelectionRange),
    ColumnRange(DataSelectionRange),
}

/// A selection request: its kind, and the coordinates.
#[derive(Clone, Copy, PartialEq, Eq, Structural, Debug)]
pub struct DataSelection {
    pub kind: DataSelectionKind,
    pub selection: Selection,
}

/// An export reply.
#[derive(Debug)]
pub struct ExportedData {
    pub format: ExportFormat,
    pub data: String,
}

/// Delimiter of the format.
pub open spec fn delim_of(f: ExportFormat) -> char {
    match f {
        ExportFormat::Csv => ',',
        ExportFormat::Tsv => '\t',
    }
}

/// Export digit rule: two fraction digits, four for small non-zero values.
pub open spec fn export_digits(m: int) -> nat {
    if m == 0 || m >= FIXED_SCALE || m <= -FIXED_SCALE {
        2
    } else {
        4
    }
}

/// Plain text of one exported cell, before quoting.
pub open spec fn export_cell_spec(c: CellV) -> Seq<char> {
    match c {
        CellV::Number(m) => format_scaled_spec(m, export_digits(m), Seq::<char>::empty()),
        CellV::Whole(w) => format_int_spec(w, Seq::<char>::empty()),
        CellV::Text(t) => t,
        CellV::Logical(b) => if b {
            "TRUE"@
        } else {
            "FALSE"@
        },
        CellV::Missing => Seq::<char>::empty(),
        CellV::Absent => Seq::<char>::empty(),
        CellV::NotANumber => "NaN"@,
        CellV::Infinite => "Inf"@,
        CellV::NegInfinite => "-Inf"@,
    }
}

/// Does the field need quoting under this delimiter?
pub open spec fn needs_quoting(s: Seq<char>, delim: char) -> bool {
    exists|i: int|
        0 <= i < s.len() && ((#[trigger] s[i]) == delim || s[i] == '"' || s[i] == '\n' || s[i]
            == '\r')
}

/// The field with every quote doubled.
pub open spec fn double_quotes(s: Seq<char>) -> Seq<char>
    decreases s.len(),
{
    if s.len() == 0 {
        s
    } else {
        double_quotes(s.drop_last()) + if s.last() == '"' {
            seq!['"', '"']
        } else {
            seq![s.last()]
        }
    }
}

/// The field as it stands in a line: quoted with doubled quotes when it
/// holds the delimiter, a quote, or a line break.
pub open spec fn escape_field(s: Seq<char>, delim: char) -> Seq<char> {
    if needs_quoting(s, delim) {
        seq!['"'] + double_quotes(s) + seq!['"']
    } else {
        s
    }
}

/// Exported, escaped text of the cell at view row `row`, column `col`.
pub open spec fn cell_field(t: TableV, view: Seq<usize>, row: int, col: int, delim: char) -> Seq<
    char,
> {
    escape_field(export_cell_spec(t.cells[col][view[row] as int]), delim)
}

/// One line: the fields of the columns `c0 ..= c1` at view row `row`.
pub open spec fn line_spec(
    t: TableV,
    view: Seq<usize>,
    row: int,
    c0: int,
    c1: int,
    delim: char,
) -> Seq<char>
    decreases c1 - c0,
{
    if c1 < c0 {
        Seq::<char>::empty()
    } else if c1 == c0 {
        cell_field(t, view, row, c0, delim)
    } else {
        line_spec(t, view, row, c0, c1 - 1, delim) + seq![delim] + cell_field(
            t,
            view,
            row,
            c1,
            delim,
        )
    }
}

/// The whole grid: lines for view rows `r0 ..= r1`, joined by newlines.
pub open spec fn grid_spec(
    t: TableV,
    view: Seq<usize>,
    r0: int,
    r1: int,
    c0: int,
    c1: int,
    delim: char,
) -> Seq<char>
    decreases r1 - r0,
{
    if r1 < r0 {
        Seq::<char>::empty()
    } else if r1 == r0 {
        line_spec(t, view, r0, c0, c1, delim)
    } else {
        grid_spec(t, view, r0, r1 - 1, c0, c1, delim) + seq!['\n'] + line_spec(
            t,
            view,
            r1,
            c0,
            c1,
            delim,
        )
    }
}

/// Relies on String::push: appends exactly one character.
#[verifier::external_body]
fn push_char(s: &mut String, c: char)
    ensures
        final(s)@ == old(s)@.push(c),
{
    s.push(c);
}

/// Append the field, quoted as needed, to `out`.
fn append_escaped(out: &mut String, field: &str, delim: char)
    ensures
        final(out)@ == old(out)@ + escape_field(field@, delim),
{
    let n = field.unicode_len();
    // does the field need quoting?
    let mut needs = false;
    let mut i: usize = 0;
    while i < n
        invariant
            n == field@.len(),
            i <= n,
            needs == exists|j: int|
                0 <= j < i && ((#[trigger] field@[j]) == delim || field@[j] == '"' || field@[j]
                    == '\n' || field@[j] == '\r'),
        decreases n - i,
    {
        let c = field.get_char(i);
        if c == delim || c == '"' || c == '\n' || c == '\r' {
            needs = true;
        }
        i = i + 1;
    }
    proof {
        if needs {
            let j = choose|j: int|
                0 <= j < n && ((#[trigger] field@[j]) == delim || field@[j] == '"' || field@[j]
                    == '\n' || field@[j] == '\r');
            assert(needs_quoting(field@, delim));
        }
        if needs_quoting(field@, delim) {
            assert(needs);
        }
    }
    if !needs {
        out.append(field);
        return ;
    }
    push_char(out, '"');
    let ghost mid = out@;
    let mut i: usize = 0;
    proof {
        assert(double_quotes(field@.take(0)) =~= Seq::<char>::empty());
        assert(out@ =~= mid + double_quotes(field@.take(0)));
    }
    while i < n
        invariant
            n == field@.len(),
            i <= n,
            out@ == mid + double_quotes(field@.take(i as int)),
        decreases n - i,
    {
        proof {
            assert(field@.take(i + 1).drop_last() =~= field@.take(i as int));
            assert(field@.take(i + 1).last() == field@[i as int]);
        }
        let c = field.get_char(i);
        if c == '"' {
            push_char(out, '"');
            push_char(out, '"');
            proof {
                assert(out@ =~= mid + double_quotes(field@.take(i + 1)));
            }
        } else {
            push_char(out, c);
            proof {
                assert(out@ =~= mid + double_quotes(field@.take(i + 1)));
            }
        }
        i = i + 1;
    }
    push_char(out, '"');
    proof {
        assert(field@.take(n as int) =~= field@);
        assert(out@ =~= old(out)@ + escape_field(field@, delim));
    }
}

/// Plain export text of one cell.
fn export_cell(c: &Cell) -> (r: String)
    requires
        c.wf(),
    ensures
        r@ == export_cell_spec(c@),
{
    match c {
        Cell::Number(f) => {
            let m = f.scaled;
            let dd: u32 = if m == 0 || m >= FIXED_SCALE || m <= -FIXED_SCALE {
                2
            } else {
                4
            };
            let e = "";
            proof {
                reveal_strlit("");
                assert(e@ =~= Seq::<char>::empty());
            }
            format_scaled(m, dd, e)
        },
        Cell::Whole(w) => {
            let e = "";
            proof {
                reveal_strlit("");
                assert(e@ =~= Seq::<char>::empty());
            }
            format_int(*w, e)
        },
        Cell::Text(t) => t.clone(),
        Cell::Logical(b) => {
            if *b {
                "TRUE".to_owned()
            } else {
                "FALSE".to_owned()
            }
        },
        Cell::Missing => String::new(),
        Cell::Absent => String::new(),
        Cell::NotANumber => "NaN".to_owned(),
        Cell::Infinite => "Inf".to_owned(),
        Cell::NegInfinite => "-Inf".to_owned(),
    }
}

/// Append one line of fields for view row `row`, columns `c0 ..= c1`.
fn append_line(
    out: &mut String,
    t: &Table,
    view: &Vec<usize>,
    row: usize,
    c0: usize,
    c1: usize,
    delim: char,
)
    requires
        t.wf(),
        row < view@.len(),
        forall|i: int| 0 <= i < view@.len() ==> (#[trigger] view@[i]) < t@.nrows,
        c0 <= c1 < t@.columns.len(),
    ensures
        final(out)@ == old(out)@ + line_spec(t@, view@, row as int, c0 as int, c1 as int, delim),
{
    let nc = t.ncols();
    assert(c1 < nc);
    let mut c: usize = c0;
    let ghost base = out@;
    let cell = t.cell_at(c0, view[row]);
    let field = export_cell(cell);
    append_escaped(out, field.as_str(), delim);
    proof {
        assert(out@ =~= base + line_spec(t@, view@, row as int, c0 as int, c0 as int, delim));
    }
    c = c0 + 1;
    while c <= c1
        invariant
            t.wf(),
            row < view@.len(),
            forall|i: int| 0 <= i < view@.len() ==> (#[trigger] view@[i]) < t@.nrows,
            c0 < c <= c1 + 1,
            c1 < nc,
            nc == t@.columns.len(),
            out@ == base + line_spec(t@, view@, row as int, c0 as int, c - 1, delim),
        decreases c1 - c + 1,
    {
        push_char(out, delim);
        let cell = t.cell_at(c, view[row]);
        let field = export_cell(cell);
        append_escaped(out, field.as_str(), delim);
        proof {
            assert(out@ =~= base + line_spec(t@, view@, row as int, c0 as int, c as int, delim));
        }
        c = c + 1;
    }
}

/// The delimited text of the grid of view rows `r0 ..= r1` and columns
/// `c0 ..= c1`.
pub fn export_grid(t: &Table, view: &Vec<usize>, r0: usize, r1: usize, c0: usize, c1: usize, delim:
    char) -> (r: String)
    requires
        t.wf(),
        r0 <= r1 < view@.len(),
        forall|i: int| 0 <= i < view@.len() ==> (#[trigger] view@[i]) < t@.nrows,
        c0 <= c1 < t@.columns.len(),
    ensures
        r@ == grid_spec(t@, view@, r0 as int, r1 as int, c0 as int, c1 as int, delim),
{
    let vlen = view.len();
    assert(r1 < vlen);
    let mut out = String::new();
    proof {
        assert(out@ =~= Seq::<char>::empty());
    }
    append_line(&mut out, t, view, r0, c0, c1, delim);
    proof {
        assert(out@ =~= grid_spec(t@, view@, r0 as int, r0 as int, c0 as int, c1 as int, delim));
    }
    let mut row: usize = r0 + 1;
    while row <= r1
        invariant
            t.wf(),
            r0 <= r1 < view@.len(),
            forall|i: int| 0 <= i < view@.len() ==> (#[trigger] view@[i]) < t@.nrows,
            c0 <= c1 < t@.columns.len(),
            r1 < vlen,
            vlen == view@.len(),
            r0 < row <= r1 + 1,
            out@ == grid_spec(t@, view@, r0 as int, row - 1, c0 as int, c1 as int, delim),
        decreases r1 - row + 1,
    {
        push_char(&mut out, '\n');
        append_line(&mut out, t, view, row, c0, c1, delim);
        proof {
            assert(out@ =~= grid_spec(
                t@,
                view@,
                r0 as int,
                row as int,
                c0 as int,
                c1 as int,
                delim,
            ));
        }
        row = row + 1;
    }
    out
}

} // verus!
