//! Cells, their display values, and the total order used for sorting.
//!
//! A cell is a plain value: a scaled decimal, an integer, a text, a truth
//! value, or one of the special markers (missing, not-a-number, the two
//! infinities, and the absent/null entry of container columns).  A cell is
//! displayed either as a formatted string or as a small special-value code.

use vstd::prelude::*;
use crate::fixed::{Fixed, FIXED_SCALE};
use crate::numfmt::{
    format_scaled_spec, format_int_spec, integral_digit_count, digits_of, format_scaled,
    format_int, count_integral_digits, MAX_FRACTION_DIGITS,
};

verus! {

/// Magnitude bound on integer cells, chosen so that an integer cell scaled
/// to four fraction digits stays within the scaled-number bound.
pub const WHOLE_MAX: i64 = 100_000_000;

/// Special-value code for an absent (null) entry.
pub const CODE_NULL: u8 = 0;

/// Special-value code for a missing value.
pub const CODE_MISSING: u8 = 1;

/// Special-value code for a not-a-number value.
pub const CODE_NAN: u8 = 2;

/// Special-value code for a number whose integral part needs more digits
/// than the format options allow.
pub const CODE_TRUNCATED: u8 = 4;

/// Special-value code for positive infinity.
pub const CODE_INF: u8 = 10;

/// Special-value code for negative infinity.
pub const CODE_NEGINF: u8 = 11;

/// One cell of a table.
#[derive(Debug)]
pub enum Cell {
    /// A decimal number, scaled by `FIXED_SCALE`.
    Number(Fixed),
    /// An integer, displayed without fraction digits.
    Whole(i64),
    /// A text value.
    Text(String),
    /// A truth value.
    Logical(bool),
    /// A missing value.
    Missing,
    /// A numeric not-a-number.
    NotANumber,
    /// Positive infinity.
    Infinite,
    /// Negative infinity.
    NegInfinite,
    /// An absent entry, as in a container column holding nothing.
    Absent,
}

/// Mathematical value of a cell.
pub enum CellV {
    Number(int),
    Whole(int),
    Text(Seq<char>),
    Logical(bool),
    Missing,
    NotANumber,
    Infinite,
    NegInfinite,
    Absent,
}

impl View for Cell {
    type V = CellV;

    open spec fn view(&self) -> CellV {
        match self {
            Cell::Number(f) => CellV::Number(f.scaled as int),
            Cell::Whole(w) => CellV::Whole(*w as int),
            Cell::Text(t) => CellV::Text(t@),
            Cell::Logical(b) => CellV::Logical(*b),
            Cell::Missing => CellV::Missing,
            Cell::NotANumber => CellV::NotANumber,
            Cell::Infinite => CellV::Infinite,
            Cell::NegInfinite => CellV::NegInfinite,
            Cell::Absent => CellV::Absent,
        }
    }
}

impl Cell {
    /// Representation bounds every stored cell obeys.
    pub open spec fn wf(self) -> bool {
        match self {
            Cell::Number(f) => f.wf(),
            Cell::Whole(w) => -WHOLE_MAX <= w <= WHOLE_MAX,
            _ => true,
        }
    }

    /// An equal cell, with an exact contract (a derived clone would be
    /// opaque to the verifier).
    pub fn duplicate(&self) -> (r: Cell)
        ensures
            r@ == self@,
            r.wf() == self.wf(),
    {
        match self {
            Cell::Number(f) => Cell::Number(Fixed { scaled: f.scaled }),
            Cell::Whole(w) => Cell::Whole(*w),
            Cell::Text(t) => Cell::Text(t.clone()),
            Cell::Logical(b) => Cell::Logical(*b),
            Cell::Missing => Cell::Missing,
            Cell::NotANumber => Cell::NotANumber,
            Cell::Infinite => Cell::Infinite,
            Cell::NegInfinite => Cell::NegInfinite,
            Cell::Absent => Cell::Absent,
        }
    }

    /// Equality of the mathematical values of two cells.
    pub fn same_value(&self, other: &Cell) -> (r: bool)
        ensures
            r == (self@ == other@),
    {
        match (self, other) {
            (Cell::Number(a), Cell::Number(b)) => a.scaled == b.scaled,
            (Cell::Whole(a), Cell::Whole(b)) => *a == *b,
            (Cell::Text(a), Cell::Text(b)) => *a == *b,
            (Cell::Logical(a), Cell::Logical(b)) => *a == *b,
            (Cell::Missing, Cell::Missing) => true,
            (Cell::NotANumber, Cell::NotANumber) => true,
            (Cell::Infinite, Cell::Infinite) => true,
            (Cell::NegInfinite, Cell::NegInfinite) => true,
            (Cell::Absent, Cell::Absent) => true,
            _ => false,
        }
    }

    /// Whether the cell counts as null: missing, not-a-number, or absent.
    pub fn is_null(&self) -> (r: bool)
        ensures
            r == cell_is_null(self@),
    {
        match self {
            Cell::Missing => true,
            Cell::NotANumber => true,
            Cell::Absent => true,
            _ => false,
        }
    }
}

/// Null cells: the missing marker, not-a-number, and absent entries.
pub open spec fn cell_is_null(c: CellV) -> bool {
    c is Missing || c is NotANumber || c is Absent
}

/// Display options for formatting-sensitive requests.
#[derive(Clone, Debug)]
pub struct FormatOptions {
    /// Fraction digits for numbers of magnitude at least one (and zero).
    pub large_num_digits: u32,
    /// Fraction digits for non-zero numbers of magnitude below one.
    pub small_num_digits: u32,
    /// Largest count of integral digits shown before a number degrades to
    /// the truncated special value.
    pub max_integral_digits: u32,
    /// Separator between groups of three integral digits, if any.
    pub thousands_sep: Option<String>,
}

/// Mathematical value of the display options.
pub struct FormatOptionsV {
    pub large_num_digits: nat,
    pub small_num_digits: nat,
    pub max_integral_digits: nat,
    pub sep: Seq<char>,
}

impl View for FormatOptions {
    type V = FormatOptionsV;

    open spec fn view(&self) -> FormatOptionsV {
        FormatOptionsV {
            large_num_digits: self.large_num_digits as nat,
            small_num_digits: self.small_num_digits as nat,
            max_integral_digits: self.max_integral_digits as nat,
            sep: match self.thousands_sep {
                Some(s) => s@,
                None => Seq::<char>::empty(),
            },
        }
    }
}

/// A value as handed to the client: a display string or a special code.
#[derive(Debug)]
pub enum ColumnValue {
    FormattedValue(String),
    SpecialValueCode(u8),
}

/// Mathematical value of a displayed cell.
pub enum ColumnValueV {
    FormattedValue(Seq<char>),
    SpecialValueCode(u8),
}

impl View for ColumnValue {
    type V = ColumnValueV;

    open spec fn view(&self) -> ColumnValueV {
        match self {
            ColumnValue::FormattedValue(s) => ColumnValueV::FormattedValue(s@),
            ColumnValue::SpecialValueCode(c) => ColumnValueV::SpecialValueCode(*c),
        }
    }
}

impl PartialEq for ColumnValue {
    fn eq(&self, o: &ColumnValue) -> (r: bool) {
        match (self, o) {
            (ColumnValue::FormattedValue(a), ColumnValue::FormattedValue(b)) => *a == *b,
            (ColumnValue::SpecialValueCode(a), ColumnValue::SpecialValueCode(b)) => *a == *b,
            _ => false,
        }
    }
}

impl vstd::std_specs::cmp::PartialEqSpecImpl for ColumnValue {
    open spec fn obeys_eq_spec() -> bool {
        true
    }

    open spec fn eq_spec(&self, o: &ColumnValue) -> bool {
        self@ == o@
    }
}

/// Fraction digits clamped to what the renderer honours.
pub open spec fn clamped_digits(d: nat) -> nat {
    if d > MAX_FRACTION_DIGITS {
        MAX_FRACTION_DIGITS as nat
    } else {
        d
    }
}

/// Fraction digits chosen for a scaled number: the large-number count for
/// zero and for magnitudes of at least one, the small-number count below one.
pub open spec fn chosen_digits(m: int, opts: FormatOptionsV) -> nat {
    if m == 0 || m >= FIXED_SCALE || m <= -FIXED_SCALE {
        clamped_digits(opts.large_num_digits)
    } else {
        clamped_digits(opts.small_num_digits)
    }
}

/// The display of one cell under the given options.
pub open spec fn cell_display_spec(c: CellV, opts: FormatOptionsV) -> ColumnValueV {
    match c {
        CellV::Number(m) => {
            let dd = chosen_digits(m, opts);
            if integral_digit_count(m, dd) > opts.max_integral_digits {
                ColumnValueV::SpecialValueCode(CODE_TRUNCATED)
            } else {
                ColumnValueV::FormattedValue(format_scaled_spec(m, dd, opts.sep))
            }
        },
        CellV::Whole(w) => {
            let a = if w < 0 {
                -w
            } else {
                w
            };
            if digits_of(a as nat).len() > opts.max_integral_digits {
                ColumnValueV::SpecialValueCode(CODE_TRUNCATED)
            } else {
                ColumnValueV::FormattedValue(format_int_spec(w, opts.sep))
            }
        },
        CellV::Text(t) => ColumnValueV::FormattedValue(t),
        CellV::Logical(b) => ColumnValueV::FormattedValue(
            if b {
                "TRUE"@
            } else {
                "FALSE"@
            },
        ),
        CellV::Missing => ColumnValueV::SpecialValueCode(CODE_MISSING),
        CellV::NotANumber => ColumnValueV::SpecialValueCode(CODE_NAN),
        CellV::Infinite => ColumnValueV::SpecialValueCode(CODE_INF),
        CellV::NegInfinite => ColumnValueV::SpecialValueCode(CODE_NEGINF),
        CellV::Absent => ColumnValueV::SpecialValueCode(CODE_NULL),
    }
}

/// Format one cell for display.
pub fn format_cell(c: &Cell, opts: &FormatOptions) -> (r: ColumnValue)
    requires
        c.wf(),
    ensures
        r@ == cell_display_spec(c@, opts@),
{
    let sep: &str = match &opts.thousands_sep {
        Some(s) => s.as_str(),
        None => {
            let e = "";
            proof {
                reveal_strlit("");
                assert(e@ =~= Seq::<char>::empty());
            }
            e
        },
    };
    match c {
        Cell::Number(f) => {
            let m = f.scaled;
            let wanted = if m == 0 || m >= FIXED_SCALE || m <= -FIXED_SCALE {
                opts.large_num_digits
            } else {
                opts.small_num_digits
            };
            let dd = if wanted > MAX_FRACTION_DIGITS {
                MAX_FRACTION_DIGITS
            } else {
                wanted
            };
            let idc = count_integral_digits(m, dd);
            if idc > opts.max_integral_digits as usize {
                ColumnValue::SpecialValueCode(CODE_TRUNCATED)
            } else {
                ColumnValue::FormattedValue(format_scaled(m, dd, sep))
            }
        },
        Cell::Whole(w) => {
            let a: i64 = if *w < 0 {
                -*w
            } else {
                *w
            };
            let ds = crate::numfmt::int_digit_count(a as u64);
            if ds > opts.max_integral_digits as usize {
                ColumnValue::SpecialValueCode(CODE_TRUNCATED)
            } else {
                ColumnValue::FormattedValue(format_int(*w, sep))
            }
        },
        Cell::Text(t) => ColumnValue::FormattedValue(t.clone()),
        Cell::Logical(b) => {
            if *b {
                let s = "TRUE";
                ColumnValue::FormattedValue(s.to_owned())
            } else {
                let s = "FALSE";
                ColumnValue::FormattedValue(s.to_owned())
            }
        },
        Cell::Missing => ColumnValue::SpecialValueCode(CODE_MISSING),
        Cell::NotANumber => ColumnValue::SpecialValueCode(CODE_NAN),
        Cell::Infinite => ColumnValue::SpecialValueCode(CODE_INF),
        Cell::NegInfinite => ColumnValue::SpecialValueCode(CODE_NEGINF),
        Cell::Absent => ColumnValue::SpecialValueCode(CODE_NULL),
    }
}

} // verus!
