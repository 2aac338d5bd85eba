//! Unit-level exercises: number parsing and display, filter validation,
//! request errors, change classification, export details, and the
//! engine-wide properties on concrete values.

use data_explorer::cells::{Cell, ColumnValue, FormatOptions};
use data_explorer::export::{
    DataSelection, DataSelectionCellRange, DataSelectionKind, DataSelectionRange,
    DataSelectionSingleCell, ExportFormat, Selection,
};
use data_explorer::errors::EngineError;
use data_explorer::filter::{
    compute_selection, count_true_exec, CompareFilterParams, CompareFilterParamsOp, RowFilter,
    RowFilterCondition, RowFilterType, SearchFilterParams, SearchFilterType,
};
use data_explorer::fixed::{parse_fixed, Fixed};
use data_explorer::profile::{ColumnProfileRequest, ColumnProfileType};
use data_explorer::session::{Session, UpdateEvent};
use data_explorer::sorting::ColumnSortKey;
use data_explorer::table::{ColumnSchema, Table, TypeCategory};

fn unum(x: f64) -> Cell {
    Cell::Number(Fixed {
        scaled: (x * 10000.0).round() as i64,
    })
}

fn utext(s: &str) -> Cell {
    Cell::Text(s.to_string())
}

fn utable(cols: Vec<(&str, TypeCategory, Vec<Cell>)>) -> Table {
    let nrows = if cols.is_empty() { 0 } else { cols[0].2.len() };
    let mut schemas: Vec<ColumnSchema> = Vec::new();
    let mut cells: Vec<Vec<Cell>> = Vec::new();
    for (i, (name, cat, col)) in cols.into_iter().enumerate() {
        schemas.push(ColumnSchema {
            column_index: i,
            column_name: name.to_string(),
            type_label: "col".to_string(),
            type_category: cat,
        });
        cells.push(col);
    }
    Table::new(schemas, cells, nrows, None).expect("well formed")
}

fn uopts() -> FormatOptions {
    FormatOptions {
        large_num_digits: 2,
        small_num_digits: 4,
        max_integral_digits: 7,
        thousands_sep: Some(",".to_string()),
    }
}

fn ufilter(schema: &ColumnSchema, ftype: RowFilterType, id: &str) -> RowFilter {
    RowFilter {
        column_schema: schema.clone(),
        filter_type: ftype,
        filter_id: id.to_string(),
        condition: RowFilterCondition::And,
        is_valid: None,
        error_message: None,
        compare_params: None,
        between_params: None,
        search_params: None,
        set_membership_params: None,
    }
}

#[test]
fn number_parsing_grammar() {
    assert_eq!(parse_fixed("60").map(|f| f.scaled), Some(600_000));
    assert_eq!(parse_fixed("-2.5").map(|f| f.scaled), Some(-25_000));
    assert_eq!(parse_fixed("0.0001").map(|f| f.scaled), Some(1));
    assert_eq!(parse_fixed("100000000").map(|f| f.scaled), Some(1_000_000_000_000));
    // Rejected: trailing dot, empty fraction grammar, too many fraction
    // digits, exponents, spaces, and magnitudes past the bound.
    assert!(parse_fixed("60.").is_none());
    assert!(parse_fixed("3.14159").is_none());
    assert!(parse_fixed("1e5").is_none());
    assert!(parse_fixed(" 60").is_none());
    assert!(parse_fixed("100000001").is_none());
    assert!(parse_fixed("marshmallows").is_none());
    assert!(parse_fixed("").is_none());
}

#[test]
fn number_display_rules() {
    let table = utable(vec![(
        "v",
        TypeCategory::Number,
        vec![unum(1234.5), unum(0.5), unum(-1.5), unum(0.0)],
    )]);
    let session = Session::new("fmt".to_string(), table);
    let data = session.get_data_values(0, 4, vec![0], &uopts()).unwrap();
    // Grouped integral digits, two fraction digits at or above one.
    assert_eq!(data.columns[0][0], ColumnValue::FormattedValue("1,234.50".to_string()));
    // Small magnitudes show four fraction digits.
    assert_eq!(data.columns[0][1], ColumnValue::FormattedValue("0.5000".to_string()));
    // Negative values carry the sign; zero does not.
    assert_eq!(data.columns[0][2], ColumnValue::FormattedValue("-1.50".to_string()));
    assert_eq!(data.columns[0][3], ColumnValue::FormattedValue("0.00".to_string()));
}

#[test]
fn wide_numbers_degrade_to_truncated_code() {
    let table = utable(vec![(
        "v",
        TypeCategory::Number,
        vec![unum(12_345_678.0), unum(1_234_567.0)],
    )]);
    let session = Session::new("fmt".to_string(), table);
    let data = session.get_data_values(0, 2, vec![0], &uopts()).unwrap();
    // Eight integral digits do not fit max_integral_digits = 7.
    assert_eq!(data.columns[0][0], ColumnValue::SpecialValueCode(4));
    assert_eq!(
        data.columns[0][1],
        ColumnValue::FormattedValue("1,234,567.00".to_string())
    );
}

#[test]
fn boolean_and_special_display() {
    let table = utable(vec![
        (
            "b",
            TypeCategory::Boolean,
            vec![Cell::Logical(true), Cell::Logical(false)],
        ),
        ("n", TypeCategory::Number, vec![Cell::Infinite, Cell::NegInfinite]),
    ]);
    let session = Session::new("disp".to_string(), table);
    let data = session.get_data_values(0, 2, vec![0, 1], &uopts()).unwrap();
    assert_eq!(data.columns[0][0], ColumnValue::FormattedValue("TRUE".to_string()));
    assert_eq!(data.columns[0][1], ColumnValue::FormattedValue("FALSE".to_string()));
    assert_eq!(data.columns[1][0], ColumnValue::SpecialValueCode(10));
    assert_eq!(data.columns[1][1], ColumnValue::SpecialValueCode(11));
}

#[test]
fn request_errors_do_not_mutate_state() {
    let table = utable(vec![("v", TypeCategory::Number, vec![unum(1.0), unum(2.0)])]);
    let mut session = Session::new("errs".to_string(), table);

    // A column index out of range fails the data request.
    let err = session.get_data_values(0, 2, vec![7], &uopts()).unwrap_err();
    assert_eq!(err, EngineError::ColumnIndexOutOfRange);
    assert!(!err.message().is_empty());

    // A row start beyond the view fails the data request.
    let err = session.get_data_values(3, 1, vec![0], &uopts()).unwrap_err();
    assert_eq!(err, EngineError::RowIndexOutOfRange);

    // A sort key out of range fails and leaves the state unchanged.
    let err = session
        .set_sort_columns(vec![ColumnSortKey {
            column_index: 9,
            ascending: true,
        }])
        .unwrap_err();
    assert_eq!(err, EngineError::SortKeyOutOfRange);
    let state = session.get_state().unwrap();
    assert!(state.sort_keys.is_empty());

    // A profile request naming a bad column fails.
    let err = session
        .get_column_profiles(
            vec![ColumnProfileRequest {
                column_index: 4,
                profile_type: ColumnProfileType::NullCount,
            }],
            &uopts(),
        )
        .unwrap_err();
    assert_eq!(err, EngineError::ColumnIndexOutOfRange);

    // An export selection out of range fails.
    let err = session
        .export_data_selection(
            ExportFormat::Csv,
            DataSelection {
                kind: DataSelectionKind::SingleCell,
                selection: Selection::SingleCell(DataSelectionSingleCell {
                    row_index: 5,
                    column_index: 0,
                }),
            },
        )
        .unwrap_err();
    assert_eq!(err, EngineError::RowIndexOutOfRange);

    // After the source disappears, every request reports a closed session.
    let event = session.check_for_updates(None);
    assert_eq!(event, UpdateEvent::Closed);
    let err = session.get_state().unwrap_err();
    assert_eq!(err, EngineError::SessionClosed);
    let err = session.get_schema(0, 1).unwrap_err();
    assert_eq!(err, EngineError::SessionClosed);
}

// Identical requests yield identical replies and identical views.
#[test]
fn repeated_requests_are_idempotent() {
    let table = utable(vec![
        ("v", TypeCategory::Number, vec![unum(3.0), unum(1.0), unum(2.0), unum(1.0)]),
        (
            "w",
            TypeCategory::Text,
            vec![utext("c"), utext("a"), utext("b"), utext("a")],
        ),
    ]);
    let mut session = Session::new("idem".to_string(), table);
    let schema = session.get_schema(0, 2).unwrap();

    let filter = {
        let mut f = ufilter(&schema.columns[0], RowFilterType::Compare, "f");
        f.compare_params = Some(CompareFilterParams {
            op: CompareFilterParamsOp::GtEq,
            value: "1".to_string(),
        });
        f
    };
    let keys = vec![ColumnSortKey {
        column_index: 0,
        ascending: true,
    }];

    session.set_sort_columns(keys.clone()).unwrap();
    let first = session.set_row_filters(vec![filter.clone()]).unwrap();
    let data_first = session.get_data_values(0, 4, vec![0, 1], &uopts()).unwrap();

    session.set_sort_columns(keys).unwrap();
    let second = session.set_row_filters(vec![filter]).unwrap();
    let data_second = session.get_data_values(0, 4, vec![0, 1], &uopts()).unwrap();

    assert_eq!(first, second);
    assert_eq!(data_first.columns[0], data_second.columns[0]);
    assert_eq!(data_first.columns[1], data_second.columns[1]);
}

// The reported selected row count equals the cardinality of the selection
// mask recomputed independently.
#[test]
fn selected_count_matches_recomputed_mask() {
    let table = utable(vec![(
        "v",
        TypeCategory::Number,
        vec![unum(1.0), unum(5.0), unum(2.0), unum(9.0), unum(4.0)],
    )]);
    let mut session = Session::new("counts".to_string(), table);
    let schema = session.get_schema(0, 1).unwrap();
    let mut filter = ufilter(&schema.columns[0], RowFilterType::Compare, "f");
    filter.compare_params = Some(CompareFilterParams {
        op: CompareFilterParamsOp::Lt,
        value: "5".to_string(),
    });
    let reply = session.set_row_filters(vec![filter]).unwrap();

    let stored = session.get_state().unwrap().row_filters;
    let mask = compute_selection(&session.table, &stored);
    let count = count_true_exec(&mask);
    assert_eq!(reply.selected_num_rows, count as u64);
    assert_eq!(count, 3);
}

// Sorting is stable: rows with equal keys keep their source order.
#[test]
fn equal_keys_keep_source_order() {
    let table = utable(vec![
        (
            "k",
            TypeCategory::Number,
            vec![unum(2.0), unum(1.0), unum(2.0), unum(1.0), unum(2.0)],
        ),
        (
            "tag",
            TypeCategory::Text,
            vec![utext("p"), utext("q"), utext("r"), utext("s"), utext("t")],
        ),
    ]);
    let mut session = Session::new("stable".to_string(), table);
    session
        .set_sort_columns(vec![ColumnSortKey {
            column_index: 0,
            ascending: true,
        }])
        .unwrap();
    let data = session.get_data_values(0, 5, vec![1], &uopts()).unwrap();
    // Ones first in source order (q, s), then twos in source order (p, r, t).
    let expect = ["q", "s", "p", "r", "t"];
    for (i, e) in expect.iter().enumerate() {
        assert_eq!(data.columns[0][i], ColumnValue::FormattedValue(e.to_string()));
    }

    // A duplicated key column cannot break ties it created: the order is
    // unchanged.
    session
        .set_sort_columns(vec![
            ColumnSortKey {
                column_index: 0,
                ascending: true,
            },
            ColumnSortKey {
                column_index: 0,
                ascending: false,
            },
        ])
        .unwrap();
    let data = session.get_data_values(0, 5, vec![1], &uopts()).unwrap();
    for (i, e) in expect.iter().enumerate() {
        assert_eq!(data.columns[0][i], ColumnValue::FormattedValue(e.to_string()));
    }
}

// Missing values sort last whatever the direction.
#[test]
fn missing_values_sort_last_both_directions() {
    let table = utable(vec![(
        "v",
        TypeCategory::Number,
        vec![unum(2.0), Cell::Missing, unum(1.0)],
    )]);
    let mut session = Session::new("nasort".to_string(), table);
    for ascending in [true, false] {
        session
            .set_sort_columns(vec![ColumnSortKey {
                column_index: 0,
                ascending,
            }])
            .unwrap();
        let data = session.get_data_values(0, 3, vec![0], &uopts()).unwrap();
        assert_eq!(data.columns[0][2], ColumnValue::SpecialValueCode(1));
    }
}

#[test]
fn change_classification() {
    let base = || {
        utable(vec![(
            "v",
            TypeCategory::Number,
            vec![unum(1.0), unum(2.0)],
        )])
    };
    let mut session = Session::new("upd".to_string(), base());

    // An identical snapshot: no event.
    assert_eq!(session.check_for_updates(Some(base())), UpdateEvent::NoEvent);

    // Same shape and types, different content: a data update.
    let changed = utable(vec![("v", TypeCategory::Number, vec![unum(1.0), unum(9.0)])]);
    assert_eq!(session.check_for_updates(Some(changed)), UpdateEvent::DataUpdate);

    // A row-count change keeps the fingerprint: still a data update.
    let grown = utable(vec![(
        "v",
        TypeCategory::Number,
        vec![unum(1.0), unum(2.0), unum(3.0)],
    )]);
    assert_eq!(session.check_for_updates(Some(grown)), UpdateEvent::DataUpdate);

    // A category change is a schema update.
    let retyped = utable(vec![("v", TypeCategory::Text, vec![utext("a"), utext("b"), utext("c")])]);
    assert_eq!(session.check_for_updates(Some(retyped)), UpdateEvent::SchemaUpdate);

    // A stale sort key on a vanished column is dropped on schema change.
    let two_cols = utable(vec![
        ("v", TypeCategory::Text, vec![utext("a")]),
        ("w", TypeCategory::Number, vec![unum(1.0)]),
    ]);
    session.check_for_updates(Some(two_cols));
    session
        .set_sort_columns(vec![ColumnSortKey {
            column_index: 1,
            ascending: true,
        }])
        .unwrap();
    let one_col = utable(vec![("v", TypeCategory::Text, vec![utext("a")])]);
    assert_eq!(session.check_for_updates(Some(one_col)), UpdateEvent::SchemaUpdate);
    assert!(session.get_state().unwrap().sort_keys.is_empty());
}

#[test]
fn export_ranges_and_quoting() {
    let table = utable(vec![
        (
            "a",
            TypeCategory::Text,
            vec![utext("plain"), utext("with,comma"), utext("has \"quote\"")],
        ),
        ("b", TypeCategory::Number, vec![unum(1.5), unum(2.0), Cell::Missing]),
    ]);
    let session = Session::new("exp".to_string(), table);

    // A cell range in CSV: the comma-bearing field is quoted.
    let exported = session
        .export_data_selection(
            ExportFormat::Csv,
            DataSelection {
                kind: DataSelectionKind::CellRange,
                selection: Selection::CellRange(DataSelectionCellRange {
                    first_row_index: 0,
                    last_row_index: 2,
                    first_column_index: 0,
                    last_column_index: 1,
                }),
            },
        )
        .unwrap();
    assert_eq!(
        exported.data,
        "plain,1.50\n\"with,comma\",2.00\n\"has \"\"quote\"\"\","
    );

    // The same rows in TSV: the comma no longer needs quoting.
    let exported = session
        .export_data_selection(
            ExportFormat::Tsv,
            DataSelection {
                kind: DataSelectionKind::RowRange,
                selection: Selection::RowRange(DataSelectionRange {
                    first_index: 0,
                    last_index: 1,
                }),
            },
        )
        .unwrap();
    assert_eq!(exported.data, "plain\t1.50\nwith,comma\t2.00");

    // A column range covers every view row of the chosen columns.
    let exported = session
        .export_data_selection(
            ExportFormat::Csv,
            DataSelection {
                kind: DataSelectionKind::ColumnRange,
                selection: Selection::ColumnRange(DataSelectionRange {
                    first_index: 1,
                    last_index: 1,
                }),
            },
        )
        .unwrap();
    assert_eq!(exported.data, "1.50\n2.00\n");
}

#[test]
fn compare_operators_and_infinities() {
    let table = utable(vec![(
        "v",
        TypeCategory::Number,
        vec![unum(1.0), Cell::Whole(2), Cell::Infinite, Cell::NegInfinite, Cell::Missing],
    )]);
    let mut session = Session::new("cmp".to_string(), table);
    let schema = session.get_schema(0, 1).unwrap();

    let count_for = |session: &mut Session, op: CompareFilterParamsOp, value: &str| {
        let mut f = ufilter(&schema.columns[0], RowFilterType::Compare, "f");
        f.compare_params = Some(CompareFilterParams {
            op,
            value: value.to_string(),
        });
        session.set_row_filters(vec![f]).unwrap().selected_num_rows
    };

    // Positive infinity exceeds every operand; negative infinity is below
    // every operand; missing never matches.
    assert_eq!(count_for(&mut session, CompareFilterParamsOp::Gt, "1"), 2);
    assert_eq!(count_for(&mut session, CompareFilterParamsOp::GtEq, "1"), 3);
    assert_eq!(count_for(&mut session, CompareFilterParamsOp::Lt, "2"), 2);
    assert_eq!(count_for(&mut session, CompareFilterParamsOp::LtEq, "2"), 3);
    assert_eq!(count_for(&mut session, CompareFilterParamsOp::Eq, "2"), 1);
    assert_eq!(count_for(&mut session, CompareFilterParamsOp::NotEq, "2"), 3);
}

#[test]
fn starts_with_and_is_false_filters() {
    let table = utable(vec![
        (
            "t",
            TypeCategory::Text,
            vec![utext("apple"), utext("apricot"), utext("banana")],
        ),
        (
            "b",
            TypeCategory::Boolean,
            vec![Cell::Logical(false), Cell::Logical(true), Cell::Logical(false)],
        ),
    ]);
    let mut session = Session::new("more".to_string(), table);
    let schema = session.get_schema(0, 2).unwrap();

    let mut sw = ufilter(&schema.columns[0], RowFilterType::Search, "sw");
    sw.search_params = Some(SearchFilterParams {
        case_sensitive: true,
        search_type: SearchFilterType::StartsWith,
        term: "ap".to_string(),
    });
    assert_eq!(session.set_row_filters(vec![sw]).unwrap().selected_num_rows, 2);

    let isf = ufilter(&schema.columns[1], RowFilterType::IsFalse, "if");
    assert_eq!(session.set_row_filters(vec![isf]).unwrap().selected_num_rows, 2);
}

#[test]
fn summary_stats_edges() {
    let table = utable(vec![
        (
            "even",
            TypeCategory::Number,
            vec![unum(1.0), unum(2.0), unum(4.0), unum(8.0)],
        ),
        ("single", TypeCategory::Number, vec![unum(5.0), Cell::Missing, Cell::Missing, Cell::Missing]),
        (
            "empty",
            TypeCategory::Number,
            vec![Cell::Missing, Cell::Missing, Cell::Missing, Cell::Missing],
        ),
        (
            "dates",
            TypeCategory::DateTime,
            vec![unum(1.0), unum(2.0), unum(3.0), unum(4.0)],
        ),
    ]);
    let session = Session::new("stats".to_string(), table);
    let data = session
        .get_column_profiles(
            (0..4)
                .map(|i| ColumnProfileRequest {
                    column_index: i,
                    profile_type: ColumnProfileType::SummaryStats,
                })
                .collect(),
            &uopts(),
        )
        .unwrap();

    // Even count: the median averages the two middle values.
    let even = data[0].summary_stats.clone().unwrap().number_stats.unwrap();
    assert_eq!(even.min_value, Some("1.00".to_string()));
    assert_eq!(even.max_value, Some("8.00".to_string()));
    assert_eq!(even.mean, Some("3.75".to_string()));
    assert_eq!(even.median, Some("3.00".to_string()));

    // One value: no standard deviation.
    let single = data[1].summary_stats.clone().unwrap().number_stats.unwrap();
    assert_eq!(single.min_value, Some("5.00".to_string()));
    assert_eq!(single.stdev, None);

    // No finite values at all: every field is empty.
    let empty = data[2].summary_stats.clone().unwrap().number_stats.unwrap();
    assert_eq!(empty.min_value, None);
    assert_eq!(empty.mean, None);

    // Date-time columns carry no summary of any of the three kinds.
    let dates = data[3].summary_stats.clone().unwrap();
    assert!(dates.number_stats.is_none());
    assert!(dates.string_stats.is_none());
    assert!(dates.boolean_stats.is_none());
}

#[test]
fn get_schema_is_clamped_and_independent_of_filters() {
    let table = utable(vec![
        ("a", TypeCategory::Number, vec![unum(1.0)]),
        ("b", TypeCategory::Number, vec![unum(2.0)]),
    ]);
    let mut session = Session::new("schema".to_string(), table);
    // Ask for more columns than there are: the slice is clamped.
    let schema = session.get_schema(0, 99).unwrap();
    assert_eq!(schema.columns.len(), 2);
    assert_eq!(schema.columns[1].column_name, "b");
    // A start beyond the end yields an empty slice.
    let schema = session.get_schema(5, 2).unwrap();
    assert!(schema.columns.is_empty());
    // Filters do not change the schema.
    let base = session.get_schema(0, 2).unwrap();
    let mut f = ufilter(&base.columns[0], RowFilterType::Compare, "f");
    f.compare_params = Some(CompareFilterParams {
        op: CompareFilterParamsOp::Gt,
        value: "5".to_string(),
    });
    session.set_row_filters(vec![f]).unwrap();
    let schema = session.get_schema(0, 2).unwrap();
    assert_eq!(schema.columns.len(), 2);
}
