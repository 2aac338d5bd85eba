//! End-to-end exercises of the view engine: schema, sorting, filtering,
//! live updates, profiles, special values, and export.

use data_explorer::cells::{Cell, ColumnValue, FormatOptions};
use data_explorer::export::{
    DataSelection, DataSelectionKind, DataSelectionSingleCell, ExportFormat, Selection,
};
use data_explorer::filter::{
    CompareFilterParams, CompareFilterParamsOp, RowFilter, RowFilterCondition, RowFilterType,
    SearchFilterParams, SearchFilterType,
};
use data_explorer::fixed::Fixed;
use data_explorer::profile::{ColumnProfileRequest, ColumnProfileType};
use data_explorer::session::{Session, UpdateEvent};
use data_explorer::sorting::ColumnSortKey;
use data_explorer::table::{ColumnSchema, Table, TypeCategory};

fn num(x: f64) -> Cell {
    Cell::Number(Fixed {
        scaled: (x * 10000.0).round() as i64,
    })
}

fn text(s: &str) -> Cell {
    Cell::Text(s.to_string())
}

fn make_table(
    cols: Vec<(&str, TypeCategory, Vec<Cell>)>,
    row_names: Option<Vec<&str>>,
) -> Table {
    let nrows = if cols.is_empty() { 0 } else { cols[0].2.len() };
    let mut schemas: Vec<ColumnSchema> = Vec::new();
    let mut cells: Vec<Vec<Cell>> = Vec::new();
    for (i, (name, cat, col)) in cols.into_iter().enumerate() {
        schemas.push(ColumnSchema {
            column_index: i,
            column_name: name.to_string(),
            type_label: match cat {
                TypeCategory::Number => "numeric".to_string(),
                TypeCategory::Boolean => "logical".to_string(),
                TypeCategory::Text => "character".to_string(),
                TypeCategory::DateTime => "POSIXct".to_string(),
                TypeCategory::Other => "list".to_string(),
            },
            type_category: cat,
        });
        cells.push(col);
    }
    let names = row_names.map(|ns| ns.iter().map(|s| s.to_string()).collect());
    Table::new(schemas, cells, nrows, names).expect("test table must be well formed")
}

fn default_format_options() -> FormatOptions {
    FormatOptions {
        large_num_digits: 2,
        small_num_digits: 4,
        max_integral_digits: 7,
        thousands_sep: Some(",".to_string()),
    }
}

fn plain_filter(schema: &ColumnSchema, ftype: RowFilterType, id: &str) -> RowFilter {
    RowFilter {
        column_schema: schema.clone(),
        filter_type: ftype,
        filter_id: id.to_string(),
        condition: RowFilterCondition::And,
        is_valid: None,
        error_message: None,
        compare_params: None,
        between_params: None,
        search_params: None,
        set_membership_params: None,
    }
}

#[allow(clippy::too_many_lines)]
fn mtcars_table(with_row_names: bool) -> Table {
    let rows: Vec<(&str, [f64; 11])> = vec![
        ("Mazda RX4", [21.0, 6.0, 160.0, 110.0, 3.90, 2.620, 16.46, 0.0, 1.0, 4.0, 4.0]),
        ("Mazda RX4 Wag", [21.0, 6.0, 160.0, 110.0, 3.90, 2.875, 17.02, 0.0, 1.0, 4.0, 4.0]),
        ("Datsun 710", [22.8, 4.0, 108.0, 93.0, 3.85, 2.320, 18.61, 1.0, 1.0, 4.0, 1.0]),
        ("Hornet 4 Drive", [21.4, 6.0, 258.0, 110.0, 3.08, 3.215, 19.44, 1.0, 0.0, 3.0, 1.0]),
        ("Hornet Sportabout", [18.7, 8.0, 360.0, 175.0, 3.15, 3.440, 17.02, 0.0, 0.0, 3.0, 2.0]),
        ("Valiant", [18.1, 6.0, 225.0, 105.0, 2.76, 3.460, 20.22, 1.0, 0.0, 3.0, 1.0]),
        ("Duster 360", [14.3, 8.0, 360.0, 245.0, 3.21, 3.570, 15.84, 0.0, 0.0, 3.0, 4.0]),
        ("Merc 240D", [24.4, 4.0, 146.7, 62.0, 3.69, 3.190, 20.00, 1.0, 0.0, 4.0, 2.0]),
        ("Merc 230", [22.8, 4.0, 140.8, 95.0, 3.92, 3.150, 22.90, 1.0, 0.0, 4.0, 2.0]),
        ("Merc 280", [19.2, 6.0, 167.6, 123.0, 3.92, 3.440, 18.30, 1.0, 0.0, 4.0, 4.0]),
        ("Merc 280C", [17.8, 6.0, 167.6, 123.0, 3.92, 3.440, 18.90, 1.0, 0.0, 4.0, 4.0]),
        ("Merc 450SE", [16.4, 8.0, 275.8, 180.0, 3.07, 4.070, 17.40, 0.0, 0.0, 3.0, 3.0]),
        ("Merc 450SL", [17.3, 8.0, 275.8, 180.0, 3.07, 3.730, 17.60, 0.0, 0.0, 3.0, 3.0]),
        ("Merc 450SLC", [15.2, 8.0, 275.8, 180.0, 3.07, 3.780, 18.00, 0.0, 0.0, 3.0, 3.0]),
        ("Cadillac Fleetwood", [10.4, 8.0, 472.0, 205.0, 2.93, 5.250, 17.98, 0.0, 0.0, 3.0, 4.0]),
        ("Lincoln Continental", [10.4, 8.0, 460.0, 215.0, 3.00, 5.424, 17.82, 0.0, 0.0, 3.0, 4.0]),
        ("Chrysler Imperial", [14.7, 8.0, 440.0, 230.0, 3.23, 5.345, 17.42, 0.0, 0.0, 3.0, 4.0]),
        ("Fiat 128", [32.4, 4.0, 78.7, 66.0, 4.08, 2.200, 19.47, 1.0, 1.0, 4.0, 1.0]),
        ("Honda Civic", [30.4, 4.0, 75.7, 52.0, 4.93, 1.615, 18.52, 1.0, 1.0, 4.0, 2.0]),
        ("Toyota Corolla", [33.9, 4.0, 71.1, 65.0, 4.22, 1.835, 19.90, 1.0, 1.0, 4.0, 1.0]),
        ("Toyota Corona", [21.5, 4.0, 120.1, 97.0, 3.70, 2.465, 20.01, 1.0, 0.0, 3.0, 1.0]),
        ("Dodge Challenger", [15.5, 8.0, 318.0, 150.0, 2.76, 3.520, 16.87, 0.0, 0.0, 3.0, 2.0]),
        ("AMC Javelin", [15.2, 8.0, 304.0, 150.0, 3.15, 3.435, 17.30, 0.0, 0.0, 3.0, 2.0]),
        ("Camaro Z28", [13.3, 8.0, 350.0, 245.0, 3.73, 3.840, 15.41, 0.0, 0.0, 3.0, 4.0]),
        ("Pontiac Firebird", [19.2, 8.0, 400.0, 175.0, 3.08, 3.845, 17.05, 0.0, 0.0, 3.0, 2.0]),
        ("Fiat X1-9", [27.3, 4.0, 79.0, 66.0, 4.08, 1.935, 18.90, 1.0, 1.0, 4.0, 1.0]),
        ("Porsche 914-2", [26.0, 4.0, 120.3, 91.0, 4.43, 2.140, 16.70, 0.0, 1.0, 5.0, 2.0]),
        ("Lotus Europa", [30.4, 4.0, 95.1, 113.0, 3.77, 1.513, 16.90, 1.0, 1.0, 5.0, 2.0]),
        ("Ford Pantera L", [15.8, 8.0, 351.0, 264.0, 4.22, 3.170, 14.50, 0.0, 1.0, 5.0, 4.0]),
        ("Ferrari Dino", [19.7, 6.0, 145.0, 175.0, 3.62, 2.770, 15.50, 0.0, 1.0, 5.0, 6.0]),
        ("Maserati Bora", [15.0, 8.0, 301.0, 335.0, 3.54, 3.570, 14.60, 0.0, 1.0, 5.0, 8.0]),
        ("Volvo 142E", [21.4, 4.0, 121.0, 109.0, 4.11, 2.780, 18.60, 1.0, 1.0, 4.0, 2.0]),
    ];
    let col_names = [
        "mpg", "cyl", "disp", "hp", "drat", "wt", "qsec", "vs", "am", "gear", "carb",
    ];
    let mut cols: Vec<(&str, TypeCategory, Vec<Cell>)> = Vec::new();
    for (c, name) in col_names.iter().enumerate() {
        let mut cells: Vec<Cell> = Vec::new();
        for (_, vals) in rows.iter() {
            cells.push(num(vals[c]));
        }
        cols.push((name, TypeCategory::Number, cells));
    }
    let names: Vec<&str> = rows.iter().map(|(n, _)| *n).collect();
    make_table(cols, if with_row_names { Some(names) } else { None })
}

fn formatted(s: &str) -> ColumnValue {
    ColumnValue::FormattedValue(s.to_string())
}

fn test_mtcars_sort(mut session: Session, has_row_names: bool, display_name: String) {
    // Get the schema for the test data set: 11 columns come back.
    let schema = session.get_schema(0, 11).unwrap();
    assert_eq!(schema.columns.len(), 11);

    // Get 5 rows of data from the middle of the test data set.
    let data = session
        .get_data_values(5, 5, vec![0, 1, 2, 3, 4], &default_format_options())
        .unwrap();
    assert_eq!(data.columns.len(), 5);
    if has_row_names {
        let labels = data.row_labels.unwrap();
        assert_eq!(labels[0][0], "Valiant");
        assert_eq!(labels[0][1], "Duster 360");
        assert_eq!(labels[0][2], "Merc 240D");
    }

    // Sort the data set by the 'mpg' column, ascending.
    let mpg_sort_keys = vec![ColumnSortKey {
        column_index: 0,
        ascending: true,
    }];
    session.set_sort_columns(mpg_sort_keys.clone()).unwrap();

    // The backend returns the display name and the stored sort keys.
    let state = session.get_state().unwrap();
    assert_eq!(state.display_name, display_name);
    assert_eq!(state.sort_keys, mpg_sort_keys);

    // The first three sorted rows are 10.4, 10.4, and 13.3.
    let data = session
        .get_data_values(0, 3, vec![0, 1], &default_format_options())
        .unwrap();
    assert_eq!(data.columns.len(), 2);
    assert_eq!(data.columns[0][0], formatted("10.40"));
    assert_eq!(data.columns[0][1], formatted("10.40"));
    assert_eq!(data.columns[0][2], formatted("13.30"));
    if has_row_names {
        let labels = data.row_labels.unwrap();
        assert_eq!(labels[0][0], "Cadillac Fleetwood");
        assert_eq!(labels[0][1], "Lincoln Continental");
        assert_eq!(labels[0][2], "Camaro Z28");
    }

    // A more complicated sort: by 'cyl' descending, then 'mpg' descending.
    let descending_sort_keys = vec![
        ColumnSortKey {
            column_index: 1,
            ascending: false,
        },
        ColumnSortKey {
            column_index: 0,
            ascending: false,
        },
    ];
    session.set_sort_columns(descending_sort_keys).unwrap();

    let data = session
        .get_data_values(0, 3, vec![0, 1], &default_format_options())
        .unwrap();
    assert_eq!(data.columns.len(), 2);
    assert_eq!(data.columns[0][0], formatted("19.20"));
    assert_eq!(data.columns[0][1], formatted("18.70"));
    assert_eq!(data.columns[0][2], formatted("17.30"));
}

fn women_table() -> Table {
    let heights: Vec<f64> = (58..=72).map(|h| h as f64).collect();
    let weights: Vec<f64> = vec![
        115.0, 117.0, 120.0, 123.0, 126.0, 129.0, 132.0, 135.0, 139.0, 142.0, 146.0, 150.0,
        154.0, 159.0, 164.0,
    ];
    let names: Vec<String> = (1..=15).map(|i| i.to_string()).collect();
    let name_refs: Vec<&str> = names.iter().map(|s| s.as_str()).collect();
    make_table(
        vec![
            ("height", TypeCategory::Number, heights.into_iter().map(num).collect()),
            ("weight", TypeCategory::Number, weights.into_iter().map(num).collect()),
        ],
        Some(name_refs),
    )
}

fn tiny_xy_table(first: f64) -> Table {
    make_table(
        vec![
            ("y", TypeCategory::Number, vec![num(first), num(2.0), num(1.0)]),
            ("z", TypeCategory::Number, vec![num(4.0), num(5.0), num(6.0)]),
        ],
        Some(vec!["1", "2", "3"]),
    )
}

fn volcano_like_table() -> Table {
    // An 87 x 61 all-numeric matrix-shaped source without row names whose
    // first column has exactly eight values below one hundred, the least
    // of them 97, 97, 98, and 98.
    let mut cols: Vec<(&str, TypeCategory, Vec<Cell>)> = Vec::new();
    let mut names: Vec<String> = Vec::new();
    for c in 0..61usize {
        names.push(format!("V{}", c + 1));
        let mut cells: Vec<Cell> = Vec::new();
        for r in 0..87usize {
            let v: f64 = if c == 0 {
                match r {
                    0 | 1 => 97.0,
                    2 | 3 => 98.0,
                    4..=7 => 99.0,
                    _ => 100.0 + ((r * 3) % 50) as f64,
                }
            } else {
                100.0 + ((r * c) % 30) as f64
            };
            cells.push(num(v));
        }
        cols.push(("", TypeCategory::Number, cells));
    }
    let with_names: Vec<(&str, TypeCategory, Vec<Cell>)> = cols
        .into_iter()
        .enumerate()
        .map(|(i, (_, cat, cells))| (names[i].as_str(), cat, cells))
        .collect();
    make_table(with_names, None)
}

fn compare_filter(
    schema: &ColumnSchema,
    op: CompareFilterParamsOp,
    value: &str,
    id: &str,
) -> RowFilter {
    let mut f = plain_filter(schema, RowFilterType::Compare, id);
    f.compare_params = Some(CompareFilterParams {
        op,
        value: value.to_string(),
    });
    f
}

#[test]
fn test_data_explorer() {
    // --- mtcars ---
    test_mtcars_sort(
        Session::new("mtcars".to_string(), mtcars_table(true)),
        true,
        String::from("mtcars"),
    );

    // The same source shaped like a tibble: no row names.
    test_mtcars_sort(
        Session::new("mtcars_tib".to_string(), mtcars_table(false)),
        false,
        String::from("mtcars_tib"),
    );

    // --- women ---
    let mut session = Session::new("women".to_string(), women_table());

    let data = session
        .get_data_values(0, 2, vec![0, 1], &default_format_options())
        .unwrap();
    assert_eq!(data.columns.len(), 2);
    assert_eq!(data.columns[0][0], formatted("58.00"));
    assert_eq!(data.columns[0][1], formatted("59.00"));
    let labels = data.row_labels.unwrap();
    assert_eq!(labels[0][0], "1");
    assert_eq!(labels[0][1], "2");

    // Sort the first field (height) in descending order.
    let sort_keys = vec![ColumnSortKey {
        column_index: 0,
        ascending: false,
    }];
    session.set_sort_columns(sort_keys).unwrap();

    let schema = session.get_schema(0, 2).unwrap();

    // Filter out all rows where the height is at least 60.
    let filter = compare_filter(
        &schema.columns[0],
        CompareFilterParamsOp::Lt,
        "60",
        "A11876D6-7CF3-435F-874D-E96892B25C9A",
    );
    let result = session.set_row_filters(vec![filter]).unwrap();
    assert_eq!(result.had_errors, Some(false));
    assert_eq!(result.selected_num_rows, 2);

    // Both sorted and filtered.
    let data = session
        .get_data_values(0, 2, vec![0, 1], &default_format_options())
        .unwrap();
    assert_eq!(data.columns.len(), 2);
    assert_eq!(data.columns[0][0], formatted("59.00"));
    assert_eq!(data.columns[0][1], formatted("58.00"));
    let labels = data.row_labels.unwrap();
    assert_eq!(labels[0][0], "2");
    assert_eq!(labels[0][1], "1");

    // --- live updates ---
    let mut session = Session::new("tiny".to_string(), tiny_xy_table(3.0));

    // A data-level change: x[1, 1] <- 0.
    let event = session.check_for_updates(Some(tiny_xy_table(0.0)));
    assert_eq!(event, UpdateEvent::DataUpdate);

    // Sort by the 'y' column, ascending.
    session
        .set_sort_columns(vec![ColumnSortKey {
            column_index: 0,
            ascending: true,
        }])
        .unwrap();
    let data = session
        .get_data_values(0, 3, vec![0], &default_format_options())
        .unwrap();
    assert_eq!(data.columns.len(), 1);
    assert_eq!(data.columns[0][0], formatted("0.00"));
    assert_eq!(data.columns[0][1], formatted("1.00"));
    assert_eq!(data.columns[0][2], formatted("2.00"));

    // Another data-level change: x[1, 1] <- 3.  The sort stays applied, so
    // the new value lands at the end.
    let event = session.check_for_updates(Some(tiny_xy_table(3.0)));
    assert_eq!(event, UpdateEvent::DataUpdate);
    let data = session
        .get_data_values(0, 3, vec![0], &default_format_options())
        .unwrap();
    assert_eq!(data.columns.len(), 1);
    assert_eq!(data.columns[0][0], formatted("1.00"));
    assert_eq!(data.columns[0][1], formatted("2.00"));
    assert_eq!(data.columns[0][2], formatted("3.00"));

    // Replace 'x' with an entirely different data set: a schema update.
    let replacement = make_table(
        vec![
            ("y", TypeCategory::Text, vec![text("y")]),
            ("z", TypeCategory::Text, vec![text("z")]),
            ("three", TypeCategory::Text, vec![text("3")]),
        ],
        Some(vec!["1"]),
    );
    let event = session.check_for_updates(Some(replacement));
    assert_eq!(event, UpdateEvent::SchemaUpdate);

    // The new schema has 3 columns.
    let schema = session.get_schema(0, 3).unwrap();
    assert_eq!(schema.columns.len(), 3);

    // Delete 'x' entirely: the session closes.
    let event = session.check_for_updates(None);
    assert_eq!(event, UpdateEvent::Closed);

    // The same source shaped like a data.table: no row names.
    test_mtcars_sort(
        Session::new("mtcars_dt".to_string(), mtcars_table(false)),
        false,
        String::from("mtcars_dt"),
    );

    // --- a matrix-shaped source ---
    let mut session = Session::new("volcano".to_string(), volcano_like_table());

    let schema = session.get_schema(0, 61).unwrap();
    assert_eq!(schema.columns.len(), 61);

    // Sort the matrix by the first column.
    session
        .set_sort_columns(vec![ColumnSortKey {
            column_index: 0,
            ascending: true,
        }])
        .unwrap();
    let data = session
        .get_data_values(0, 4, vec![0, 1], &default_format_options())
        .unwrap();
    assert_eq!(data.columns.len(), 2);
    assert_eq!(data.columns[0][0], formatted("97.00"));
    assert_eq!(data.columns[0][1], formatted("97.00"));
    assert_eq!(data.columns[0][2], formatted("98.00"));
    assert_eq!(data.columns[0][3], formatted("98.00"));

    // Filter out all rows where the first column is at least 100.
    let filter = compare_filter(
        &schema.columns[0],
        CompareFilterParamsOp::Lt,
        "100",
        "F5D5FE28-04D9-4010-8C77-84094D9B8E2C",
    );
    let result = session.set_row_filters(vec![filter]).unwrap();
    assert_eq!(result.had_errors, Some(false));
    assert_eq!(result.selected_num_rows, 8);

    // --- null count ---
    let fibo = make_table(
        vec![(
            "col",
            TypeCategory::Number,
            vec![
                num(1.0),
                Cell::Missing,
                num(2.0),
                num(3.0),
                num(5.0),
                Cell::Missing,
                num(13.0),
                num(21.0),
                Cell::Missing,
            ],
        )],
        None,
    );
    let mut session = Session::new("fibo".to_string(), fibo);
    let schema = session.get_schema(0, 1).unwrap();

    // The first column has 3 missing values.
    let data = session
        .get_column_profiles(
            vec![ColumnProfileRequest {
                column_index: 0,
                profile_type: ColumnProfileType::NullCount,
            }],
            &default_format_options(),
        )
        .unwrap();
    assert!(data.len() == 1);
    assert_eq!(data[0].null_count, Some(3));

    // Filter out all missing rows: 6 remain.
    let filter = plain_filter(
        &schema.columns[0],
        RowFilterType::NotNull,
        "048D4D03-A7B5-4825-BEB1-769B70DE38A6",
    );
    let result = session.set_row_filters(vec![filter]).unwrap();
    assert_eq!(result.had_errors, Some(false));
    assert_eq!(result.selected_num_rows, 6);

    // With the filter applied the null count drops to 0.
    let data = session
        .get_column_profiles(
            vec![ColumnProfileRequest {
                column_index: 0,
                profile_type: ColumnProfileType::NullCount,
            }],
            &default_format_options(),
        )
        .unwrap();
    assert!(data.len() == 1);
    assert_eq!(data[0].null_count, Some(0));

    // Just the missing rows: 3.
    let filter = plain_filter(
        &schema.columns[0],
        RowFilterType::IsNull,
        "87E2E016-C853-4928-8914-8774125E3C87",
    );
    let result = session.set_row_filters(vec![filter]).unwrap();
    assert_eq!(result.had_errors, Some(false));
    assert_eq!(result.selected_num_rows, 3);

    // --- summary stats ---
    let df = make_table(
        vec![
            (
                "num",
                TypeCategory::Number,
                vec![num(1.0), num(2.0), num(3.0), Cell::Missing],
            ),
            (
                "char",
                TypeCategory::Text,
                vec![text("a"), text("a"), text(""), Cell::Missing],
            ),
            (
                "bool",
                TypeCategory::Boolean,
                vec![
                    Cell::Logical(true),
                    Cell::Logical(true),
                    Cell::Logical(false),
                    Cell::Missing,
                ],
            ),
        ],
        None,
    );
    let session = Session::new("df".to_string(), df);
    let data = session
        .get_column_profiles(
            (0..3)
                .map(|i| ColumnProfileRequest {
                    column_index: i,
                    profile_type: ColumnProfileType::SummaryStats,
                })
                .collect(),
            &default_format_options(),
        )
        .unwrap();
    assert!(data.len() == 3);

    // The first column is numeric and has 3 non-missing values.
    let number_stats = data[0].summary_stats.clone().unwrap().number_stats;
    assert!(number_stats.is_some());
    let number_stats = number_stats.unwrap();
    assert_eq!(number_stats.min_value, Some(String::from("1.00")));
    assert_eq!(number_stats.max_value, Some(String::from("3.00")));
    assert_eq!(number_stats.mean, Some(String::from("2.00")));
    assert_eq!(number_stats.median, Some(String::from("2.00")));
    assert_eq!(number_stats.stdev, Some(String::from("1.00")));

    // The second column holds characters.
    let string_stats = data[1].summary_stats.clone().unwrap().string_stats;
    assert!(string_stats.is_some());
    let string_stats = string_stats.unwrap();
    assert_eq!(string_stats.num_empty, 1);
    // Missing values count as a distinct value of their own.
    assert_eq!(string_stats.num_unique, 3);

    // The third column is boolean.
    let boolean_stats = data[2].summary_stats.clone().unwrap().boolean_stats;
    assert!(boolean_stats.is_some());
    let boolean_stats = boolean_stats.unwrap();
    assert_eq!(boolean_stats.true_count, 2);
    assert_eq!(boolean_stats.false_count, 1);

    // --- search filters ---
    let words = make_table(
        vec![(
            "text",
            TypeCategory::Text,
            vec![
                text("lambent"),
                text("incandescent"),
                text("that will be $10.26"),
                text("pi is 3.14159"),
                text(""),
                text("weasel"),
                text("refrigerator"),
            ],
        )],
        None,
    );
    let mut session = Session::new("words".to_string(), words);
    let schema = session.get_schema(0, 1).unwrap();

    // Rows whose text contains ".": 2.
    let mut dot_filter = plain_filter(
        &schema.columns[0],
        RowFilterType::Search,
        "A58A4497-29E0-4407-BC25-67FEF73F6224",
    );
    dot_filter.search_params = Some(SearchFilterParams {
        case_sensitive: false,
        search_type: SearchFilterType::Contains,
        term: ".".to_string(),
    });
    let result = session.set_row_filters(vec![dot_filter.clone()]).unwrap();
    assert_eq!(result.had_errors, Some(false));
    assert_eq!(result.selected_num_rows, 2);

    // Combined with an OR filter for rows ending in 'ent': 4.
    let mut ent_filter = plain_filter(
        &schema.columns[0],
        RowFilterType::Search,
        "4BA46699-EF41-4FA8-A927-C8CD88520D6E",
    );
    ent_filter.condition = RowFilterCondition::Or;
    ent_filter.search_params = Some(SearchFilterParams {
        case_sensitive: false,
        search_type: SearchFilterType::EndsWith,
        term: "ent".to_string(),
    });
    let result = session
        .set_row_filters(vec![dot_filter, ent_filter])
        .unwrap();
    assert_eq!(result.had_errors, Some(false));
    assert_eq!(result.selected_num_rows, 4);

    // One row holds an empty value.
    let empty_filter = plain_filter(
        &schema.columns[0],
        RowFilterType::IsEmpty,
        "3F032747-4667-40CB-9013-AA659AE37F1C",
    );
    let result = session.set_row_filters(vec![empty_filter]).unwrap();
    assert_eq!(result.had_errors, Some(false));
    assert_eq!(result.selected_num_rows, 1);

    // The state shows 1 row of 7 total.
    let state = session.get_state().unwrap();
    assert_eq!(state.table_shape.num_rows, 1);
    assert_eq!(state.table_unfiltered_shape.num_rows, 7);

    // --- invalid filters ---
    let test_dates = make_table(
        vec![(
            "date",
            TypeCategory::DateTime,
            vec![num(1_704_070_800.0 / 1000.0), num(1_704_160_800.0 / 1000.0), num(1_704_254_400.0 / 1000.0)],
        )],
        None,
    );
    let mut session = Session::new("test_dates".to_string(), test_dates);
    let schema = session.get_schema(0, 1).unwrap();

    // Compare against "marshmallows": invalid for a date column, so all 3
    // rows stay selected and the reply reports errors.
    let year_filter = compare_filter(
        &schema.columns[0],
        CompareFilterParamsOp::Gt,
        "marshmallows",
        "0DB2F23D-B299-4068-B8D5-A2B513A93330",
    );
    let result = session.set_row_filters(vec![year_filter]).unwrap();
    assert_eq!(result.had_errors, Some(true));
    assert_eq!(result.selected_num_rows, 3);

    // The invalid filter is marked, with an error message.
    let state = session.get_state().unwrap();
    assert_eq!(state.row_filters[0].is_valid, Some(false));
    assert!(state.row_filters[0].error_message.is_some());

    // --- boolean filters ---
    let test_bools = make_table(
        vec![(
            "bool",
            TypeCategory::Boolean,
            vec![
                Cell::Logical(true),
                Cell::Logical(true),
                Cell::Logical(false),
                Cell::Missing,
                Cell::Logical(true),
                Cell::Logical(false),
            ],
        )],
        None,
    );
    let mut session = Session::new("test_bools".to_string(), test_bools);
    let schema = session.get_schema(0, 1).unwrap();

    // Rows that are true: 3.
    let true_filter = plain_filter(
        &schema.columns[0],
        RowFilterType::IsTrue,
        "16B3E3E7-44D0-4003-B6BD-46EE0629F067",
    );
    let result = session.set_row_filters(vec![true_filter]).unwrap();
    assert_eq!(result.had_errors, Some(false));
    assert_eq!(result.selected_num_rows, 3);

    // --- formatting of container columns ---
    let list_cols = make_table(
        vec![
            (
                "list_col",
                TypeCategory::Other,
                vec![
                    text("<numeric [4]>"),
                    text("<tbl_df [1 x 2]>"),
                    text("<matrix [2 x 2]>"),
                    text("<logical [2]>"),
                ],
            ),
            (
                "list_col_class",
                TypeCategory::Other,
                vec![Cell::Whole(1), Cell::Whole(2), Cell::Whole(3), Cell::Whole(4)],
            ),
        ],
        None,
    );
    let session = Session::new("list_cols".to_string(), list_cols);
    let data = session
        .get_data_values(0, 4, vec![0, 1], &default_format_options())
        .unwrap();
    assert_eq!(data.columns.len(), 2);
    assert_eq!(data.columns[0][0], formatted("<numeric [4]>"));
    assert_eq!(data.columns[0][1], formatted("<tbl_df [1 x 2]>"));
    assert_eq!(data.columns[0][2], formatted("<matrix [2 x 2]>"));
    assert_eq!(data.columns[0][3], formatted("<logical [2]>"));
    assert_eq!(data.columns[1][0], formatted("1"));
    assert_eq!(data.columns[1][1], formatted("2"));
    assert_eq!(data.columns[1][2], formatted("3"));
    assert_eq!(data.columns[1][3], formatted("4"));
}

#[test]
fn test_invalid_filters_preserved() {
    // test_df <- data.frame(x = c('', 'a', 'b'), y = c(1, 2, 3))
    let initial = make_table(
        vec![
            ("x", TypeCategory::Text, vec![text(""), text("a"), text("b")]),
            ("y", TypeCategory::Number, vec![num(1.0), num(2.0), num(3.0)]),
        ],
        None,
    );
    let mut session = Session::new("test_df".to_string(), initial);
    let schema = session.get_schema(0, 1).unwrap();

    // An is-empty filter on 'x' keeps a single row.
    let x_is_empty = plain_filter(
        &schema.columns[0],
        RowFilterType::IsEmpty,
        "0DB2F23D-B299-4068-B8D5-A2B513A93330",
    );
    let result = session.set_row_filters(vec![x_is_empty]).unwrap();
    assert_eq!(result.had_errors, Some(false));
    assert_eq!(result.selected_num_rows, 1);

    // Remove the 'x' column: the filter becomes invalid but is kept.
    let without_x = make_table(
        vec![("y", TypeCategory::Number, vec![num(1.0), num(2.0), num(3.0)])],
        None,
    );
    let event = session.check_for_updates(Some(without_x));
    assert_eq!(event, UpdateEvent::SchemaUpdate);

    let state = session.get_state().unwrap();
    assert_eq!(state.row_filters[0].is_valid, Some(false));
    assert!(state.row_filters[0].error_message.is_some());
    assert_eq!(state.table_shape.num_rows, 3);

    // Re-assign the column: the filter flips back to valid and re-applies.
    let with_x_again = make_table(
        vec![
            ("y", TypeCategory::Number, vec![num(1.0), num(2.0), num(3.0)]),
            ("x", TypeCategory::Text, vec![text(""), text("a"), text("b")]),
        ],
        None,
    );
    let event = session.check_for_updates(Some(with_x_again));
    assert_eq!(event, UpdateEvent::SchemaUpdate);

    let state = session.get_state().unwrap();
    assert_eq!(state.row_filters[0].is_valid, Some(true));
    assert!(state.row_filters[0].error_message.is_none());
    assert_eq!(state.table_shape.num_rows, 1);

    // Retype the column to numbers: invalid again.
    let retyped = make_table(
        vec![
            ("y", TypeCategory::Number, vec![num(1.0), num(2.0), num(3.0)]),
            ("x", TypeCategory::Number, vec![num(1.0), num(2.0), num(3.0)]),
        ],
        None,
    );
    let event = session.check_for_updates(Some(retyped));
    assert_eq!(event, UpdateEvent::SchemaUpdate);

    let state = session.get_state().unwrap();
    assert_eq!(state.row_filters[0].is_valid, Some(false));
    assert!(state.row_filters[0].error_message.is_some());
    assert_eq!(state.table_shape.num_rows, 3);
}

#[test]
fn test_data_explorer_special_values() {
    let table = make_table(
        vec![
            (
                "a",
                TypeCategory::Number,
                vec![
                    num(1.0),
                    Cell::Missing,
                    Cell::NotANumber,
                    Cell::Infinite,
                    Cell::NegInfinite,
                ],
            ),
            (
                "b",
                TypeCategory::Text,
                vec![text("a"), text("b"), text("c"), text("d"), Cell::Missing],
            ),
            (
                "c",
                TypeCategory::Boolean,
                vec![
                    Cell::Logical(true),
                    Cell::Logical(false),
                    Cell::Missing,
                    Cell::Missing,
                    Cell::Missing,
                ],
            ),
            (
                "d",
                TypeCategory::Number,
                vec![
                    Cell::Whole(1),
                    Cell::Whole(2),
                    Cell::Whole(3),
                    Cell::Whole(4),
                    Cell::Missing,
                ],
            ),
            (
                "e",
                TypeCategory::Other,
                vec![
                    text("0+0i"),
                    text("0+0i"),
                    text("0+0i"),
                    text("0+0i"),
                    Cell::Missing,
                ],
            ),
            (
                "f",
                TypeCategory::Other,
                vec![
                    Cell::Absent,
                    text("<list [3]>"),
                    text("<list [3]>"),
                    text("<list [3]>"),
                    text("<list [3]>"),
                ],
            ),
        ],
        None,
    );
    let session = Session::new("x".to_string(), table);
    let data = session
        .get_data_values(0, 5, vec![0, 1, 2, 3, 4, 5], &default_format_options())
        .unwrap();
    assert_eq!(data.columns.len(), 6);

    assert_eq!(data.columns[0][0], formatted("1.00"));
    assert_eq!(data.columns[0][1], ColumnValue::SpecialValueCode(1));
    assert_eq!(data.columns[0][2], ColumnValue::SpecialValueCode(2));
    assert_eq!(data.columns[0][3], ColumnValue::SpecialValueCode(10));
    assert_eq!(data.columns[0][4], ColumnValue::SpecialValueCode(11));

    assert_eq!(data.columns[1][4], ColumnValue::SpecialValueCode(1));
    assert_eq!(data.columns[2][4], ColumnValue::SpecialValueCode(1));
    assert_eq!(data.columns[3][4], ColumnValue::SpecialValueCode(1));
    assert_eq!(data.columns[4][4], ColumnValue::SpecialValueCode(1));

    assert_eq!(data.columns[5][0], ColumnValue::SpecialValueCode(0));
}

#[test]
fn test_export_data() {
    let table = make_table(
        vec![
            ("a", TypeCategory::Number, vec![num(1.0), num(3.0), num(2.0)]),
            ("b", TypeCategory::Text, vec![text("a"), text("b"), text("c")]),
            (
                "c",
                TypeCategory::Boolean,
                vec![Cell::Logical(true), Cell::Logical(false), Cell::Logical(true)],
            ),
        ],
        None,
    );
    let mut session = Session::new("obj".to_string(), table);

    let selection = DataSelection {
        kind: DataSelectionKind::SingleCell,
        selection: Selection::SingleCell(DataSelectionSingleCell {
            row_index: 1,
            column_index: 1,
        }),
    };

    let exported = session
        .export_data_selection(ExportFormat::Csv, selection)
        .unwrap();
    assert_eq!(exported.data, "b".to_string());
    assert_eq!(exported.format, ExportFormat::Csv);

    // Sort descending on the first column; the same view cell now holds a
    // different source row.
    session
        .set_sort_columns(vec![ColumnSortKey {
            column_index: 0,
            ascending: false,
        }])
        .unwrap();
    let exported = session
        .export_data_selection(ExportFormat::Csv, selection)
        .unwrap();
    assert_eq!(exported.data, "c".to_string());
    assert_eq!(exported.format, ExportFormat::Csv);

    // Filter to the rows whose third column is true.
    let schema = session.get_schema(0, 3).unwrap();
    let filter = plain_filter(&schema.columns[2], RowFilterType::IsTrue, "1");
    session.set_row_filters(vec![filter]).unwrap();

    let exported = session
        .export_data_selection(ExportFormat::Csv, selection)
        .unwrap();
    assert_eq!(exported.data, "a".to_string());
    assert_eq!(exported.format, ExportFormat::Csv);
}

// Filtering and sorting combine with the remaining filter kinds.
#[test]
fn between_and_membership_filters() {
    let table = make_table(
        vec![
            ("v", TypeCategory::Number, vec![num(1.0), num(2.5), num(4.0), num(7.25)]),
            (
                "w",
                TypeCategory::Text,
                vec![text("ash"), text("beech"), text("cedar"), text("ash")],
            ),
        ],
        None,
    );
    let mut session = Session::new("trees".to_string(), table);
    let schema = session.get_schema(0, 2).unwrap();

    // Between keeps the inclusive range.
    let mut between = plain_filter(&schema.columns[0], RowFilterType::Between, "f1");
    between.between_params = Some(data_explorer::filter::BetweenFilterParams {
        left_value: "2.5".to_string(),
        right_value: "7.25".to_string(),
    });
    let result = session.set_row_filters(vec![between]).unwrap();
    assert_eq!(result.had_errors, Some(false));
    assert_eq!(result.selected_num_rows, 3);

    // Membership keeps listed values; exclusion keeps the others.
    let mut member = plain_filter(&schema.columns[1], RowFilterType::SetMembership, "f2");
    member.set_membership_params = Some(data_explorer::filter::SetMembershipFilterParams {
        values: vec!["ash".to_string()],
        inclusive: true,
    });
    let result = session.set_row_filters(vec![member.clone()]).unwrap();
    assert_eq!(result.selected_num_rows, 2);

    let mut excluded = member;
    excluded.set_membership_params = Some(data_explorer::filter::SetMembershipFilterParams {
        values: vec!["ash".to_string()],
        inclusive: false,
    });
    let result = session.set_row_filters(vec![excluded]).unwrap();
    assert_eq!(result.selected_num_rows, 2);
}

// A regular-expression search matches through the engine, and an invalid
// pattern degrades to a stored, marked filter.
#[test]
fn regex_search_filters() {
    let table = make_table(
        vec![(
            "text",
            TypeCategory::Text,
            vec![text("lambent"), text("Lantern"), text("weasel"), text("lint")],
        )],
        None,
    );
    let mut session = Session::new("words".to_string(), table);
    let schema = session.get_schema(0, 1).unwrap();

    // Case-sensitive: 'lambent' and 'lint' start with a lowercase 'l' and
    // end in 't'.
    let mut re = plain_filter(&schema.columns[0], RowFilterType::Search, "r1");
    re.search_params = Some(SearchFilterParams {
        case_sensitive: true,
        search_type: SearchFilterType::RegexMatch,
        term: "^l.*t$".to_string(),
    });
    let result = session.set_row_filters(vec![re.clone()]).unwrap();
    assert_eq!(result.had_errors, Some(false));
    assert_eq!(result.selected_num_rows, 2);

    // Case-insensitive, the pattern also matches 'Lantern'... but not the
    // others.
    let mut re_ci = re.clone();
    re_ci.search_params = Some(SearchFilterParams {
        case_sensitive: false,
        search_type: SearchFilterType::RegexMatch,
        term: "^lan".to_string(),
    });
    let result = session.set_row_filters(vec![re_ci]).unwrap();
    assert_eq!(result.had_errors, Some(false));
    assert_eq!(result.selected_num_rows, 1);

    // An unparseable pattern is stored and marked invalid; every row stays.
    let mut bad = re;
    bad.search_params = Some(SearchFilterParams {
        case_sensitive: true,
        search_type: SearchFilterType::RegexMatch,
        term: "(".to_string(),
    });
    let result = session.set_row_filters(vec![bad]).unwrap();
    assert_eq!(result.had_errors, Some(true));
    assert_eq!(result.selected_num_rows, 4);
    let state = session.get_state().unwrap();
    assert_eq!(state.row_filters[0].is_valid, Some(false));
    assert!(state.row_filters[0].error_message.is_some());
}

// Case folding happens inside the engine: an uppercase term still finds
// lowercase text when the search is case-insensitive.
#[test]
fn case_insensitive_search_folds_case() {
    let table = make_table(
        vec![(
            "text",
            TypeCategory::Text,
            vec![text("incandescent"), text("WEASEL"), text("lambent")],
        )],
        None,
    );
    let mut session = Session::new("words".to_string(), table);
    let schema = session.get_schema(0, 1).unwrap();

    let mut f = plain_filter(&schema.columns[0], RowFilterType::Search, "c1");
    f.search_params = Some(SearchFilterParams {
        case_sensitive: false,
        search_type: SearchFilterType::Contains,
        term: "ENT".to_string(),
    });
    let result = session.set_row_filters(vec![f.clone()]).unwrap();
    assert_eq!(result.selected_num_rows, 2);

    // Case-sensitive, the uppercase term matches nothing.
    let mut cs = f;
    cs.search_params = Some(SearchFilterParams {
        case_sensitive: true,
        search_type: SearchFilterType::Contains,
        term: "ENT".to_string(),
    });
    let result = session.set_row_filters(vec![cs]).unwrap();
    assert_eq!(result.selected_num_rows, 0);
}
