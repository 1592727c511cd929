use table_view::model::{BooleanOp, ColumnVisibility, Filter, Model};

fn row(cells: &[&str]) -> Vec<String> {
    cells.iter().map(|c| c.to_string()).collect()
}

fn name_city_model() -> Model {
    Model {
        columns: row(&["Name", "City"]),
        column_visibility: vec![ColumnVisibility::Auto, ColumnVisibility::Auto],
        filters: Vec::new(),
        sort_columns: Vec::new(),
        items: vec![row(&["Ann", "NY"]), row(&["Bob", ""]), row(&["Cara", "NY"])],
    }
}

#[test]
fn end_to_end_filter_sort_visibility() {
    let mut model = name_city_model();
    model.filters = vec![Filter {
        boolean_op: BooleanOp::And,
        column: Some(1),
        value: "NY".to_string(),
    }];
    model.sort_columns = vec![Some(0)];
    let out = model.compute();
    assert_eq!(out.ordered_rows, vec![row(&["Ann", "NY"]), row(&["Cara", "NY"])]);
    assert_eq!(out.column_visibility, vec![true, true]);
    assert_eq!(out.visible_row_count, 2);
}

#[test]
fn auto_visibility_reacts_to_filtering() {
    let mut model = Model {
        columns: row(&["Keep", "C"]),
        column_visibility: vec![ColumnVisibility::Auto, ColumnVisibility::Auto],
        filters: Vec::new(),
        sort_columns: Vec::new(),
        items: vec![row(&["a", ""]), row(&["b", "v"]), row(&["c", ""])],
    };
    // No filter: some row has a value in column C, so Auto shows it.
    let out = model.compute();
    assert_eq!(out.column_visibility, vec![true, true]);
    // A filter that removes the only row with a value in C: Auto hides it.
    model.filters = vec![Filter {
        boolean_op: BooleanOp::AndNot,
        column: Some(0),
        value: "b".to_string(),
    }];
    let out = model.compute();
    assert_eq!(out.visible_row_count, 2);
    assert_eq!(out.column_visibility, vec![true, false]);
}

#[test]
fn hidden_and_shown_override_content() {
    let mut model = name_city_model();
    model.column_visibility = vec![ColumnVisibility::Hidden, ColumnVisibility::Shown];
    // Hide a column full of values; show one whose cells the filter
    // leaves empty.
    model.filters = vec![Filter {
        boolean_op: BooleanOp::And,
        column: Some(0),
        value: "Bob".to_string(),
    }];
    let out = model.compute();
    assert_eq!(out.visible_row_count, 1);
    assert_eq!(out.column_visibility, vec![false, true]);
}

#[test]
fn unfiltered_rows_keep_their_order_without_sort_keys() {
    let model = name_city_model();
    let out = model.compute();
    assert_eq!(
        out.ordered_rows,
        vec![row(&["Ann", "NY"]), row(&["Bob", ""]), row(&["Cara", "NY"])]
    );
    assert_eq!(out.visible_row_count, 3);
}

#[test]
fn sorting_puts_empty_cells_last() {
    let mut model = name_city_model();
    model.sort_columns = vec![Some(1)];
    let out = model.compute();
    assert_eq!(
        out.ordered_rows,
        vec![row(&["Ann", "NY"]), row(&["Cara", "NY"]), row(&["Bob", ""])]
    );
}

#[test]
fn compute_is_idempotent_on_identical_inputs() {
    let mut model = name_city_model();
    model.filters = vec![Filter {
        boolean_op: BooleanOp::And,
        column: Some(1),
        value: "ny".to_string(),
    }];
    model.sort_columns = vec![Some(0), None];
    let first = model.compute();
    let second = model.compute();
    assert_eq!(first.ordered_rows, second.ordered_rows);
    assert_eq!(first.column_visibility, second.column_visibility);
    assert_eq!(first.visible_row_count, second.visible_row_count);
}

#[test]
fn empty_dataset_computes_an_empty_view() {
    let model = Model::default();
    let out = model.compute();
    assert!(out.ordered_rows.is_empty());
    assert!(out.column_visibility.is_empty());
    assert_eq!(out.visible_row_count, 0);
}
