use table_view::model::{BooleanOp, ColumnVisibility, Filter, Model};
use table_view::visibility::visible_cells;

fn row(cells: &[&str]) -> Vec<String> {
    cells.iter().map(|c| c.to_string()).collect()
}

#[test]
fn default_model_is_empty() {
    let model = Model::default();
    assert!(model.columns.is_empty());
    assert!(model.column_visibility.is_empty());
    assert!(model.filters.is_empty());
    assert!(model.sort_columns.is_empty());
    assert!(model.items.is_empty());
}

#[test]
fn default_filter_is_inert_conjunction() {
    let filter = Filter::default();
    assert!(matches!(filter.boolean_op, BooleanOp::And));
    assert_eq!(filter.column, None);
    assert_eq!(filter.value, "");
}

#[test]
fn add_and_edit_filters() {
    let mut model = Model {
        columns: row(&["A", "B"]),
        column_visibility: vec![ColumnVisibility::Auto, ColumnVisibility::Auto],
        filters: Vec::new(),
        sort_columns: Vec::new(),
        items: Vec::new(),
    };
    model.add_filter();
    model.add_filter();
    assert_eq!(model.filters.len(), 2);
    model.change_filter_boolean_op(1, BooleanOp::OrNot);
    model.change_filter_column(1, Some(0));
    model.change_filter_value(1, "abc".to_string());
    assert!(matches!(model.filters[1].boolean_op, BooleanOp::OrNot));
    assert_eq!(model.filters[1].column, Some(0));
    assert_eq!(model.filters[1].value, "abc");
    // The first filter is untouched.
    assert!(matches!(model.filters[0].boolean_op, BooleanOp::And));
    assert_eq!(model.filters[0].value, "");
}

#[test]
fn removing_the_first_filter_makes_the_new_first_conjunctive() {
    let mut model = Model::default();
    model.add_filter();
    model.add_filter();
    model.change_filter_boolean_op(1, BooleanOp::Or);
    model.remove_filter(0);
    assert_eq!(model.filters.len(), 1);
    assert!(matches!(model.filters[0].boolean_op, BooleanOp::And));

    let mut model = Model::default();
    model.add_filter();
    model.add_filter();
    model.change_filter_boolean_op(1, BooleanOp::OrNot);
    model.remove_filter(0);
    assert!(matches!(model.filters[0].boolean_op, BooleanOp::AndNot));
}

#[test]
fn removing_a_later_filter_leaves_operators_alone() {
    let mut model = Model::default();
    model.add_filter();
    model.add_filter();
    model.change_filter_boolean_op(1, BooleanOp::Or);
    model.remove_filter(1);
    assert_eq!(model.filters.len(), 1);
    assert!(matches!(model.filters[0].boolean_op, BooleanOp::And));
}

#[test]
fn sort_key_commands() {
    let mut model = Model {
        columns: row(&["A", "B"]),
        column_visibility: vec![ColumnVisibility::Auto, ColumnVisibility::Auto],
        filters: Vec::new(),
        sort_columns: Vec::new(),
        items: Vec::new(),
    };
    model.add_sort_column();
    model.add_sort_column();
    assert_eq!(model.sort_columns, vec![None, None]);
    model.change_sort_column(0, Some(1));
    assert_eq!(model.sort_columns, vec![Some(1), None]);
    model.remove_sort_column(1);
    assert_eq!(model.sort_columns, vec![Some(1)]);
}

#[test]
fn visibility_commands() {
    let mut model = Model {
        columns: row(&["A", "B"]),
        column_visibility: vec![ColumnVisibility::Auto, ColumnVisibility::Auto],
        filters: Vec::new(),
        sort_columns: Vec::new(),
        items: Vec::new(),
    };
    model.change_column_visibility(1, ColumnVisibility::Hidden);
    assert!(matches!(model.column_visibility[0], ColumnVisibility::Auto));
    assert!(matches!(model.column_visibility[1], ColumnVisibility::Hidden));
    model.change_all_column_visibility(ColumnVisibility::Shown);
    assert!(matches!(model.column_visibility[0], ColumnVisibility::Shown));
    assert!(matches!(model.column_visibility[1], ColumnVisibility::Shown));
}

#[test]
fn load_dataset_parses_and_resets_control_state() {
    let mut model = Model::default();
    model.add_filter();
    model.add_sort_column();
    let ok = model.load_dataset("Name,City\nAnn,NY\nBob,\n");
    assert!(ok);
    assert_eq!(model.columns, row(&["Name", "City"]));
    assert_eq!(model.items, vec![row(&["Ann", "NY"]), row(&["Bob", ""])]);
    assert_eq!(model.column_visibility.len(), 2);
    assert!(matches!(model.column_visibility[0], ColumnVisibility::Auto));
    assert!(matches!(model.column_visibility[1], ColumnVisibility::Auto));
    assert!(model.filters.is_empty());
    assert!(model.sort_columns.is_empty());
}

#[test]
fn load_dataset_failure_keeps_the_model() {
    let mut model = Model::default();
    let ok = model.load_dataset("Name,City\nAnn,NY\nBob\n");
    // The second data record is narrower than the header: the reader
    // reports unequal record lengths and the model stays untouched.
    assert!(!ok);
    assert!(model.columns.is_empty());
    assert!(model.items.is_empty());
}

#[test]
fn load_dataset_honours_quoting() {
    let mut model = Model::default();
    let ok = model.load_dataset("A,B\n\"x,y\",z\n");
    assert!(ok);
    assert_eq!(model.columns, row(&["A", "B"]));
    assert_eq!(model.items, vec![row(&["x,y", "z"])]);
}

#[test]
fn visible_cells_projects_by_column() {
    let cells = row(&["a", "b", "c"]);
    let vis = vec![true, false, true];
    assert_eq!(visible_cells(&cells, &vis), row(&["a", "c"]));
    let none = vec![false, false, false];
    assert!(visible_cells(&cells, &none).is_empty());
    let all = vec![true, true, true];
    assert_eq!(visible_cells(&cells, &all), cells);
}
