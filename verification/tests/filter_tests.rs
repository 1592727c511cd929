use table_view::filter::passes_filters;
use table_view::model::{BooleanOp, Filter};

fn row(cells: &[&str]) -> Vec<String> {
    cells.iter().map(|c| c.to_string()).collect()
}

fn filter(op: BooleanOp, column: Option<usize>, value: &str) -> Filter {
    Filter { boolean_op: op, column, value: value.to_string() }
}

#[test]
fn no_filters_pass_every_row() {
    let filters: Vec<Filter> = Vec::new();
    assert!(passes_filters(&filters, &row(&["a", "b"])));
    assert!(passes_filters(&filters, &row(&["", ""])));
}

#[test]
fn inert_filters_do_not_change_outcome() {
    let active = vec![filter(BooleanOp::And, Some(0), "x")];
    let with_inert = vec![
        filter(BooleanOp::And, Some(1), ""),
        filter(BooleanOp::And, Some(0), "x"),
        filter(BooleanOp::OrNot, None, "whatever"),
    ];
    let matching = row(&["axle", "b"]);
    let failing = row(&["no", "b"]);
    assert_eq!(
        passes_filters(&active, &matching),
        passes_filters(&with_inert, &matching)
    );
    assert_eq!(
        passes_filters(&active, &failing),
        passes_filters(&with_inert, &failing)
    );
    assert!(passes_filters(&with_inert, &matching));
    assert!(!passes_filters(&with_inert, &failing));
}

#[test]
fn and_chain_short_circuits_failure() {
    let filters = vec![
        filter(BooleanOp::And, Some(0), "x"),
        filter(BooleanOp::And, Some(1), "y"),
    ];
    // Column 0 does not contain "x": the row fails although column 1
    // contains "y".
    assert!(!passes_filters(&filters, &row(&["nothing", "candy"])));
    // Same chain, column 1 without "y": still fails.
    assert!(!passes_filters(&filters, &row(&["nothing", "cold"])));
}

#[test]
fn or_rescues_failing_chain() {
    let filters = vec![
        filter(BooleanOp::And, Some(0), "x"),
        filter(BooleanOp::Or, Some(1), "y"),
    ];
    // Fails the first clause but matches the second: passes.
    assert!(passes_filters(&filters, &row(&["nothing", "candy"])));
    // Fails both: fails.
    assert!(!passes_filters(&filters, &row(&["nothing", "cold"])));
}

#[test]
fn or_does_not_retest_a_passing_chain() {
    let filters = vec![
        filter(BooleanOp::And, Some(0), "a"),
        filter(BooleanOp::OrNot, Some(0), "a"),
    ];
    // The AND succeeds; the OR-NOT would fail the row if it were
    // re-tested, but an OR family operator only rescues a failure.
    assert!(passes_filters(&filters, &row(&["a"])));
}

#[test]
fn matching_is_case_insensitive_substring() {
    let upper = vec![filter(BooleanOp::And, Some(0), "B")];
    assert!(passes_filters(&upper, &row(&["abc"])));
    let lower = vec![filter(BooleanOp::And, Some(0), "b")];
    assert!(passes_filters(&lower, &row(&["ABC"])));
    let missing = vec![filter(BooleanOp::And, Some(0), "z")];
    assert!(!passes_filters(&missing, &row(&["ABC"])));
}

#[test]
fn and_not_negates_the_match() {
    let filters = vec![filter(BooleanOp::AndNot, Some(0), "x")];
    assert!(!passes_filters(&filters, &row(&["axle"])));
    assert!(passes_filters(&filters, &row(&["no"])));
}

#[test]
fn mixed_chain_evaluates_left_to_right() {
    // AND col0="a" fails, OR-NOT col1="z" rescues (col1 lacks "z"),
    // AND col2="c" then decides.
    let filters = vec![
        filter(BooleanOp::And, Some(0), "a"),
        filter(BooleanOp::OrNot, Some(1), "z"),
        filter(BooleanOp::And, Some(2), "c"),
    ];
    assert!(passes_filters(&filters, &row(&["x", "y", "c"])));
    assert!(!passes_filters(&filters, &row(&["x", "y", "d"])));
    // The rescue itself fails when col1 does contain "z": the final AND
    // is never consulted.
    assert!(!passes_filters(&filters, &row(&["x", "z", "c"])));
}

#[test]
fn leading_disjunctive_filter_leaves_rows_passing() {
    // The engine accepts any operator in any position; an OR with no
    // accumulated verdict never updates the accumulator.
    let filters = vec![filter(BooleanOp::Or, Some(0), "x")];
    assert!(passes_filters(&filters, &row(&["x"])));
    assert!(passes_filters(&filters, &row(&["no"])));
}
