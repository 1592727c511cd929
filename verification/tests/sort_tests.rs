use std::cmp::Ordering;
use table_view::sort::compare_rows;

fn row(cells: &[&str]) -> Vec<String> {
    cells.iter().map(|c| c.to_string()).collect()
}

#[test]
fn empty_cells_sort_last() {
    let keys = vec![Some(0)];
    let empty = row(&[""]);
    let full = row(&["b"]);
    assert_eq!(compare_rows(&keys, &empty, &full), Ordering::Greater);
    assert_eq!(compare_rows(&keys, &full, &empty), Ordering::Less);
}

#[test]
fn comparison_is_case_insensitive() {
    let keys = vec![Some(0)];
    assert_eq!(compare_rows(&keys, &row(&["B"]), &row(&["b"])), Ordering::Equal);
    assert_eq!(compare_rows(&keys, &row(&["apple"]), &row(&["BANANA"])), Ordering::Less);
    assert_eq!(compare_rows(&keys, &row(&["Cherry"]), &row(&["banana"])), Ordering::Greater);
}

#[test]
fn unset_key_terminates_the_chain() {
    let keys = vec![Some(0), None, Some(1)];
    // Tie on column 0; the unset key ends the comparison before the
    // differing column 1 is ever consulted.
    let a = row(&["same", "aaa"]);
    let b = row(&["same", "zzz"]);
    assert_eq!(compare_rows(&keys, &a, &b), Ordering::Equal);
}

#[test]
fn later_keys_break_ties() {
    let keys = vec![Some(0), Some(1)];
    let a = row(&["same", "aaa"]);
    let b = row(&["same", "zzz"]);
    assert_eq!(compare_rows(&keys, &a, &b), Ordering::Less);
    assert_eq!(compare_rows(&keys, &b, &a), Ordering::Greater);
}

#[test]
fn no_keys_means_everything_ties() {
    let keys: Vec<Option<usize>> = Vec::new();
    assert_eq!(compare_rows(&keys, &row(&["a"]), &row(&["z"])), Ordering::Equal);
}

#[test]
fn empty_last_applies_on_secondary_keys_too() {
    let keys = vec![Some(0), Some(1)];
    let a = row(&["same", ""]);
    let b = row(&["same", "b"]);
    assert_eq!(compare_rows(&keys, &a, &b), Ordering::Greater);
    assert_eq!(compare_rows(&keys, &b, &a), Ordering::Less);
}

#[test]
fn both_empty_cells_tie_and_fall_through() {
    let keys = vec![Some(0), Some(1)];
    let a = row(&["", "aaa"]);
    let b = row(&["", "zzz"]);
    assert_eq!(compare_rows(&keys, &a, &b), Ordering::Less);
}
