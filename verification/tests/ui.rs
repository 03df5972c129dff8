use nexa::ui::{padded, separator, Table};

#[test]
fn column_widths_take_the_longest_cell() {
    let mut t = Table::new(vec!["Name", "Version"]);
    assert!(t.is_empty());
    t.row(vec!["nexa-ui".to_string(), "1.0".to_string()]);
    t.row(vec!["x".to_string()]);
    t.row(vec!["a".to_string(), "b".to_string(), "ignored-extra-column".to_string()]);
    assert!(!t.is_empty());
    assert_eq!(t.row_count(), 3);
    assert_eq!(t.column_widths(), vec![7, 7]);
}

#[test]
fn widths_count_bytes() {
    let mut t = Table::new(vec!["é"]);
    assert_eq!(t.column_widths(), vec![2]);
    t.row(vec!["abc".to_string()]);
    assert_eq!(t.column_widths(), vec![3]);
}

#[test]
fn cells_are_padded_to_the_column() {
    let mut t = Table::new(vec!["Name", "V"]);
    t.row(vec!["ab".to_string()]);
    let w = t.column_widths();
    assert_eq!(t.header_cells(&w), vec![" Name ", " V "]);
    assert_eq!(t.row_cells(0, &w), vec![" ab   ", "   "]);
    assert_eq!(padded("abc", 1), " abc ");
    assert_eq!(padded("", 2), "    ");
}

#[test]
fn rules_span_every_column() {
    assert_eq!(separator(&vec![1, 3], "┌", "┬", "┐", '─'), "  ┌───┬─────┐");
    assert_eq!(separator(&vec![], "<", "+", ">", '-'), "  <>");
}
