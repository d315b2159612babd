//! Grouper behavior on constructed rows.

use wordreference::rows::Marker;
use wordreference::rows::Row;
use wordreference::rows::group_rows;
use wordreference::rows::rows_from_raw;

fn row(marker: Marker, html: &str) -> Row {
    Row { marker, html: html.to_string() }
}

#[test]
fn toggle_boundaries_split_groups() {
    let rows = vec![
        row(Marker::Even, "a"),
        row(Marker::Even, "b"),
        row(Marker::Odd, "c"),
        row(Marker::Odd, "d"),
        row(Marker::Even, "e"),
    ];
    let groups = group_rows(&rows);
    assert_eq!(groups.len(), 3);
    assert_eq!(groups[0].len(), 2);
    assert_eq!(groups[1].len(), 2);
    assert_eq!(groups[2].len(), 1);
    assert_eq!(groups[0][0].html, "a");
    assert_eq!(groups[1][0].html, "c");
    assert_eq!(groups[2][0].html, "e");
}

#[test]
fn unmarked_rows_extend_current_group() {
    let rows = vec![
        row(Marker::Even, "a"),
        row(Marker::Unmarked, "b"),
        row(Marker::Odd, "c"),
        row(Marker::Unmarked, "d"),
    ];
    let groups = group_rows(&rows);
    assert_eq!(groups.len(), 2);
    assert_eq!(groups[0].len(), 2);
    assert_eq!(groups[1].len(), 2);
}

#[test]
fn leading_unmarked_rows_join_first_group() {
    let rows = vec![row(Marker::Unmarked, "h"), row(Marker::Even, "a"), row(Marker::Odd, "b")];
    let groups = group_rows(&rows);
    assert_eq!(groups.len(), 2);
    assert_eq!(groups[0].len(), 2);
    assert_eq!(groups[0][0].html, "h");
}

#[test]
fn single_row_single_group() {
    let rows = vec![row(Marker::Odd, "only")];
    let groups = group_rows(&rows);
    assert_eq!(groups.len(), 1);
    assert_eq!(groups[0].len(), 1);
    assert_eq!(groups[0][0].html, "only");
}

#[test]
fn no_rows_no_groups() {
    let rows: Vec<Row> = Vec::new();
    let groups = group_rows(&rows);
    assert_eq!(groups.len(), 0);
}

#[test]
fn every_row_in_exactly_one_group_in_order() {
    let rows = vec![
        row(Marker::Even, "0"),
        row(Marker::Odd, "1"),
        row(Marker::Odd, "2"),
        row(Marker::Even, "3"),
        row(Marker::Unmarked, "4"),
    ];
    let groups = group_rows(&rows);
    let flat: Vec<String> = groups.iter().flatten().map(|r| r.html.clone()).collect();
    let original: Vec<String> = rows.iter().map(|r| r.html.clone()).collect();
    assert_eq!(flat, original);
}

#[test]
fn regrouping_a_group_yields_it_back() {
    let rows = vec![
        row(Marker::Even, "a"),
        row(Marker::Even, "b"),
        row(Marker::Odd, "c"),
        row(Marker::Even, "d"),
    ];
    let groups = group_rows(&rows);
    assert_eq!(groups.len(), 3);
    for g in &groups {
        let again = group_rows(g);
        assert_eq!(again.len(), 1);
        assert_eq!(&again[0], g);
    }
}

#[test]
fn markers_come_from_class_attributes() {
    let raw = vec![
        (Some("even".to_string()), "a".to_string()),
        (Some("odd".to_string()), "b".to_string()),
        (Some("wrtopsection".to_string()), "c".to_string()),
        (None, "d".to_string()),
    ];
    let rows = rows_from_raw(&raw);
    assert_eq!(rows.len(), 4);
    assert_eq!(rows[0].marker, Marker::Even);
    assert_eq!(rows[1].marker, Marker::Odd);
    assert_eq!(rows[2].marker, Marker::Unmarked);
    assert_eq!(rows[3].marker, Marker::Unmarked);
    assert_eq!(rows[2].html, "c");
}
