use graph_buddy::ParseError;
use graph_buddy::WorkSheet;
use graph_buddy::WorkSheetBuilder;

#[test]
fn worksheet_from_csv_text() {
    let ws: WorkSheet = WorkSheetBuilder::new()
        .csv_data("x,y\n1,2\n3,4")
        .build()
        .unwrap();

    assert_eq!(ws.len(), 2);
    assert_eq!(ws.get(0).0, 1);
    assert_eq!(ws.get(0), (1, 2));
    assert_eq!(ws.get(1).1, 4);
    assert_eq!(ws.get(1), (3, 4));
}

#[test]
fn worksheet_from_csv_text_negative_and_extreme_values() {
    let ws = WorkSheetBuilder::new()
        .csv_data("x,y\n-5,+7\n-9223372036854775808,9223372036854775807")
        .build()
        .unwrap();

    assert_eq!(ws.get(0), (-5, 7));
    assert_eq!(ws.get(1), (i64::MIN, i64::MAX));
}

#[test]
fn incorrectly_formatted_worksheet_fails() {
    let ws = WorkSheetBuilder::new().csv_data("x,y\n5\n3,4").build();

    match ws {
        Ok(_) => panic!("unexpected"),
        Err(ParseError) => {}
    }
}

#[test]
fn empty_required_column_fails() {
    let ws = WorkSheetBuilder::new().csv_data("x,y\n1,\n3,4").build();
    assert!(ws.is_err());
}

#[test]
fn non_numeric_column_fails() {
    let ws = WorkSheetBuilder::new().csv_data("x,y\n1,a").build();
    assert!(ws.is_err());
}

#[test]
fn out_of_range_value_fails() {
    let ws = WorkSheetBuilder::new()
        .csv_data("x,y\n9223372036854775808,0")
        .build();
    assert!(ws.is_err());
}

#[test]
fn extra_columns_are_ignored() {
    let ws = WorkSheetBuilder::new()
        .csv_data("x,y,z\n1,2,9\n3,4,9")
        .build()
        .unwrap();
    assert_eq!(ws.get(0), (1, 2));
    assert_eq!(ws.get(1), (3, 4));
}

#[test]
fn vec_data_pairs_consecutive_values() {
    let ws = WorkSheetBuilder::new()
        .vec_data(vec![1, 2, 3, 4])
        .build()
        .unwrap();
    assert_eq!(ws.len(), 2);
    assert_eq!(ws.get(0), (1, 2));
    assert_eq!(ws.get(1), (3, 4));
}

#[test]
fn vec_data_odd_length_fails() {
    let ws = WorkSheetBuilder::new().vec_data(vec![1, 2, 3]).build();
    assert!(ws.is_err());
}

#[test]
fn no_source_builds_empty_worksheet() {
    let ws = WorkSheetBuilder::new().build().unwrap();
    assert_eq!(ws.len(), 0);
}

#[test]
fn csv_source_takes_precedence_and_settings_carry_forward() {
    let ws = WorkSheetBuilder::new()
        .vec_data(vec![7, 8])
        .csv_data("x,y\n1,2")
        .build()
        .unwrap();
    assert_eq!(ws.len(), 1);
    assert_eq!(ws.get(0), (1, 2));
}
