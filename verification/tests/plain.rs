use echcell::old_csv;

fn strings(items: &[&str]) -> Vec<String> {
    items.iter().map(|s| s.to_string()).collect()
}

#[test]
fn plain_table_drops_the_commas_at_the_end_of_a_line() {
    let csv = old_csv::CSV::parse("A,B,C,,\n1,2,3,\n4,,6\n,,\n").unwrap();
    assert_eq!(csv.get_header(), "A,B,C,");
    assert_eq!(csv.get_element(0, 0), Some(&"1".to_string()));
    assert_eq!(csv.get_element(2, 0), Some(&"3".to_string()));
    assert_eq!(csv.get_element(3, 0), None);
    assert_eq!(csv.get_element(1, 1), Some(&"".to_string()));
    assert_eq!(csv.get_element(2, 1), Some(&"6".to_string()));
    assert_eq!(csv.get_element(0, 2), Some(&"".to_string()));
    assert_eq!(csv.get_element(1, 2), None);
    assert_eq!(csv.get_element(0, 3), None);
}

#[test]
fn plain_table_needs_a_line() {
    assert!(old_csv::CSV::parse("").is_none());
    let csv = old_csv::CSV::parse("\n").unwrap();
    assert_eq!(csv.get_header(), ",");
    assert_eq!(csv.get_element(0, 0), None);
}

#[test]
fn plain_table_is_written_with_a_comma_after_every_cell() {
    let csv = old_csv::CSV::parse("A,B\n1,=\n= 1,x\n").unwrap();
    assert_eq!(old_csv::CSV::eval_expr(csv), strings(&["A,B,", "1,EQ,", "= 1,x,"]));
}
