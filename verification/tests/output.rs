use echcell::csv::evaluate_row;
use echcell::csv::exprs::BinaryOp;
use echcell::csv::generate_output;
use echcell::csv::CSV;
use echcell::number::Numbers;
use echcell::number::Relation;

type Parse = fn(&str) -> Option<f64>;
type Apply = fn(BinaryOp, f64, f64) -> f64;
type Order = fn(f64, f64) -> Relation;
type Count = fn(usize) -> f64;
type Show = fn(f64) -> String;

fn parse(text: &str) -> Option<f64> {
    text.parse::<f64>().ok()
}

fn apply(op: BinaryOp, left: f64, right: f64) -> f64 {
    match op {
        BinaryOp::Plus => left + right,
        BinaryOp::Minus => left - right,
        BinaryOp::Mult => left * right,
        BinaryOp::Div => left / right,
    }
}

fn order(left: f64, right: f64) -> Relation {
    if left < right {
        Relation::Less
    } else if left > right {
        Relation::Greater
    } else if left == right {
        Relation::Equal
    } else {
        Relation::Unordered
    }
}

fn count(k: usize) -> f64 {
    k as f64
}

fn show(n: f64) -> String {
    n.to_string()
}

fn floats() -> Numbers<f64, Parse, Apply, Order, Count, Show> {
    Numbers::new(parse as Parse, apply as Apply, order as Order, count as Count, show as Show)
}

fn strings(items: &[&str]) -> Vec<String> {
    items.iter().map(|s| s.to_string()).collect()
}

#[test]
fn output_keeps_the_header_and_evaluates_the_body() {
    let text = "A,B,C\n1,2,= SUM A1 B1\n3,4,= CALC A2 * B2 - 2\n,text,= AVG A1 A2\n";
    let csv = CSV::new("in.csv".to_string(), text).unwrap();
    assert_eq!(
        generate_output(&csv, &floats()),
        strings(&["A,B,C", "1,2,3", "3,4,10", "#[NULL],text,2"])
    );
}

#[test]
fn output_goes_on_after_a_cell_that_fails() {
    let text = "A,B\n= CALC 1 +,= SUM A2 A2\n5,= NOPE\n= IF A2 == 5 THEN B1 ELSE A1,= SUM A1 B2\n";
    let csv = CSV::new("in.csv".to_string(), text).unwrap();
    assert_eq!(
        generate_output(&csv, &floats()),
        strings(&[
            "A,B",
            "#[EXPR ERROR] Incorrect math expression...,5",
            "5,#[EXPR ERROR] Unknown function...",
            "B1,#[RANGE ERROR] Unknown range type...",
        ])
    );
}

#[test]
fn output_of_a_header_alone_is_the_header() {
    let csv = CSV::new("in.csv".to_string(), "A,B\n").unwrap();
    assert_eq!(generate_output(&csv, &floats()), strings(&["A,B"]));
}

#[test]
fn row_line_joins_the_values_with_commas() {
    let csv = CSV::new("in.csv".to_string(), "A,B\n1,2\n").unwrap();
    let row = strings(&["= SUM A1 B1", "", "x", "= CALC 2 * 3"]);
    assert_eq!(evaluate_row(&row, &csv, &floats()), "3,#[NULL],x,6");
    assert_eq!(evaluate_row(&strings(&[]), &csv, &floats()), "");
    assert_eq!(evaluate_row(&strings(&[""]), &csv, &floats()), "#[NULL]");
}
