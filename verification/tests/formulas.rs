use echcell::csv::exprs::eval;
use echcell::csv::exprs::BinaryOp;
use echcell::csv::exprs::CmpOp;
use echcell::csv::exprs::Functions;
use echcell::csv::exprs::Token;
use echcell::csv::funcs::condition_eval;
use echcell::csv::funcs::eval_postfix;
use echcell::csv::funcs::func_avg;
use echcell::csv::funcs::func_calc;
use echcell::csv::funcs::func_caller;
use echcell::csv::funcs::func_if;
use echcell::csv::funcs::func_sum;
use echcell::csv::funcs::get_cmp_values;
use echcell::csv::funcs::infix_to_postfix;
use echcell::csv::funcs::rest;
use echcell::csv::CSV;
use echcell::error::CsvError;
use echcell::number::Numbers;
use echcell::number::Relation;

type Parse = fn(&str) -> Option<f64>;
type Apply = fn(BinaryOp, f64, f64) -> f64;
type Order = fn(f64, f64) -> Relation;
type Count = fn(usize) -> f64;
type Show = fn(f64) -> String;
type Floats = Numbers<f64, Parse, Apply, Order, Count, Show>;

fn parse(text: &str) -> Option<f64> {
    text.parse::<f64>().ok()
}

fn apply(op: BinaryOp, left: f64, right: f64) -> f64 {
    match op {
        BinaryOp::Plus => left + right,
        BinaryOp::Minus => left - right,
        BinaryOp::Mult => left * right,
        BinaryOp::Div => left / right,
    }
}

fn order(left: f64, right: f64) -> Relation {
    if left < right {
        Relation::Less
    } else if left > right {
        Relation::Greater
    } else if left == right {
        Relation::Equal
    } else {
        Relation::Unordered
    }
}

fn count(k: usize) -> f64 {
    k as f64
}

fn show(n: f64) -> String {
    n.to_string()
}

fn floats() -> Floats {
    Numbers::new(parse as Parse, apply as Apply, order as Order, count as Count, show as Show)
}

fn sample() -> CSV {
    CSV::new("t.csv".to_string(), "A,B,C\n1,10,x\n2,20,\n3,30,= SUM A1 A3\n").unwrap()
}

fn value(csv: &CSV, item: &str) -> String {
    eval(&item.to_string(), csv, &floats())
}

fn tokens(text: &str) -> Vec<Token<f64>> {
    Token::tokenize(text, &floats())
}

fn complaint<T: std::fmt::Debug>(r: Result<T, CsvError>) -> String {
    r.unwrap_err().to_string()
}

fn same(a: &Token<f64>, b: &Token<f64>) -> bool {
    match (a, b) {
        (Token::Cell(x), Token::Cell(y)) => x == y,
        (Token::Number(x), Token::Number(y)) => x.to_bits() == y.to_bits(),
        (Token::Operator(x), Token::Operator(y)) => x == y,
        (Token::CmpOperator(x), Token::CmpOperator(y)) => x == y,
        (Token::Func(x), Token::Func(y)) => x == y,
        (Token::Then, Token::Then) => true,
        (Token::Else, Token::Else) => true,
        _ => false,
    }
}

fn same_all(a: &[Token<f64>], b: &[Token<f64>]) -> bool {
    a.len() == b.len() && a.iter().zip(b.iter()).all(|(x, y)| same(x, y))
}

#[test]
fn precedence_is_strictly_higher_only_for_mult_and_div_over_plus_and_minus() {
    let all = [BinaryOp::Plus, BinaryOp::Minus, BinaryOp::Mult, BinaryOp::Div];
    for a in all {
        for b in all {
            let high = matches!(a, BinaryOp::Mult | BinaryOp::Div);
            let low = matches!(b, BinaryOp::Plus | BinaryOp::Minus);
            assert_eq!(a.check_precendece(&b), high && low, "{:?} {:?}", a, b);
        }
    }
}

#[test]
fn comparisons_hold_as_the_relation_says() {
    let table = [
        (CmpOp::Eq, [false, true, false, false]),
        (CmpOp::Gt, [false, false, true, false]),
        (CmpOp::Lt, [true, false, false, false]),
        (CmpOp::Ge, [false, true, true, false]),
        (CmpOp::Le, [true, true, false, false]),
    ];
    let relations = [Relation::Less, Relation::Equal, Relation::Greater, Relation::Unordered];
    for (op, expected) in table {
        for (relation, holds) in relations.iter().zip(expected) {
            assert_eq!(op.test(*relation), holds, "{:?} {:?}", op, relation);
        }
    }
}

#[test]
fn each_comparison_has_a_function_of_its_own() {
    let relations = [Relation::Less, Relation::Equal, Relation::Greater, Relation::Unordered];
    assert_eq!(relations.map(CmpOp::eq), [false, true, false, false]);
    assert_eq!(relations.map(CmpOp::gt), [false, false, true, false]);
    assert_eq!(relations.map(CmpOp::lt), [true, false, false, false]);
    assert_eq!(relations.map(CmpOp::ge), [false, true, true, false]);
    assert_eq!(relations.map(CmpOp::le), [true, true, false, false]);
}

#[test]
fn numbers_are_what_the_five_functions_make_of_them() {
    let num = floats();
    assert_eq!(num.parse_text("2.5"), Some(2.5));
    assert_eq!(num.parse_text("two"), None);
    assert_eq!(num.apply_op(BinaryOp::Minus, 5.0, 3.0), 2.0);
    assert_eq!(num.apply_op(BinaryOp::Div, 1.0, 4.0), 0.25);
    assert_eq!(num.order_of(1.0, 2.0), Relation::Less);
    assert_eq!(num.order_of(2.0, 2.0), Relation::Equal);
    assert_eq!(num.order_of(3.0, 2.0), Relation::Greater);
    assert_eq!(num.order_of(f64::NAN, 2.0), Relation::Unordered);
    assert_eq!(num.count_of(3), 3.0);
    assert_eq!(num.show_number(0.5), "0.5");
}

#[test]
fn every_reserved_word_has_its_token() {
    let got = tokens("SUM AVG CALC IF THEN ELSE + - * / == > < >= <=");
    let expected = vec![
        Token::Func(Functions::Sum),
        Token::Func(Functions::Avg),
        Token::Func(Functions::Calc),
        Token::Func(Functions::If),
        Token::Then,
        Token::Else,
        Token::Operator(BinaryOp::Plus),
        Token::Operator(BinaryOp::Minus),
        Token::Operator(BinaryOp::Mult),
        Token::Operator(BinaryOp::Div),
        Token::CmpOperator(CmpOp::Eq),
        Token::CmpOperator(CmpOp::Gt),
        Token::CmpOperator(CmpOp::Lt),
        Token::CmpOperator(CmpOp::Ge),
        Token::CmpOperator(CmpOp::Le),
    ];
    assert!(same_all(&got, &expected), "{:?}", got);
}

#[test]
fn words_that_write_numbers_become_numbers() {
    let got = tokens("1 2.5 -3 +4 1e3 .5 inf");
    let expected = vec![
        Token::Number(1.0),
        Token::Number(2.5),
        Token::Number(-3.0),
        Token::Number(4.0),
        Token::Number(1000.0),
        Token::Number(0.5),
        Token::Number(f64::INFINITY),
    ];
    assert!(same_all(&got, &expected), "{:?}", got);
}

#[test]
fn unrecognized_words_become_cells() {
    let got = tokens("A1 sum Sum hello ++ =< 1,5 (3 THENN");
    let expected: Vec<Token<f64>> = ["A1", "sum", "Sum", "hello", "++", "=<", "1,5", "(3", "THENN"]
        .iter()
        .map(|w| Token::Cell(w.to_string()))
        .collect();
    assert!(same_all(&got, &expected), "{:?}", got);
}

#[test]
fn tokenizing_gives_one_token_for_each_word() {
    for text in ["", "   ", "SUM A1 A3", "  CALC\t3  +   4\n", "IF A1 == 5 THEN B1 ELSE C1"] {
        assert_eq!(tokens(text).len(), text.split_whitespace().count(), "{:?}", text);
    }
}

#[test]
fn tokenizing_twice_gives_the_same_tokens() {
    let text = "IF A1 >= 2.50 THEN SUM A1 A3 ELSE nothing";
    assert!(same_all(&tokens(text), &tokens(text)));
}

#[test]
fn token_of_a_word_follows_the_number_reader() {
    let never: Parse = |_| None;
    let num = Numbers::new(never, apply as Apply, order as Order, count as Count, show as Show);
    let got = Token::of_word(&"12".to_string(), &num);
    assert!(same(&got, &Token::Cell("12".to_string())));
    let got = Token::of_word(&"SUM".to_string(), &num);
    assert!(same(&got, &Token::Func(Functions::Sum)));
    let always: Parse = |_| Some(9.0);
    let num = Numbers::new(always, apply as Apply, order as Order, count as Count, show as Show);
    let got = Token::of_word(&"word".to_string(), &num);
    assert!(same(&got, &Token::Number(9.0)));
    let got = Token::of_word(&"+".to_string(), &num);
    assert!(same(&got, &Token::Operator(BinaryOp::Plus)));
}

#[test]
fn pointer_of_a_token_that_is_no_cell_names_no_cell() {
    assert_eq!(Token::<f64>::Cell("B7".to_string()).get_cell(), "B7");
    assert_eq!(Token::Number(1.0).get_cell(), "Unkown");
    assert_eq!(Token::<f64>::Then.get_cell(), "Unkown");
    assert_eq!(Token::<f64>::Func(Functions::If).get_cell(), "Unkown");
}

#[test]
fn clone_of_a_token_is_the_same_token() {
    for t in tokens("A1 2 + == SUM THEN ELSE") {
        assert!(same(&t.clone(), &t));
    }
}

#[test]
fn rest_drops_the_first_token() {
    let all = tokens("SUM A1 A3");
    assert!(same_all(&rest(&all), &tokens("A1 A3")));
    assert!(rest(&tokens("SUM")).is_empty());
}

#[test]
fn postfix_puts_operators_after_their_operands() {
    let csv = sample();
    let got = infix_to_postfix(&csv, &tokens("3 + 4 * 2"), &floats()).unwrap();
    let expected = vec![
        Token::Number(3.0),
        Token::Number(4.0),
        Token::Number(2.0),
        Token::Operator(BinaryOp::Mult),
        Token::Operator(BinaryOp::Plus),
    ];
    assert!(same_all(&got, &expected), "{:?}", got);
    let got = infix_to_postfix(&csv, &tokens("10 - 2 - 3"), &floats()).unwrap();
    let expected = vec![
        Token::Number(10.0),
        Token::Number(2.0),
        Token::Operator(BinaryOp::Minus),
        Token::Number(3.0),
        Token::Operator(BinaryOp::Minus),
    ];
    assert!(same_all(&got, &expected), "{:?}", got);
    let got = infix_to_postfix(&csv, &tokens("8 / 4 * 2 + 1"), &floats()).unwrap();
    let expected = vec![
        Token::Number(8.0),
        Token::Number(4.0),
        Token::Operator(BinaryOp::Div),
        Token::Number(2.0),
        Token::Operator(BinaryOp::Mult),
        Token::Number(1.0),
        Token::Operator(BinaryOp::Plus),
    ];
    assert!(same_all(&got, &expected), "{:?}", got);
}

#[test]
fn postfix_looks_up_cells() {
    let csv = sample();
    let got = infix_to_postfix(&csv, &tokens("A2 * B3"), &floats()).unwrap();
    let expected =
        vec![Token::Number(2.0), Token::Number(30.0), Token::Operator(BinaryOp::Mult)];
    assert!(same_all(&got, &expected), "{:?}", got);
}

#[test]
fn postfix_fails_at_the_first_token_that_fails() {
    let csv = sample();
    let num = floats();
    assert_eq!(
        complaint(infix_to_postfix(&csv, &tokens("1 + C1 + Z9"), &num)),
        "#[EXPR ERROR] NaN"
    );
    assert_eq!(
        complaint(infix_to_postfix(&csv, &tokens("1 + Z9 + C1"), &num)),
        "#[CELL POINTER ERROR] Column index out of bounds..."
    );
    assert_eq!(
        complaint(infix_to_postfix(&csv, &tokens("1 + A9 == 2"), &num)),
        "#[CELL POINTER ERROR] Row index out of bounds..."
    );
    assert_eq!(complaint(infix_to_postfix(&csv, &tokens("1 == A9"), &num)), "#[EXPR ERROR] NaN");
    assert_eq!(complaint(infix_to_postfix(&csv, &tokens("SUM"), &num)), "#[EXPR ERROR] NaN");
}

#[test]
fn postfix_value_takes_the_right_operand_from_the_top() {
    let num = floats();
    let minus = vec![Token::Number(10.0), Token::Number(4.0), Token::Operator(BinaryOp::Minus)];
    assert_eq!(eval_postfix(&minus, &num).unwrap(), 6.0);
    let div = vec![Token::Number(10.0), Token::Number(4.0), Token::Operator(BinaryOp::Div)];
    assert_eq!(eval_postfix(&div, &num).unwrap(), 2.5);
}

#[test]
fn postfix_value_needs_exactly_one_number_at_the_end() {
    let num = floats();
    assert_eq!(complaint(eval_postfix(&vec![], &num)), "#[EXPR ERROR] Empty stack...");
    assert_eq!(
        complaint(eval_postfix(&vec![Token::Number(1.0), Token::Number(2.0)], &num)),
        "#[EXPR ERROR] Incorrect math expression..."
    );
    assert_eq!(
        complaint(eval_postfix(&vec![Token::Number(1.0), Token::Operator(BinaryOp::Plus)], &num)),
        "#[EXPR ERROR] Incorrect math expression..."
    );
    assert_eq!(
        complaint(eval_postfix(&vec![Token::Operator(BinaryOp::Plus)], &num)),
        "#[EXPR ERROR] Incorrect math expression..."
    );
    assert_eq!(
        complaint(eval_postfix(&vec![Token::Number(1.0), Token::Then], &num)),
        "#[EXPR ERROR] NaN"
    );
    assert_eq!(eval_postfix(&vec![Token::Number(1.5)], &num).unwrap(), 1.5);
}

#[test]
fn calc_multiplies_before_it_adds() {
    let csv = sample();
    assert_eq!(value(&csv, "= CALC 3 + 4 * 2"), "11");
    assert_eq!(func_calc(&csv, &tokens("3 + 4 * 2"), &floats()).unwrap(), 11.0);
    assert_eq!(value(&csv, "= CALC 3 * 4 + 2"), "14");
    assert_eq!(value(&csv, "= CALC 2 + 12 / 4 - 1"), "4");
}

#[test]
fn calc_goes_from_left_to_right_at_equal_rank() {
    let csv = sample();
    assert_eq!(value(&csv, "= CALC 10 - 2 - 3"), "5");
    assert_eq!(value(&csv, "= CALC 16 / 4 / 2"), "2");
    assert_eq!(value(&csv, "= CALC 16 / 4 * 2"), "8");
    assert_eq!(value(&csv, "= CALC 1 - 2 + 3"), "2");
}

#[test]
fn calc_reads_cells_as_numbers() {
    let csv = sample();
    assert_eq!(value(&csv, "= CALC A1 + B2 * A3"), "61");
    assert_eq!(value(&csv, "= CALC A2"), "2");
    assert_eq!(value(&csv, "= CALC 7 / A2"), "3.5");
}

#[test]
fn calc_divides_by_zero_as_the_numbers_do() {
    let csv = sample();
    assert_eq!(value(&csv, "= CALC 1 / 0"), "inf");
    assert_eq!(value(&csv, "= CALC -1 / 0"), "-inf");
    assert_eq!(value(&csv, "= CALC 0 / 0"), "NaN");
}

#[test]
fn calc_with_an_operator_too_many_is_an_expression_error() {
    let csv = sample();
    let num = floats();
    for text in ["3 +", "3 + 4 *", "+", "* 3", "3 + + 4", "1 + 2 -"] {
        let r = func_calc(&csv, &tokens(text), &num);
        assert!(matches!(r, Err(CsvError::ExprError(_))), "{:?}", text);
        assert_eq!(complaint(r), "#[EXPR ERROR] Incorrect math expression...", "{:?}", text);
    }
    assert_eq!(value(&csv, "= CALC 3 +"), "#[EXPR ERROR] Incorrect math expression...");
}

#[test]
fn calc_with_a_number_too_many_is_an_expression_error() {
    let csv = sample();
    assert_eq!(value(&csv, "= CALC 3 4"), "#[EXPR ERROR] Incorrect math expression...");
    assert_eq!(value(&csv, "= CALC 1 + 2 3"), "#[EXPR ERROR] Incorrect math expression...");
}

#[test]
fn calc_without_tokens_is_an_empty_stack() {
    let csv = sample();
    assert_eq!(value(&csv, "= CALC"), "#[EXPR ERROR] Empty stack...");
}

#[test]
fn calc_takes_operands_before_their_operator_too() {
    let csv = sample();
    assert_eq!(value(&csv, "= CALC 3 4 +"), "7");
}

#[test]
fn calc_refuses_what_is_no_number() {
    let csv = sample();
    assert_eq!(value(&csv, "= CALC C1 + 1"), "#[EXPR ERROR] NaN");
    assert_eq!(value(&csv, "= CALC C2 + 1"), "#[EXPR ERROR] NaN");
    assert_eq!(value(&csv, "= CALC 1 == 1"), "#[EXPR ERROR] NaN");
    assert_eq!(value(&csv, "= CALC 1 + SUM A1 A3"), "#[EXPR ERROR] NaN");
    assert_eq!(
        value(&csv, "= CALC hello"),
        "#[CELL POINTER ERROR] Column index out of bounds..."
    );
    assert_eq!(value(&csv, "= CALC A7"), "#[CELL POINTER ERROR] Row index out of bounds...");
    assert_eq!(
        value(&csv, "= CALC Ab"),
        "#[CELL POINTER ERROR] Incorrect row index specifier..."
    );
}

#[test]
fn sum_and_avg_of_a_column() {
    let csv = CSV::new("t.csv".to_string(), "A\n1\n2\n3\n").unwrap();
    assert_eq!(value(&csv, "= SUM A1 A3"), "6");
    assert_eq!(value(&csv, "= AVG A1 A3"), "2");
    assert_eq!(func_sum(&csv, &tokens("A1 A3"), &floats()).unwrap(), 6.0);
    assert_eq!(func_avg(&csv, &tokens("A1 A3"), &floats()).unwrap(), 2.0);
}

#[test]
fn sum_and_avg_of_a_row() {
    let csv = CSV::new("t.csv".to_string(), "A,B,C,D\n1,2,4,8\n").unwrap();
    assert_eq!(value(&csv, "= SUM A1 D1"), "15");
    assert_eq!(value(&csv, "= AVG A1 D1"), "3.75");
    assert_eq!(value(&csv, "= SUM B1 C1"), "6");
    assert_eq!(value(&csv, "= AVG C1 C1"), "4");
}

#[test]
fn sum_and_avg_take_the_ends_of_a_range_in_either_order() {
    let csv = sample();
    assert_eq!(value(&csv, "= SUM A3 A1"), "6");
    assert_eq!(value(&csv, "= AVG A3 A1"), "2");
    assert_eq!(value(&csv, "= SUM B2 A2"), "22");
    assert_eq!(value(&csv, "= AVG B2 A2"), "11");
}

#[test]
fn sum_and_avg_take_exactly_two_arguments() {
    let csv = sample();
    let num = floats();
    for text in ["", "A1", "A1 A2 A3"] {
        assert!(matches!(func_sum(&csv, &tokens(text), &num), Err(CsvError::ArgError)));
        assert!(matches!(func_avg(&csv, &tokens(text), &num), Err(CsvError::ArgError)));
    }
    assert_eq!(value(&csv, "= SUM A1"), "#[ARG ERROR] Incorrect argument amount...");
    assert_eq!(value(&csv, "= AVG A1 A2 A3"), "#[ARG ERROR] Incorrect argument amount...");
}

#[test]
fn sum_and_avg_fail_as_their_range_fails() {
    let csv = sample();
    assert_eq!(value(&csv, "= SUM A1 B2"), "#[RANGE ERROR] Unknown range type...");
    assert_eq!(value(&csv, "= AVG A1 B2"), "#[RANGE ERROR] Unknown range type...");
    assert_eq!(value(&csv, "= SUM A1 A9"), "#[CELL POINTER ERROR] Row index out of bounds...");
    assert_eq!(value(&csv, "= AVG Z1 A1"), "#[CELL POINTER ERROR] Column index out of bounds...");
    assert_eq!(value(&csv, "= SUM 1 2"), "#[CELL POINTER ERROR] Column index out of bounds...");
}

#[test]
fn sum_refuses_a_cell_that_is_no_number() {
    let csv = sample();
    assert_eq!(value(&csv, "= SUM C1 C3"), "#[EXPR ERROR] NaN");
    assert_eq!(value(&csv, "= AVG A1 C1"), "#[EXPR ERROR] NaN");
    assert_eq!(value(&csv, "= SUM C2 C2"), "#[EXPR ERROR] NaN");
}

#[test]
fn if_gives_the_text_of_the_branch_token() {
    let five = CSV::new("t.csv".to_string(), "A,B,C\n5,yes,no\n").unwrap();
    assert_eq!(value(&five, "= IF A1 == 5 THEN B1 ELSE C1"), "B1");
    assert_ne!(value(&five, "= IF A1 == 5 THEN B1 ELSE C1"), "yes");
    let six = CSV::new("t.csv".to_string(), "A,B,C\n6,yes,no\n").unwrap();
    assert_eq!(value(&six, "= IF A1 == 5 THEN B1 ELSE C1"), "C1");
    assert_ne!(value(&six, "= IF A1 == 5 THEN B1 ELSE C1"), "no");
    assert_eq!(value(&six, "= IF A1 == 5 THEN right ELSE wrong"), "wrong");
}

#[test]
fn if_writes_a_number_branch_as_the_numbers_do() {
    let csv = sample();
    assert_eq!(value(&csv, "= IF 1 < 2 THEN 10 ELSE 20"), "10");
    assert_eq!(value(&csv, "= IF 1 > 2 THEN 10 ELSE 20"), "20");
    assert_eq!(value(&csv, "= IF 1 < 2 THEN 1.50 ELSE 2"), "1.5");
    assert_eq!(func_if(&csv, &tokens("A1 < B1 THEN 1 ELSE 2"), &floats()).unwrap(), "1");
}

#[test]
fn if_calls_a_function_branch() {
    let csv = sample();
    assert_eq!(value(&csv, "= IF 1 > 2 THEN 10 ELSE SUM A1 A3"), "6");
    assert_eq!(value(&csv, "= IF 1 < 2 THEN CALC A1 + B1 ELSE 0"), "11");
    assert_eq!(value(&csv, "= IF 1 < 2 THEN AVG B1 B3 ELSE 0"), "20");
    assert_eq!(
        value(&csv, "= IF 1 < 2 THEN SUM A1 ELSE 0"),
        "#[ARG ERROR] Incorrect argument amount..."
    );
}

#[test]
fn if_uses_only_the_first_token_of_a_plain_branch() {
    let csv = sample();
    assert_eq!(value(&csv, "= IF 1 < 2 THEN a b c ELSE d"), "a");
    assert_eq!(value(&csv, "= IF 1 < 2 THEN 4 + 5 ELSE d"), "4");
}

#[test]
fn if_compares_as_the_numbers_do() {
    let csv = sample();
    let cases = [
        ("1 == 1", true),
        ("1 == 2", false),
        ("2 > 1", true),
        ("1 > 1", false),
        ("1 < 2", true),
        ("2 < 2", false),
        ("2 >= 2", true),
        ("1 >= 2", false),
        ("2 <= 2", true),
        ("3 <= 2", false),
        ("NaN == NaN", false),
        ("NaN >= NaN", false),
        ("NaN <= 1", false),
        ("inf > 5", true),
        ("-0 == 0", true),
        ("A1 < A2", true),
        ("B1 <= A3", false),
        ("A3 == 3", true),
        ("30 == B3", true),
    ];
    for (text, expected) in cases {
        assert_eq!(condition_eval(&csv, &tokens(text), &floats()).unwrap(), expected, "{:?}", text);
    }
}

#[test]
fn if_takes_a_condition_and_two_branches() {
    let csv = sample();
    for text in [
        "= IF",
        "= IF 1 < 2",
        "= IF 1 < 2 THEN 1",
        "= IF 1 < 2 ELSE 1",
        "= IF 1 < 2 THEN 1 ELSE 2 ELSE 3",
        "= IF 1 < 2 THEN 1 ELSE IF 2 < 3 THEN 4 ELSE 5",
        "= IF 1 < THEN 1 ELSE 2",
        "= IF 1 < 2 3 THEN 1 ELSE 2",
        "= IF THEN 1 ELSE 2",
        "= IF 1 < 2 THEN ELSE 2",
        "= IF 1 > 2 THEN 1 ELSE",
    ] {
        assert_eq!(value(&csv, text), "#[ARG ERROR] Incorrect argument amount...", "{:?}", text);
    }
}

#[test]
fn if_looks_only_at_the_branch_it_takes() {
    let csv = sample();
    assert_eq!(value(&csv, "= IF 1 < 2 THEN 1 ELSE"), "1");
    assert_eq!(value(&csv, "= IF 1 > 2 THEN ELSE 2"), "2");
    assert_eq!(value(&csv, "= IF 1 < 2 THEN 1 ELSE +"), "1");
}

#[test]
fn if_takes_either_word_as_a_separator() {
    let csv = sample();
    assert_eq!(value(&csv, "= IF 1 < 2 ELSE 1 THEN 2"), "1");
    assert_eq!(value(&csv, "= IF 1 > 2 THEN 1 THEN 2"), "2");
}

#[test]
fn if_refuses_what_it_cannot_compare() {
    let csv = sample();
    assert_eq!(
        value(&csv, "= IF 1 + 2 THEN 1 ELSE 2"),
        "#[EXPR ERROR] Expected a comparison operator..."
    );
    assert_eq!(
        value(&csv, "= IF 1 A1 2 THEN 1 ELSE 2"),
        "#[EXPR ERROR] Expected a comparison operator..."
    );
    assert_eq!(value(&csv, "= IF + < 2 THEN 1 ELSE 2"), "#[EXPR ERROR] Uncomparable types...");
    assert_eq!(value(&csv, "= IF 1 < SUM THEN 1 ELSE 2"), "#[EXPR ERROR] Uncomparable types...");
    assert_eq!(value(&csv, "= IF Z9 < + THEN 1 ELSE 2"), "#[EXPR ERROR] Uncomparable types...");
    assert_eq!(value(&csv, "= IF C1 < 2 THEN 1 ELSE 2"), "#[EXPR ERROR] Uncomparable ypes...");
    assert_eq!(value(&csv, "= IF 2 < C1 THEN 1 ELSE 2"), "#[EXPR ERROR] Uncomparable ypes...");
    assert_eq!(
        value(&csv, "= IF Z9 < C1 THEN 1 ELSE 2"),
        "#[CELL POINTER ERROR] Column index out of bounds..."
    );
    assert_eq!(value(&csv, "= IF C1 < Z9 THEN 1 ELSE 2"), "#[EXPR ERROR] Uncomparable ypes...");
    assert_eq!(
        value(&csv, "= IF A9 + 1 THEN 1 ELSE 2"),
        "#[CELL POINTER ERROR] Row index out of bounds..."
    );
}

#[test]
fn if_refuses_a_branch_that_starts_with_an_operator() {
    let csv = sample();
    assert_eq!(value(&csv, "= IF 1 < 2 THEN + ELSE 2"), "#[EXPR ERROR] Wrong argument type...");
    assert_eq!(value(&csv, "= IF 1 > 2 THEN 1 ELSE =="), "#[EXPR ERROR] Wrong argument type...");
}

#[test]
fn compared_values_come_from_numbers_and_cells() {
    let csv = sample();
    let num = floats();
    let n = Token::Number(4.0);
    let c = Token::Cell("B2".to_string());
    assert_eq!(get_cmp_values(&csv, &n, &n, &num).unwrap(), (4.0, 4.0));
    assert_eq!(get_cmp_values(&csv, &n, &c, &num).unwrap(), (4.0, 20.0));
    assert_eq!(get_cmp_values(&csv, &c, &n, &num).unwrap(), (20.0, 4.0));
    assert_eq!(get_cmp_values(&csv, &c, &c, &num).unwrap(), (20.0, 20.0));
    assert_eq!(
        complaint(get_cmp_values(&csv, &c, &Token::Then, &num)),
        "#[EXPR ERROR] Uncomparable types..."
    );
}

#[test]
fn caller_needs_a_function() {
    let csv = sample();
    let num = floats();
    let r = func_caller(&csv, &Token::Number(1.0), &tokens("A1 A3"), &num);
    assert!(matches!(r, Err(CsvError::ExprError(_))));
    assert_eq!(complaint(r), "#[EXPR ERROR] Unknown function...");
    assert_eq!(
        func_caller(&csv, &Token::Func(Functions::Sum), &tokens("A1 A3"), &num).unwrap(),
        "6"
    );
    assert_eq!(value(&csv, "= 5"), "#[EXPR ERROR] Unknown function...");
    assert_eq!(value(&csv, "= A1 + 2"), "#[EXPR ERROR] Unknown function...");
    assert_eq!(value(&csv, "= THEN"), "#[EXPR ERROR] Unknown function...");
}

#[test]
fn empty_cell_is_marked() {
    assert_eq!(value(&sample(), ""), "#[NULL]");
}

#[test]
fn plain_text_stays_as_it_is() {
    let csv = sample();
    for text in ["hello", "42", " = SUM A1 A3", "SUM A1 A3", "a = b", " ", "#[NULL]", "é"] {
        assert_eq!(value(&csv, text), text);
    }
}

#[test]
fn text_without_the_whole_marker_stays_as_it_is() {
    let csv = sample();
    for text in ["=", "=x", "=S", "=SUM A1 A3", "=_SUM A1 A3", "=éSUM A1 A3", "=\tSUM A1 A3", "=="] {
        assert_eq!(value(&csv, text), text, "{:?}", text);
    }
}

#[test]
fn formula_without_words_is_a_token_error() {
    let csv = sample();
    for text in ["= ", "=  ", "= \t ", "= \u{a0}"] {
        assert_eq!(value(&csv, text), "#[TOKEN ERROR]", "{:?}", text);
    }
}

#[test]
fn formula_starts_after_the_marker() {
    let csv = sample();
    assert_eq!(value(&csv, "= SUM A1 A3"), "6");
    assert_eq!(value(&csv, "=    SUM   A1\tA3  "), "6");
    assert_eq!(value(&csv, "= = SUM A1 A3"), "#[EXPR ERROR] Unknown function...");
}

#[test]
fn formula_reads_the_text_of_cells_not_their_values() {
    let csv = sample();
    assert_eq!(value(&csv, "= CALC C3"), "#[EXPR ERROR] NaN");
    assert_eq!(value(&csv, "= SUM C3 C3"), "#[EXPR ERROR] NaN");
}

/// The value of numbers and operators in turn: products first, then sums,
/// each from left to right.
fn by_rank(numbers: &[f64], ops: &[BinaryOp]) -> f64 {
    let mut terms: Vec<f64> = vec![numbers[0]];
    let mut joins: Vec<BinaryOp> = Vec::new();
    for (op, n) in ops.iter().zip(&numbers[1..]) {
        match op {
            BinaryOp::Mult => *terms.last_mut().unwrap() *= n,
            BinaryOp::Div => *terms.last_mut().unwrap() /= n,
            _ => {
                joins.push(*op);
                terms.push(*n);
            },
        }
    }
    let mut sum = terms[0];
    for (op, term) in joins.iter().zip(&terms[1..]) {
        match op {
            BinaryOp::Plus => sum += term,
            _ => sum -= term,
        }
    }
    sum
}

#[test]
fn calc_has_the_value_of_the_infix_expression() {
    let csv = sample();
    let num = floats();
    let mut state: u64 = 3;
    let mut next = move || {
        state = state.wrapping_mul(6364136223846793005).wrapping_add(1442695040888963407);
        state >> 33
    };
    let symbols = ["+", "-", "*", "/"];
    let all = [BinaryOp::Plus, BinaryOp::Minus, BinaryOp::Mult, BinaryOp::Div];
    for _ in 0..5000 {
        let len = (next() % 7) as usize;
        let mut numbers = vec![(next() % 10) as f64];
        let mut ops = Vec::new();
        let mut text = format!("{}", numbers[0]);
        for _ in 0..len {
            let k = (next() % 4) as usize;
            let n = (next() % 10) as f64;
            ops.push(all[k]);
            numbers.push(n);
            text = format!("{} {} {}", text, symbols[k], n);
        }
        let got = func_calc(&csv, &tokens(&text), &num).unwrap();
        let expected = by_rank(&numbers, &ops);
        assert!(got == expected || (got.is_nan() && expected.is_nan()), "{:?}", text);
        let trailing = format!("{} +", text);
        assert!(
            matches!(func_calc(&csv, &tokens(&trailing), &num), Err(CsvError::ExprError(_))),
            "{:?}",
            trailing
        );
    }
}
