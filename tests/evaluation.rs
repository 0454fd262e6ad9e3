use calculator::display::result_label;
use calculator::evaluator::{Evaluation, Progress, Request};
use calculator::operator::Op;

fn value_of(text: &str) -> f64 {
    text.parse::<f64>().unwrap_or(0.0)
}

fn apply(op: Op, left: f64, right: f64) -> f64 {
    match op {
        Op::Add => left + right,
        Op::Sub => left - right,
        Op::Mul => left * right,
        Op::Div => left / right,
        Op::Pow => left.powf(right),
    }
}

fn evaluate(expr: &str) -> Option<f64> {
    let (mut ev, mut progress) = Evaluation::start(expr);
    loop {
        progress = match progress {
            Progress::Ask(Request::Operand(x)) => ev.resume(value_of(&x).to_string()),
            Progress::Ask(Request::Apply { op, left, right }) => {
                ev.resume(apply(op, value_of(&left), value_of(&right)).to_string())
            }
            Progress::Done(v) => return Some(value_of(&v)),
            Progress::DivisionByZero => return None,
        };
    }
}

fn label(expr: &str) -> String {
    match evaluate(expr) {
        Some(v) => result_label(Some(&v.to_string())),
        None => result_label(None),
    }
}

#[test]
fn subtraction_groups_from_the_left() {
    assert_eq!(evaluate("10 - 3 - 2"), Some(5.0));
    assert_eq!(evaluate("100 / 10 / 2"), Some(5.0));
    assert_eq!(evaluate("1 - 2 + 3"), Some(2.0));
}

#[test]
fn exponent_groups_from_the_right() {
    assert_eq!(evaluate("2 ^ 3 ^ 2"), Some(512.0));
}

#[test]
fn precedence_is_kept() {
    assert_eq!(evaluate("3 + 5 * 2"), Some(13.0));
    assert_eq!(evaluate("2 ^ 2 * 3"), Some(12.0));
}

#[test]
fn parentheses_override_precedence() {
    assert_eq!(evaluate("(3 + 5) * 2"), Some(16.0));
    assert_eq!(evaluate("((1+1)*(2+2))"), Some(8.0));
}

#[test]
fn division_by_zero_fails() {
    assert_eq!(evaluate("5 / (2 - 2)"), None);
    assert_eq!(evaluate("5 / 0"), None);
    assert_eq!(evaluate("1 + (3 * (4 / (1 - 1)))"), None);
    assert_eq!(label("5 / 0"), "Error");
}

#[test]
fn white_space_is_insignificant() {
    assert_eq!(evaluate(" 5  +   5 "), Some(10.0));
    assert_eq!(evaluate(" 5  +   5 "), evaluate("5+5"));
}

#[test]
fn whole_results_show_no_fraction() {
    assert_eq!(label("10/2"), "5");
    assert_eq!(label("1/3"), "0.3333333333333333");
    let third = evaluate("1/3").unwrap();
    assert!((third - 1.0 / 3.0).abs() < 1e-15);
}

#[test]
fn bare_number_is_itself() {
    assert_eq!(evaluate("42"), Some(42.0));
    assert_eq!(evaluate("  2.5 "), Some(2.5));
}

#[test]
fn group_value_substituted_gives_same_result() {
    assert_eq!(evaluate("(1/3)*3"), evaluate("0.3333333333333333*3"));
    assert_eq!(evaluate("(3 + 5) * 2"), evaluate("8 * 2"));
    assert_eq!(evaluate("2 * (1 - 3)"), evaluate("2 * -2"));
}

#[test]
fn unparseable_operand_is_zero() {
    assert_eq!(evaluate("abc + 1"), Some(1.0));
    assert_eq!(evaluate(""), Some(0.0));
    assert_eq!(evaluate("5 %"), Some(0.0));
}

#[test]
fn leading_minus_is_part_of_the_operand() {
    assert_eq!(evaluate("-5"), Some(-5.0));
    assert_eq!(evaluate("-3 * 3"), Some(-9.0));
}

#[test]
fn negative_group_value_is_written_back_as_text() {
    assert_eq!(evaluate("2 * (1 - 3)"), Some(-2.0));
}

#[test]
fn non_finite_results_are_labelled() {
    assert_eq!(label("10 ^ 400"), "Infinity");
    assert_eq!(label("(0 - 8) ^ 0.5"), "NaN");
    assert_eq!(label("2 - 2"), "0");
}

#[test]
fn fractional_exponent() {
    assert_eq!(evaluate("4 ^ 0.5"), Some(2.0));
    assert_eq!(evaluate("9 ^ 0.5"), Some(3.0));
}
