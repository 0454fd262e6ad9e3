use calculator::display::{result_label, same_text};
use calculator::evaluator::{is_zero, substitute, Evaluation, Progress, Request};
use calculator::expression::{innermost_group, next_step, split_point, Step};
use calculator::operator::{is_valid_operator, Op};
use calculator::text::{is_white_space, trim};

#[test]
fn operators_are_recognised() {
    assert_eq!(Op::from_char('+'), Some(Op::Add));
    assert_eq!(Op::from_char('^'), Some(Op::Pow));
    assert_eq!(Op::from_char('%'), None);
    assert!(is_valid_operator('/'));
    assert!(!is_valid_operator('('));
    assert_eq!(Op::Sub.weight(), 1);
    assert_eq!(Op::Div.weight(), 2);
    assert_eq!(Op::Pow.weight(), 3);
    assert_eq!(Op::Mul.symbol(), '*');
    assert!(Op::Pow.groups_right());
    assert!(!Op::Add.groups_right());
}

#[test]
fn trim_removes_outer_white_space() {
    assert_eq!(trim("  1 + 2 \t\n"), "1 + 2");
    assert_eq!(trim("   "), "");
    assert_eq!(trim("\u{3000}7\u{a0}"), "7");
    assert!(is_white_space(' '));
    assert!(!is_white_space('x'));
}

#[test]
fn innermost_group_is_found_first() {
    assert_eq!(innermost_group("(1+(2*3))"), Some((3, 7)));
    assert_eq!(innermost_group("(1)+(2)"), Some((0, 2)));
    assert_eq!(innermost_group(")1+2("), None);
    assert_eq!(innermost_group("1+2"), None);
}

#[test]
fn split_point_follows_precedence_and_grouping() {
    assert_eq!(split_point("10 - 3 - 2"), Some((7, Op::Sub)));
    assert_eq!(split_point("2^3^2"), Some((1, Op::Pow)));
    assert_eq!(split_point("3 + 5 * 2"), Some((2, Op::Add)));
    assert_eq!(split_point("2 ^ 2 * 3"), Some((6, Op::Mul)));
    assert_eq!(split_point("-5"), None);
    assert_eq!(split_point("42"), None);
}

#[test]
fn next_step_prefers_groups() {
    assert_eq!(next_step("(1+2)*3"), Step::Group { open: 0, close: 4 });
    assert_eq!(next_step("1+2*3"), Step::Split { at: 1, op: Op::Add });
    assert_eq!(next_step("7"), Step::Operand);
}

#[test]
fn substitute_replaces_the_span() {
    assert_eq!(substitute("2*(1-3)+1", 2, 6, "-2"), "2*-2+1");
}

#[test]
fn zero_texts() {
    assert!(is_zero("0"));
    assert!(is_zero("-0"));
    assert!(is_zero("0.000"));
    assert!(!is_zero("0.5"));
    assert!(!is_zero(""));
    assert!(!is_zero("-"));
    assert!(!is_zero("NaN"));
}

#[test]
fn labels() {
    assert_eq!(result_label(Some("inf")), "Infinity");
    assert_eq!(result_label(Some("-inf")), "Infinity");
    assert_eq!(result_label(Some("NaN")), "NaN");
    assert_eq!(result_label(Some("-0")), "0");
    assert_eq!(result_label(Some("2.5")), "2.5");
    assert_eq!(result_label(None), "Error");
    assert!(same_text("ab", "ab"));
    assert!(!same_text("ab", "abc"));
}

#[test]
fn evaluation_asks_in_order() {
    let (mut ev, p) = Evaluation::start("(1 + 2) * 4");
    match p {
        Progress::Ask(Request::Operand(x)) => assert_eq!(x, "1"),
        _ => panic!("expected an operand request"),
    }
    match ev.resume("1".to_string()) {
        Progress::Ask(Request::Operand(x)) => assert_eq!(x, "2"),
        _ => panic!("expected an operand request"),
    }
    match ev.resume("2".to_string()) {
        Progress::Ask(Request::Apply { op, left, right }) => {
            assert_eq!(op, Op::Add);
            assert_eq!(left, "1");
            assert_eq!(right, "2");
        }
        _ => panic!("expected an operation"),
    }
    match ev.resume("3".to_string()) {
        Progress::Ask(Request::Operand(x)) => assert_eq!(x, "3"),
        _ => panic!("expected an operand request"),
    }
    match ev.resume("3".to_string()) {
        Progress::Ask(Request::Operand(x)) => assert_eq!(x, "4"),
        _ => panic!("expected an operand request"),
    }
    match ev.resume("4".to_string()) {
        Progress::Ask(Request::Apply { op, .. }) => assert_eq!(op, Op::Mul),
        _ => panic!("expected an operation"),
    }
    match ev.resume("12".to_string()) {
        Progress::Done(v) => assert_eq!(v, "12"),
        _ => panic!("expected the result"),
    }
}

#[test]
fn division_by_zero_stops_the_evaluation() {
    let (mut ev, _) = Evaluation::start("5 / 0");
    let _ = ev.resume("5".to_string());
    match ev.resume("0".to_string()) {
        Progress::DivisionByZero => {}
        _ => panic!("expected a division by zero"),
    }
}
