use fldemos::calculator::{Model, Op, Step};

fn press(m: &mut Model, keys: &[&str]) -> Vec<Step> {
    keys.iter().map(|k| m.click(k)).collect()
}

#[test]
fn digits_replace_the_leading_zero() {
    let mut m = Model::default();
    press(&mut m, &["0", "1", "2"]);
    assert_eq!(m.current, "12");
}

#[test]
fn one_decimal_point_only() {
    let mut m = Model::default();
    press(&mut m, &[".", "5", ".", "2"]);
    assert_eq!(m.current, "0.52");
}

#[test]
fn backspace_and_clear() {
    let mut m = Model::default();
    press(&mut m, &["4", "2", "@<-"]);
    assert_eq!(m.current, "4");
    m.click("@<-");
    assert_eq!(m.current, "0");
    press(&mut m, &["7", "C"]);
    assert_eq!(m.current, "0");
}

#[test]
fn operators_hand_over_the_arithmetic() {
    let mut m = Model::default();
    m.click("1");
    assert_eq!(m.click("+"), Step::Load { operand: "1".to_string(), key: "+".to_string() });
    assert_eq!(m.operation, "+");
    assert_eq!(m.current, "0");
    m.click("2");
    assert_eq!(
        m.click("x"),
        Step::ApplyThenLog { operand: "2".to_string(), op: Op::Add, key: "x".to_string() }
    );
    m.click("3");
    assert_eq!(m.click("="), Step::Apply { operand: "3".to_string(), op: Op::Mul });
    assert_eq!(m.operation, "");
    assert_eq!(m.click("="), Step::Nothing);
}

#[test]
fn operator_on_zero_does_nothing() {
    let mut m = Model::default();
    assert_eq!(m.click("-"), Step::Nothing);
    assert_eq!(m.operation, "");
}

#[test]
fn clear_all() {
    let mut m = Model::default();
    press(&mut m, &["9", "%", "1"]);
    assert_eq!(m.click("CE"), Step::ClearAll);
    assert_eq!(m.operation, "");
    assert_eq!(m.current, "0");
}

#[test]
fn theme_toggles() {
    let mut m = Model::default();
    m.theme();
    assert!(m.theme);
    m.theme();
    assert!(!m.theme);
}

use fldemos::calculator::{Labels, Press};

#[test]
fn labels_first_operator_logs_the_operand() {
    let mut l = Labels::new();
    l.press("4", "");
    assert_eq!(l.press("+", ""), Press::Log("4 +".to_string()));
    assert_eq!(l.prev, "4");
    assert_eq!(l.current, "0");
    assert_eq!(l.operation, "+");
}

#[test]
fn labels_compute_then_continue() {
    let mut l = Labels::new();
    l.press("4", "");
    l.press("+", "");
    l.press("5", "");
    assert_eq!(
        l.press("x", ""),
        Press::Compute { left: "4".to_string(), right: "5".to_string(), op: Op::Add, then: Some("x".to_string()) }
    );
    assert_eq!(l.finish("9".to_string(), Some("x".to_string())), Some("9 x".to_string()));
    assert_eq!(l.operation, "x");
    assert_eq!(l.prev, "9");
}

#[test]
fn labels_equals_without_operation_copies() {
    let mut l = Labels::new();
    l.press("7", "");
    assert_eq!(l.press("=", ""), Press::Nothing);
    assert_eq!(l.prev, "7");
    assert_eq!(l.current, "0");
    assert_eq!(l.press("CE", ""), Press::ClearLog);
    assert_eq!(l.prev, "0");
}

#[test]
fn labels_point_uses_the_display_label() {
    let mut l = Labels::new();
    l.press(".", "");
    assert_eq!(l.current, ".");
    l.press(".", "x");
    assert_eq!(l.current, ".");
}
