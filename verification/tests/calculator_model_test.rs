use rustfw_apps::calc::model::{Action, CalculatorModel, Evaluation, Number, Operation};
use rustfw_apps::calc::widgets::{ButtonKind, ButtonVariant};

// Double-precision arithmetic of the calculator, as the application runs it.

fn format_number(value: f64) -> String {
    if value.is_nan() || value.is_infinite() {
        return String::from("Error");
    }
    if value.fract() == 0.0 && value.abs() <= i64::MAX as f64 {
        format!("{}", value as i64)
    } else {
        format!("{}", value)
    }
}

fn apply(op: Operation, a: f64, b: f64) -> Result<f64, &'static str> {
    match op {
        Operation::Add => Ok(a + b),
        Operation::Subtract => Ok(a - b),
        Operation::Multiply => Ok(a * b),
        Operation::Divide => {
            if b == 0.0 {
                Err("Error: Division by zero")
            } else {
                Ok(a / b)
            }
        }
    }
}

fn number(value: f64) -> Number {
    Number { bits: value.to_bits(), text: format_number(value) }
}

fn evaluate(model: &CalculatorModel) -> Evaluation {
    let parsed = model.current_input().parse::<f64>().ok();
    let stored = f64::from_bits(model.stored_bits());
    Evaluation {
        input: parsed.map(number),
        negated_input: parsed.filter(|v| *v != 0.0).map(|v| format_number(-v)),
        stored_text: format_number(stored),
        outcome: match (parsed, model.current_operator()) {
            (Some(value), Some(op)) => Some(apply(op, stored, value).map(number).map_err(String::from)),
            _ => None,
        },
    }
}

fn press(model: &mut CalculatorModel, action: Action) {
    let eval = evaluate(model);
    model.dispatch(action, &eval);
}

#[test]
fn model_test_initial_state() {
    let model = CalculatorModel::new();
    assert_eq!(model.current_input(), "0");
    assert_eq!(model.expression_text(), " ");
    assert!(!model.is_error());
}

#[test]
fn model_test_digit_input() {
    let mut model = CalculatorModel::new();
    press(&mut model, Action::Digit('1'));
    press(&mut model, Action::Digit('2'));
    press(&mut model, Action::Digit('3'));
    assert_eq!(model.current_input(), "123");
}

#[test]
fn model_test_decimal_input() {
    let mut model = CalculatorModel::new();
    press(&mut model, Action::Digit('5'));
    press(&mut model, Action::Decimal);
    press(&mut model, Action::Digit('2'));
    assert_eq!(model.current_input(), "5.2");

    // Repeated decimal points should be ignored
    press(&mut model, Action::Decimal);
    assert_eq!(model.current_input(), "5.2");
}

#[test]
fn model_test_addition() {
    let mut model = CalculatorModel::new();
    press(&mut model, Action::Digit('5'));
    press(&mut model, Action::SetOperator(Operation::Add));
    assert_eq!(model.expression_text(), "5 ＋");

    press(&mut model, Action::Digit('3'));
    press(&mut model, Action::Equals);

    assert_eq!(model.current_input(), "8");
    assert_eq!(model.expression_text(), "5 ＋ 3 =");
}

#[test]
fn model_test_division_by_zero() {
    let mut model = CalculatorModel::new();
    press(&mut model, Action::Digit('9'));
    press(&mut model, Action::SetOperator(Operation::Divide));
    press(&mut model, Action::Digit('0'));
    press(&mut model, Action::Equals);

    assert!(model.is_error());
    assert_eq!(model.current_input(), "Error: Division by zero");
}

#[test]
fn model_test_chained_operations() {
    let mut model = CalculatorModel::new();
    press(&mut model, Action::Digit('1'));
    press(&mut model, Action::Digit('0'));
    press(&mut model, Action::SetOperator(Operation::Subtract));
    press(&mut model, Action::Digit('4'));
    press(&mut model, Action::SetOperator(Operation::Multiply));
    assert_eq!(model.current_input(), "6");
    assert_eq!(model.expression_text(), "6 ×");

    press(&mut model, Action::Digit('5'));
    press(&mut model, Action::Equals);
    assert_eq!(model.current_input(), "30");
}

#[test]
fn model_test_backspace() {
    let mut model = CalculatorModel::new();
    press(&mut model, Action::Digit('1'));
    press(&mut model, Action::Digit('2'));
    press(&mut model, Action::Digit('3'));
    press(&mut model, Action::Backspace);
    assert_eq!(model.current_input(), "12");

    press(&mut model, Action::Backspace);
    press(&mut model, Action::Backspace);
    assert_eq!(model.current_input(), "0");
}

#[test]
fn model_test_toggle_sign() {
    let mut model = CalculatorModel::new();
    press(&mut model, Action::Digit('7'));
    press(&mut model, Action::ToggleSign);
    assert_eq!(model.current_input(), "-7");

    press(&mut model, Action::ToggleSign);
    assert_eq!(model.current_input(), "7");
}

#[test]
fn model_test_reset() {
    let mut model = CalculatorModel::new();
    press(&mut model, Action::Digit('8'));
    press(&mut model, Action::SetOperator(Operation::Add));
    press(&mut model, Action::Digit('4'));
    press(&mut model, Action::Clear);

    assert_eq!(model.current_input(), "0");
    assert_eq!(model.expression_text(), " ");
    assert_eq!(model.current_operator(), None);
}

#[test]
fn calculator_model_test_test_initial_state() {
    let model = CalculatorModel::new();
    assert_eq!(model.current_input(), "0");
    assert_eq!(model.expression_text(), " ");
    assert!(!model.is_error());
}

#[test]
fn calculator_model_test_test_digit_input() {
    let mut model = CalculatorModel::new();
    press(&mut model, Action::Digit('1'));
    press(&mut model, Action::Digit('2'));
    press(&mut model, Action::Digit('3'));
    assert_eq!(model.current_input(), "123");
}

#[test]
fn calculator_model_test_test_decimal_input() {
    let mut model = CalculatorModel::new();
    press(&mut model, Action::Digit('5'));
    press(&mut model, Action::Decimal);
    press(&mut model, Action::Digit('2'));
    assert_eq!(model.current_input(), "5.2");

    press(&mut model, Action::Decimal);
    assert_eq!(model.current_input(), "5.2");
}

#[test]
fn calculator_model_test_test_addition() {
    let mut model = CalculatorModel::new();
    press(&mut model, Action::Digit('5'));
    press(&mut model, Action::SetOperator(Operation::Add));
    assert_eq!(model.expression_text(), "5 ＋");

    press(&mut model, Action::Digit('3'));
    press(&mut model, Action::Equals);

    assert_eq!(model.current_input(), "8");
    assert_eq!(model.expression_text(), "5 ＋ 3 =");
}

#[test]
fn calculator_model_test_test_division_by_zero() {
    let mut model = CalculatorModel::new();
    press(&mut model, Action::Digit('9'));
    press(&mut model, Action::SetOperator(Operation::Divide));
    press(&mut model, Action::Digit('0'));
    press(&mut model, Action::Equals);

    assert!(model.is_error());
    assert_eq!(model.current_input(), "Error: Division by zero");
}

#[test]
fn calculator_model_test_test_chained_operations() {
    let mut model = CalculatorModel::new();
    press(&mut model, Action::Digit('1'));
    press(&mut model, Action::Digit('0'));
    press(&mut model, Action::SetOperator(Operation::Subtract));
    press(&mut model, Action::Digit('4'));
    press(&mut model, Action::SetOperator(Operation::Multiply));
    assert_eq!(model.current_input(), "6");
    assert_eq!(model.expression_text(), "6 ×");

    press(&mut model, Action::Digit('5'));
    press(&mut model, Action::Equals);
    assert_eq!(model.current_input(), "30");
}

#[test]
fn calculator_model_test_test_backspace() {
    let mut model = CalculatorModel::new();
    press(&mut model, Action::Digit('1'));
    press(&mut model, Action::Digit('2'));
    press(&mut model, Action::Digit('3'));
    press(&mut model, Action::Backspace);
    assert_eq!(model.current_input(), "12");

    press(&mut model, Action::Backspace);
    press(&mut model, Action::Backspace);
    assert_eq!(model.current_input(), "0");
}

#[test]
fn calculator_model_test_test_toggle_sign() {
    let mut model = CalculatorModel::new();
    press(&mut model, Action::Digit('7'));
    press(&mut model, Action::ToggleSign);
    assert_eq!(model.current_input(), "-7");

    press(&mut model, Action::ToggleSign);
    assert_eq!(model.current_input(), "7");
}

#[test]
fn calculator_model_test_test_reset() {
    let mut model = CalculatorModel::new();
    press(&mut model, Action::Digit('8'));
    press(&mut model, Action::SetOperator(Operation::Add));
    press(&mut model, Action::Digit('4'));
    press(&mut model, Action::Clear);

    assert_eq!(model.current_input(), "0");
    assert_eq!(model.expression_text(), " ");
    assert_eq!(model.current_operator(), None);
}

// ── Parsing of labels, keys and symbols ─────────────────────────────────────

#[test]
fn symbols_round_trip_through_from_symbol() {
    for op in [Operation::Add, Operation::Subtract, Operation::Multiply, Operation::Divide] {
        assert_eq!(Operation::from_symbol(op.symbol()), Some(op));
        assert_eq!(Operation::from_symbol(op.display_symbol()), Some(op));
    }
    assert_eq!(Operation::Add.symbol(), "+");
    assert_eq!(Operation::Divide.display_symbol(), "÷");
    assert_eq!(Operation::from_symbol("++"), None);
    assert_eq!(Operation::from_symbol(""), None);
    assert_eq!(Operation::from_symbol("x"), None);
}

#[test]
fn labels_map_to_actions() {
    assert_eq!(Action::from_label("C"), Some(Action::Clear));
    assert_eq!(Action::from_label("CE"), Some(Action::ClearEntry));
    assert_eq!(Action::from_label("⌫"), Some(Action::Backspace));
    assert_eq!(Action::from_label("±"), Some(Action::ToggleSign));
    assert_eq!(Action::from_label("="), Some(Action::Equals));
    assert_eq!(Action::from_label("."), Some(Action::Decimal));
    assert_eq!(Action::from_label("7"), Some(Action::Digit('7')));
    assert_eq!(Action::from_label("×"), Some(Action::SetOperator(Operation::Multiply)));
    assert_eq!(Action::from_label("/"), Some(Action::SetOperator(Operation::Divide)));
    assert_eq!(Action::from_label("77"), None);
    assert_eq!(Action::from_label("c"), None);
}

#[test]
fn keys_map_to_actions() {
    assert_eq!(Action::from_key("0"), Some(Action::Digit('0')));
    assert_eq!(Action::from_key("."), Some(Action::Decimal));
    assert_eq!(Action::from_key("backspace"), Some(Action::Backspace));
    assert_eq!(Action::from_key("escape"), Some(Action::Clear));
    assert_eq!(Action::from_key("c"), Some(Action::Clear));
    assert_eq!(Action::from_key("enter"), Some(Action::Equals));
    assert_eq!(Action::from_key("return"), Some(Action::Equals));
    assert_eq!(Action::from_key("="), Some(Action::Equals));
    assert_eq!(Action::from_key("-"), Some(Action::SetOperator(Operation::Subtract)));
    assert_eq!(Action::from_key("tab"), None);
    assert_eq!(Action::from_key("CE"), None);
}

#[test]
fn keypad_buttons_are_classified_by_label() {
    assert_eq!(ButtonKind::from_label("="), ButtonKind::Equals);
    assert_eq!(ButtonKind::from_label("*"), ButtonKind::Operator);
    assert_eq!(ButtonKind::from_label("CE"), ButtonKind::Clear);
    assert_eq!(ButtonKind::from_label("⌫"), ButtonKind::Clear);
    assert_eq!(ButtonKind::from_label("9"), ButtonKind::Digit);
    assert_eq!(ButtonKind::from_label("±"), ButtonKind::Digit);
    assert_eq!(ButtonKind::Equals.bg_color(), 0x2563eb);
    assert_eq!(ButtonKind::Clear.hover_color(), 0x991b1b);
    assert!(ButtonVariant::for_label("=") == ButtonVariant::Primary);
    assert!(ButtonVariant::for_label("C") == ButtonVariant::Danger);
    assert!(ButtonVariant::for_label("+") == ButtonVariant::Operator);
    assert!(ButtonVariant::for_label("3") == ButtonVariant::Plain);
}

// ── Entry editing ───────────────────────────────────────────────────────────

#[test]
fn decimal_starts_a_new_entry_with_zero() {
    let mut model = CalculatorModel::new();
    press(&mut model, Action::Decimal);
    assert_eq!(model.current_input(), "0.");
    press(&mut model, Action::Digit('5'));
    assert_eq!(model.current_input(), "0.5");
}

#[test]
fn backspace_undoes_a_digit_in_the_middle_of_an_entry() {
    let mut model = CalculatorModel::new();
    press(&mut model, Action::Digit('4'));
    press(&mut model, Action::Digit('2'));
    press(&mut model, Action::Digit('9'));
    press(&mut model, Action::Backspace);
    assert_eq!(model.current_input(), "42");
}

#[test]
fn backspace_of_a_lone_minus_sign_gives_zero() {
    let mut model = CalculatorModel::new();
    press(&mut model, Action::Digit('7'));
    press(&mut model, Action::ToggleSign);
    assert_eq!(model.current_input(), "-7");
    press(&mut model, Action::Backspace);
    assert_eq!(model.current_input(), "0");
    // the next digit starts a new entry
    press(&mut model, Action::Digit('3'));
    assert_eq!(model.current_input(), "3");
}

#[test]
fn a_zero_entry_is_replaced_by_the_next_digit() {
    let mut model = CalculatorModel::new();
    press(&mut model, Action::Digit('0'));
    press(&mut model, Action::Digit('0'));
    assert_eq!(model.current_input(), "0");
    press(&mut model, Action::Digit('6'));
    assert_eq!(model.current_input(), "6");
}

#[test]
fn toggle_sign_leaves_zero_alone() {
    let mut model = CalculatorModel::new();
    press(&mut model, Action::ToggleSign);
    assert_eq!(model.current_input(), "0");
}

#[test]
fn clear_entry_keeps_the_pending_operation() {
    let mut model = CalculatorModel::new();
    press(&mut model, Action::Digit('8'));
    press(&mut model, Action::SetOperator(Operation::Subtract));
    press(&mut model, Action::Digit('9'));
    press(&mut model, Action::ClearEntry);
    assert_eq!(model.current_input(), "0");
    assert_eq!(model.current_operator(), Some(Operation::Subtract));
    assert_eq!(model.expression_text(), "8 －");
    press(&mut model, Action::Digit('3'));
    press(&mut model, Action::Equals);
    assert_eq!(model.current_input(), "5");
    assert_eq!(model.expression_text(), "8 － 3 =");
}

#[test]
fn errors_ignore_arithmetic_until_a_new_entry() {
    let mut model = CalculatorModel::new();
    press(&mut model, Action::Digit('1'));
    press(&mut model, Action::SetOperator(Operation::Divide));
    press(&mut model, Action::Digit('0'));
    press(&mut model, Action::SetOperator(Operation::Add));
    assert!(model.is_error());
    assert_eq!(model.current_input(), "Error: Division by zero");
    assert_eq!(model.expression_text(), " ");
    press(&mut model, Action::Equals);
    press(&mut model, Action::ToggleSign);
    press(&mut model, Action::Backspace);
    assert_eq!(model.current_input(), "Error: Division by zero");
    press(&mut model, Action::Digit('2'));
    assert!(!model.is_error());
    assert_eq!(model.current_input(), "2");
}

#[test]
fn equals_without_an_operator_does_nothing() {
    let mut model = CalculatorModel::new();
    press(&mut model, Action::Digit('4'));
    press(&mut model, Action::Equals);
    assert_eq!(model.current_input(), "4");
    assert_eq!(model.expression_text(), " ");
}

#[test]
fn fractional_results_use_float_formatting() {
    let mut model = CalculatorModel::new();
    press(&mut model, Action::Digit('1'));
    press(&mut model, Action::SetOperator(Operation::Divide));
    press(&mut model, Action::Digit('4'));
    press(&mut model, Action::Equals);
    assert_eq!(model.current_input(), "0.25");
    assert_eq!(model.expression_text(), "1 ÷ 4 =");
}

#[test]
fn operator_after_equals_continues_from_the_result() {
    let mut model = CalculatorModel::new();
    press(&mut model, Action::Digit('2'));
    press(&mut model, Action::SetOperator(Operation::Multiply));
    press(&mut model, Action::Digit('3'));
    press(&mut model, Action::Equals);
    press(&mut model, Action::SetOperator(Operation::Add));
    assert_eq!(model.expression_text(), "6 ＋");
    press(&mut model, Action::Digit('1'));
    press(&mut model, Action::Equals);
    assert_eq!(model.current_input(), "7");
}

#[test]
fn set_operator_reformats_the_stored_value() {
    let mut model = CalculatorModel::new();
    press(&mut model, Action::Digit('5'));
    press(&mut model, Action::Decimal);
    press(&mut model, Action::SetOperator(Operation::Add));
    assert_eq!(model.current_input(), "5.");
    assert_eq!(model.expression_text(), "5 ＋");
}

#[test]
fn reset_method_restores_the_initial_state() {
    let mut model = CalculatorModel::new();
    model.enter_digit('9');
    model.enter_decimal();
    model.reset();
    assert_eq!(model.current_input(), "0");
    assert_eq!(model.expression_text(), " ");
    assert!(!model.is_error());
    assert_eq!(model.current_operator(), None);
    assert_eq!(model.stored_bits(), 0);
}

#[test]
fn keyboard_and_keypad_agree_on_shared_keys() {
    for key in ["0", "1", "5", "9", "+", "-", "*", "/", "=", "."] {
        assert_eq!(Action::from_key(key), Action::from_label(key));
        assert!(Action::from_key(key).is_some());
    }
    assert_eq!(Action::from_key("enter"), Some(Action::Equals));
    assert_eq!(Action::from_label("enter"), None);
}

#[test]
fn sign_flips_and_results_keep_one_decimal_point() {
    let mut model = CalculatorModel::new();
    for action in [Action::Digit('1'), Action::Decimal, Action::Digit('5'), Action::ToggleSign, Action::Decimal] {
        press(&mut model, action);
    }
    assert_eq!(model.current_input(), "-1.5");
    press(&mut model, Action::SetOperator(Operation::Divide));
    press(&mut model, Action::Digit('4'));
    press(&mut model, Action::Equals);
    assert_eq!(model.current_input(), "-0.375");
    press(&mut model, Action::Decimal);
    assert_eq!(model.current_input(), "0.");
}

#[test]
fn error_state_shows_only_the_division_message() {
    let mut model = CalculatorModel::new();
    for action in [Action::Digit('9'), Action::SetOperator(Operation::Divide), Action::Digit('0'), Action::Equals] {
        press(&mut model, action);
    }
    assert!(model.is_error());
    assert_eq!(model.current_input(), "Error: Division by zero");
    assert_eq!(model.expression_text(), " ");
    press(&mut model, Action::Backspace);
    assert_eq!(model.current_input(), "Error: Division by zero");
    press(&mut model, Action::Digit('4'));
    assert!(!model.is_error());
    assert_eq!(model.current_input(), "4");
}

#[test]
fn decimal_point_twice_is_the_same_as_once() {
    let mut model = CalculatorModel::new();
    press(&mut model, Action::Decimal);
    assert_eq!(model.current_input(), "0.");
    press(&mut model, Action::Decimal);
    assert_eq!(model.current_input(), "0.");
    press(&mut model, Action::Digit('2'));
    press(&mut model, Action::Backspace);
    press(&mut model, Action::Backspace);
    assert_eq!(model.current_input(), "0");
}
