use lion_calculator::calculator::{
    append_entry, backspace_entry, basic_key_of, factorial, financial_key_of, is_digit_btn,
    programmer_button, scientific_key_of, EntryState, FinMode, FinState, Key, Mode, Op, OpStep, UnaryKey,
};
use lion_calculator::programmer::{Base, ProgrammerState};

#[test]
fn mode_from_int() {
    assert_eq!(Mode::from_int(0), Mode::Basic);
    assert_eq!(Mode::from_int(1), Mode::Scientific);
    assert_eq!(Mode::from_int(2), Mode::Financial);
    assert_eq!(Mode::from_int(3), Mode::Programmer);
    assert_eq!(Mode::from_int(4), Mode::Basic);
    assert_eq!(Mode::from_int(-1), Mode::Basic);
}

#[test]
fn op_labels() {
    assert_eq!(Op::from_str("+"), Some(Op::Add));
    assert_eq!(Op::from_str("\u{2212}"), Some(Op::Sub));
    assert_eq!(Op::from_str("-"), Some(Op::Sub));
    assert_eq!(Op::from_str("×"), Some(Op::Mul));
    assert_eq!(Op::from_str("*"), Some(Op::Mul));
    assert_eq!(Op::from_str("÷"), Some(Op::Div));
    assert_eq!(Op::from_str("/"), Some(Op::Div));
    assert_eq!(Op::from_str("%"), Some(Op::Mod));
    assert_eq!(Op::from_str("xʸ"), Some(Op::Pow));
    assert_eq!(Op::from_str("^"), Some(Op::Pow));
    assert_eq!(Op::from_str("="), None);
}

#[test]
fn op_symbols_read_back() {
    for op in [Op::Add, Op::Sub, Op::Mul, Op::Div, Op::Mod, Op::Pow] {
        assert_eq!(Op::from_str(op.symbol()), Some(op));
    }
    assert_eq!(Op::Sub.symbol(), "−");
}

#[test]
fn digit_buttons() {
    for b in ["0", "5", "9", "."] {
        assert!(is_digit_btn(b), "{b}");
    }
    // hexadecimal letters are digits of the programmer mode only
    for b in ["a", "F", "g", "10", "", "+", "π"] {
        assert!(!is_digit_btn(b), "{b}");
    }
}

#[test]
fn entry_editing() {
    assert_eq!(append_entry("0", "5"), "5");
    assert_eq!(append_entry("5", "0"), "50");
    assert_eq!(append_entry("", "."), "0.");
    assert_eq!(append_entry("3", "."), "3.");
    assert_eq!(append_entry("3.1", "."), "3.1");
    assert_eq!(append_entry("1234567890123456", "7"), "1234567890123456");
    assert_eq!(append_entry("123456789012345", "7"), "1234567890123457");
    assert_eq!(backspace_entry("123"), "12");
    assert_eq!(backspace_entry("7"), "0");
    assert_eq!(backspace_entry("∞"), "");
}

#[test]
fn factorial_values() {
    assert_eq!(factorial(0), 1);
    assert_eq!(factorial(1), 1);
    assert_eq!(factorial(5), 120);
    assert_eq!(factorial(20), 2432902008176640000);
    assert_eq!(factorial(21), u64::MAX);
    assert_eq!(factorial(170), u64::MAX);
}

#[test]
fn programmer_buttons() {
    let mut p = ProgrammerState::new();
    for b in ["1", "2", "AND", "1", "0", "="] {
        programmer_button(&mut p, b);
    }
    assert_eq!(p.current_display(), "8");
    programmer_button(&mut p, "BASE:BIN");
    assert_eq!(p.base(), Base::Bin);
    assert_eq!(p.current_display(), "1000");
    programmer_button(&mut p, "BASE:XYZ");
    assert_eq!(p.base(), Base::Bin);
    programmer_button(&mut p, "⌫");
    assert_eq!(p.current_display(), "100");
    programmer_button(&mut p, "NOT");
    assert_eq!(p.current_display(), format!("{:b}", -5i64 as u64));
    assert_eq!(p.value(), -5);
    programmer_button(&mut p, "AC");
    assert_eq!(p.current_display(), "0");
    programmer_button(&mut p, "OR");
    programmer_button(&mut p, "CPT");
    assert_eq!(p.current_display(), "0");
    programmer_button(&mut p, "BASE:HEX");
    programmer_button(&mut p, "c");
    assert_eq!(p.current_display(), "C");
    programmer_button(&mut p, "<<");
    programmer_button(&mut p, "1");
    programmer_button(&mut p, "=");
    assert_eq!(p.current_display(), "18");
    programmer_button(&mut p, ">>");
    programmer_button(&mut p, "3");
    programmer_button(&mut p, "=");
    assert_eq!(p.current_display(), "3");
    programmer_button(&mut p, "XOR");
    programmer_button(&mut p, "1");
    programmer_button(&mut p, "=");
    assert_eq!(p.current_display(), "2");
}

#[test]
fn basic_keys() {
    assert!(matches!(basic_key_of("AC"), Key::ClearAll));
    assert!(matches!(basic_key_of("⌫"), Key::Backspace));
    assert!(matches!(basic_key_of("="), Key::Equals));
    assert!(matches!(basic_key_of("%"), Key::Percent));
    assert!(matches!(basic_key_of("MC"), Key::MemoryClear));
    assert!(matches!(basic_key_of("MR"), Key::MemoryRecall));
    assert!(matches!(basic_key_of("M+"), Key::MemoryAdd));
    assert!(matches!(basic_key_of("M-"), Key::MemorySub));
    assert!(matches!(basic_key_of("MS"), Key::MemoryStore));
    assert!(matches!(basic_key_of("7"), Key::Digit));
    assert!(matches!(basic_key_of("."), Key::Digit));
    assert!(matches!(basic_key_of("A"), Key::Ignored));
    assert!(matches!(basic_key_of("×"), Key::Operator(Op::Mul)));
    assert!(matches!(basic_key_of("xʸ"), Key::Operator(Op::Pow)));
    assert!(matches!(basic_key_of("sin"), Key::Ignored));
    assert!(matches!(basic_key_of("DEG/RAD"), Key::Ignored));
}

#[test]
fn scientific_keys() {
    assert!(matches!(scientific_key_of("AC"), Key::ClearAll));
    assert!(matches!(scientific_key_of("DEG/RAD"), Key::AngleUnit));
    assert!(matches!(scientific_key_of("sin"), Key::Unary(UnaryKey::Sin)));
    assert!(matches!(scientific_key_of("√x"), Key::Unary(UnaryKey::Sqrt)));
    assert!(matches!(scientific_key_of("x!"), Key::Unary(UnaryKey::Fact)));
    assert!(matches!(scientific_key_of("π"), Key::Unary(UnaryKey::Pi)));
    // `e` is the constant, though it is also a hexadecimal digit
    assert!(matches!(scientific_key_of("e"), Key::Unary(UnaryKey::E)));
    assert!(matches!(scientific_key_of("a"), Key::Ignored));
    assert!(matches!(scientific_key_of("7"), Key::Digit));
    assert!(matches!(scientific_key_of("xʸ"), Key::Operator(Op::Pow)));
    assert!(matches!(scientific_key_of("MR"), Key::Ignored));
}

#[test]
fn financial_keys() {
    assert!(matches!(financial_key_of("AC"), Key::ClearAll));
    assert!(matches!(financial_key_of("CLR TVM"), Key::ClearTvm));
    assert!(matches!(financial_key_of("CPT"), Key::Compute));
    match financial_key_of("TVM:I/Y") {
        Key::TvmSlot(s) => assert_eq!(s, "I/Y"),
        _ => panic!("TVM:I/Y is a TVM button"),
    }
    match financial_key_of("TVM:") {
        Key::TvmSlot(s) => assert_eq!(s, ""),
        _ => panic!("TVM: is a TVM button"),
    }
    assert!(matches!(financial_key_of("Tax+"), Key::TaxAdd));
    assert!(matches!(financial_key_of("Tax−"), Key::TaxRemove));
    assert!(matches!(financial_key_of("Tax-"), Key::Ignored));
    assert!(matches!(financial_key_of("Mar"), Key::Margin));
    assert!(matches!(financial_key_of("="), Key::Equals));
    assert!(matches!(financial_key_of("3"), Key::Digit));
    assert!(matches!(financial_key_of("÷"), Key::Operator(Op::Div)));
    assert!(matches!(financial_key_of("MR"), Key::Ignored));
}

#[test]
fn entry_state_typing_and_backspace() {
    let mut e = EntryState::new(0i64);
    assert_eq!(e.input, "0");
    assert_eq!(e.display, "0");
    e.append_digit("4");
    e.append_digit("2");
    e.append_digit(".");
    e.append_digit("5");
    assert_eq!(e.input, "42.5");
    e.sync_display();
    assert_eq!(e.display, "42.5");
    e.backspace();
    assert_eq!(e.input, "42.");
    e.backspace();
    e.backspace();
    assert_eq!(e.input, "4");
    e.backspace();
    assert_eq!(e.input, "0");
}

#[test]
fn entry_state_new_entry_after_result() {
    let mut e = EntryState::new(0i64);
    e.append_digit("9");
    e.set_num("12".to_string());
    assert_eq!(e.input, "12");
    assert_eq!(e.display, "12");
    assert!(e.should_reset);
    // a backspace does nothing to a shown result
    e.backspace();
    assert_eq!(e.input, "12");
    // the next digit starts a new entry
    e.append_digit("3");
    assert_eq!(e.input, "3");
    assert!(!e.should_reset);
    e.set_num("1".to_string());
    e.append_digit(".");
    assert_eq!(e.input, "0.");
}

#[test]
fn entry_state_error_and_clear() {
    let mut e = EntryState::new(0i64);
    e.pending_op = Some(Op::Add);
    e.pending_val = 7;
    e.append_digit("5");
    e.set_error("÷0");
    assert_eq!(e.display, "Error");
    assert_eq!(e.expression, "÷0");
    assert!(e.error);
    assert_eq!(e.input, "0");
    // the display keeps the error until it is cleared
    e.sync_display();
    assert_eq!(e.display, "Error");
    // a digit after an error clears everything first
    e.append_digit("8");
    assert_eq!(e.input, "8");
    assert!(!e.error);
    assert_eq!(e.pending_op, None);
    assert_eq!(e.pending_val, 0);
    assert_eq!(e.display, "0");
    assert_eq!(e.expression, "");
    // a backspace after an error clears everything too
    e.set_error("Domain");
    e.backspace();
    assert!(!e.error);
    assert_eq!(e.input, "0");
    assert_eq!(e.display, "0");
    e.pending_op = Some(Op::Mul);
    e.pending_val = 3;
    e.append_digit("6");
    e.expression = "3 ×".to_string();
    e.clear_all();
    assert_eq!(e.input, "0");
    assert_eq!(e.pending_op, None);
    assert_eq!(e.pending_val, 0);
    assert_eq!(e.expression, "");
    e.append_digit("2");
    e.reset_arith();
    assert_eq!(e.input, "0");
}

#[test]
fn entry_state_finish_evaluation() {
    let mut e = EntryState::new(0i64);
    e.pending_op = Some(Op::Sub);
    e.pending_val = 10;
    e.append_digit("4");
    e.finish_evaluation("10 − 4 =".to_string(), "6".to_string());
    assert_eq!(e.expression, "10 − 4 =");
    assert_eq!(e.input, "6");
    assert_eq!(e.display, "6");
    assert_eq!(e.pending_op, None);
    assert_eq!(e.pending_val, 0);
    assert!(e.should_reset);
}

#[test]
fn backspace_undoes_append_example() {
    for s in ["0", "12", "3.5"] {
        for d in ["0", "7", "9"] {
            assert_eq!(backspace_entry(&append_entry(s, d)), s, "{s} {d}");
        }
    }
}

#[test]
fn cpt_arms_one_solve() {
    let mut f = FinState::new();
    assert_eq!(f.mode, FinMode::Normal);
    // without CPT a TVM button stores and selects its register
    assert!(!f.tvm_button("PV"));
    assert_eq!(f.tvm_sel, "PV");
    f.arm();
    assert_eq!(f.mode, FinMode::Cpt);
    assert_eq!(f.tvm_sel, "PV");
    // the first TVM button after CPT solves, the next one stores again
    assert!(f.tvm_button("FV"));
    assert_eq!(f.tvm_sel, "");
    assert_eq!(f.mode, FinMode::Normal);
    assert!(!f.tvm_button("N"));
    assert_eq!(f.tvm_sel, "N");
    f.arm();
    f.reset();
    assert_eq!(f.mode, FinMode::Normal);
    assert_eq!(f.tvm_sel, "");
    assert!(!f.tvm_button("PMT"));
}

#[test]
fn operator_steps() {
    let mut e = EntryState::new(0i64);
    assert_eq!(e.operator_step(), OpStep::Start);
    e.append_digit("6");
    e.start_op("×", 6, "6 ×".to_string());
    assert_eq!(e.pending_op, Some(Op::Mul));
    assert_eq!(e.pending_val, 6);
    assert_eq!(e.expression, "6 ×");
    assert!(e.should_reset);
    assert_eq!(e.input, "6");
    // right after an operator, another operator replaces it
    assert_eq!(e.operator_step(), OpStep::Start);
    e.append_digit("7");
    assert_eq!(e.operator_step(), OpStep::Chain);
    e.chain_result(42, "42".to_string());
    assert_eq!(e.pending_val, 42);
    assert_eq!(e.input, "42");
    e.start_op("+", 42, "42 +".to_string());
    assert_eq!(e.pending_op, Some(Op::Add));
    e.set_error("÷0");
    assert_eq!(e.operator_step(), OpStep::Ignore);
    e.start_op("=", 0, "0 =".to_string());
    assert_eq!(e.pending_op, None);
}

#[test]
fn percent_steps() {
    let mut e = EntryState::new(0i64);
    assert!(!e.percent_of_pending());
    e.start_op("−", 50, "50 −".to_string());
    assert!(e.percent_of_pending());
    e.start_op("÷", 50, "50 ÷".to_string());
    assert!(!e.percent_of_pending());
    e.set_percent("0.1".to_string());
    assert_eq!(e.input, "0.1");
    assert!(!e.should_reset);
    e.append_digit("5");
    assert_eq!(e.input, "0.15");
}
