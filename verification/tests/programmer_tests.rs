use lion_calculator::programmer::{
    parse_radix_exec, parse_radix_unsigned_exec, signed_from_pattern, value_text, Base, BitOp,
    ProgrammerState,
};

fn typed(p: &mut ProgrammerState, s: &str) {
    for c in s.chars() {
        p.digit(c);
    }
}

#[test]
fn new_state_is_decimal_zero() {
    let p = ProgrammerState::new();
    assert_eq!(p.base(), Base::Dec);
    assert_eq!(p.bit_width(), 64);
    assert_eq!(p.current_display(), "0");
    assert_eq!(p.value(), 0);
}

#[test]
fn digits_replace_zero_and_append() {
    let mut p = ProgrammerState::new();
    typed(&mut p, "0042");
    assert_eq!(p.current_display(), "42");
    assert_eq!(p.value(), 42);
}

#[test]
fn digits_outside_base_are_ignored() {
    let mut p = ProgrammerState::new();
    typed(&mut p, "1a9");
    assert_eq!(p.current_display(), "19");
    p.set_base(Base::Bin);
    assert_eq!(p.current_display(), "10011");
    typed(&mut p, "2");
    assert_eq!(p.current_display(), "10011");
}

#[test]
fn hex_digits_are_upper_cased() {
    let mut p = ProgrammerState::new();
    p.set_base(Base::Hex);
    typed(&mut p, "ff");
    assert_eq!(p.current_display(), "FF");
    assert_eq!(p.value(), 255);
}

#[test]
fn entry_stops_at_twenty_characters() {
    let mut p = ProgrammerState::new();
    p.set_base(Base::Bin);
    typed(&mut p, "1111111111111111111111111");
    assert_eq!(p.current_display().len(), 20);
}

#[test]
fn backspace_deletes_and_restores_zero() {
    let mut p = ProgrammerState::new();
    typed(&mut p, "12");
    p.backspace();
    assert_eq!(p.current_display(), "1");
    p.backspace();
    assert_eq!(p.current_display(), "0");
    p.backspace();
    assert_eq!(p.current_display(), "0");
}

#[test]
fn backspace_undoes_a_digit() {
    let mut p = ProgrammerState::new();
    typed(&mut p, "123");
    let before = p.current_display();
    p.digit('7');
    p.backspace();
    assert_eq!(p.current_display(), before);
}

#[test]
fn four_base_display() {
    let mut p = ProgrammerState::new();
    typed(&mut p, "255");
    assert_eq!(p.display_in(Base::Hex), "FF");
    assert_eq!(p.display_in(Base::Dec), "255");
    assert_eq!(p.display_in(Base::Oct), "377");
    assert_eq!(p.display_in(Base::Bin), "11111111");
}

#[test]
fn negative_value_shows_its_pattern() {
    let mut p = ProgrammerState::new();
    p.set_value(-1);
    assert_eq!(p.current_display(), "-1");
    assert_eq!(p.display_in(Base::Hex), "FFFFFFFFFFFFFFFF");
    assert_eq!(p.display_in(Base::Oct), "1777777777777777777777");
}

#[test]
fn set_base_keeps_value() {
    let mut p = ProgrammerState::new();
    typed(&mut p, "1000");
    p.set_base(Base::Hex);
    assert_eq!(p.current_display(), "3E8");
    assert_eq!(p.value(), 1000);
    p.set_base(Base::Oct);
    assert_eq!(p.value(), 1000);
    p.set_base(Base::Dec);
    assert_eq!(p.current_display(), "1000");
}

#[test]
fn negative_value_keeps_across_bases() {
    let mut p = ProgrammerState::new();
    p.set_value(-5);
    p.set_base(Base::Hex);
    assert_eq!(p.current_display(), "FFFFFFFFFFFFFFFB");
    assert_eq!(p.value(), -5);
    p.set_base(Base::Oct);
    assert_eq!(p.value(), -5);
    p.set_base(Base::Bin);
    assert_eq!(p.value(), -5);
    p.set_base(Base::Dec);
    assert_eq!(p.current_display(), "-5");
}

#[test]
fn not_of_zero_in_hex_is_minus_one() {
    let mut p = ProgrammerState::new();
    p.set_base(Base::Hex);
    p.not();
    assert_eq!(p.current_display(), "FFFFFFFFFFFFFFFF");
    assert_eq!(p.value(), -1);
    assert_eq!(p.display_in(Base::Dec), "-1");
}

#[test]
fn typed_hex_pattern_reads_as_signed() {
    let mut p = ProgrammerState::new();
    p.set_base(Base::Hex);
    typed(&mut p, "8000000000000000");
    assert_eq!(p.value(), i64::MIN);
    // more than 64 bits does not read as a number
    typed(&mut p, "0");
    assert_eq!(p.value(), 0);
}

#[test]
fn negative_result_in_hex() {
    let mut p = ProgrammerState::new();
    p.set_base(Base::Hex);
    typed(&mut p, "1");
    p.set_op(BitOp::Shl);
    typed(&mut p, "3F");
    assert_eq!(p.compute(), i64::MIN);
    assert_eq!(p.current_display(), "8000000000000000");
}

#[test]
fn bit_operations() {
    let cases: [(BitOp, &str, &str, i64); 5] = [
        (BitOp::And, "12", "10", 8),
        (BitOp::Or, "12", "10", 14),
        (BitOp::Xor, "12", "10", 6),
        (BitOp::Shl, "3", "4", 48),
        (BitOp::Shr, "48", "4", 3),
    ];
    for (op, a, b, want) in cases {
        let mut p = ProgrammerState::new();
        typed(&mut p, a);
        p.set_op(op);
        assert_eq!(p.current_display(), "0");
        typed(&mut p, b);
        assert_eq!(p.compute(), want);
        assert_eq!(p.current_display(), want.to_string());
    }
}

#[test]
fn shift_by_negative_uses_magnitude_mod_64() {
    let mut p = ProgrammerState::new();
    typed(&mut p, "1");
    p.set_op(BitOp::Shl);
    p.set_value(-66);
    assert_eq!(p.compute(), 4);
}

#[test]
fn right_shift_keeps_sign() {
    let mut p = ProgrammerState::new();
    p.set_value(-16);
    p.set_op(BitOp::Shr);
    typed(&mut p, "2");
    assert_eq!(p.compute(), -4);
}

#[test]
fn compute_without_pending_keeps_entry() {
    let mut p = ProgrammerState::new();
    typed(&mut p, "77");
    assert_eq!(p.compute(), 77);
    assert_eq!(p.current_display(), "77");
}

#[test]
fn not_complements() {
    let mut p = ProgrammerState::new();
    typed(&mut p, "5");
    p.not();
    assert_eq!(p.value(), -6);
    assert_eq!(p.current_display(), "-6");
}

#[test]
fn narrow_bit_widths() {
    let mut p = ProgrammerState::new();
    p.set_bit_width(8);
    typed(&mut p, "200");
    assert_eq!(p.value(), -56);
    p.set_bit_width(16);
    assert_eq!(p.value(), 200);
    p.set_value(70000);
    assert_eq!(p.value(), 4464);
    p.set_bit_width(32);
    p.set_value(4294967295);
    assert_eq!(p.value(), -1);
}

#[test]
fn clear_resets_entry_and_pending() {
    let mut p = ProgrammerState::new();
    typed(&mut p, "9");
    p.set_op(BitOp::And);
    typed(&mut p, "3");
    p.clear();
    assert_eq!(p.current_display(), "0");
    assert_eq!(p.compute(), 0);
}

#[test]
fn base_names() {
    for b in [Base::Hex, Base::Dec, Base::Oct, Base::Bin] {
        assert_eq!(Base::from_name(b.name()), Some(b));
    }
    assert_eq!(Base::Hex.name(), "HEX");
    assert_eq!(Base::from_name("hex"), None);
    assert_eq!(Base::Hex.radix(), 16);
    assert_eq!(Base::Bin.radix(), 2);
}

#[test]
fn digit_ok_per_base() {
    assert!(Base::Bin.digit_ok('1'));
    assert!(!Base::Bin.digit_ok('2'));
    assert!(Base::Oct.digit_ok('7'));
    assert!(!Base::Oct.digit_ok('8'));
    assert!(Base::Dec.digit_ok('9'));
    assert!(!Base::Dec.digit_ok('a'));
    assert!(Base::Hex.digit_ok('f'));
    assert!(Base::Hex.digit_ok('F'));
    assert!(!Base::Hex.digit_ok('g'));
}

#[test]
fn parse_radix_like_std() {
    let cases = ["0", "-0", "+7", "-", "+", "", "12a", "7fffffffffffffff", "8000000000000000",
        "-8000000000000000", "-8000000000000001", "ffffffffffffffff", "00000000000000000000001", "Zz"];
    for s in cases {
        for radix in [2u32, 8, 10, 16, 36] {
            assert_eq!(parse_radix_exec(s, radix), i64::from_str_radix(s, radix).ok(), "{s} in base {radix}");
        }
    }
}

#[test]
fn value_text_like_format() {
    for v in [0i64, 1, -1, 9, 10, 255, -255, i64::MAX, i64::MIN] {
        assert_eq!(value_text(v, Base::Dec), format!("{v}"));
        assert_eq!(value_text(v, Base::Hex), format!("{:X}", v as u64));
        assert_eq!(value_text(v, Base::Oct), format!("{:o}", v as u64));
        assert_eq!(value_text(v, Base::Bin), format!("{:b}", v as u64));
    }
}

#[test]
fn default_is_new() {
    let p = ProgrammerState::default();
    assert_eq!(p.current_display(), "0");
    assert_eq!(p.base(), Base::Dec);
}

#[test]
fn not_twice_restores_value() {
    for w in [8u8, 16, 32, 64] {
        for v in [0i64, 5, -6, 127, -128] {
            let mut p = ProgrammerState::new();
            p.set_bit_width(w);
            p.set_value(v);
            let before = p.value();
            p.not();
            p.not();
            assert_eq!(p.value(), before, "width {w}, value {v}");
        }
    }
}

#[test]
fn parse_radix_unsigned_like_std() {
    let cases = ["0", "+7", "-1", "+", "", "12a", "ffffffffffffffff", "10000000000000000",
        "00000000000000000000001", "Zz"];
    for s in cases {
        for radix in [2u32, 8, 10, 16, 36] {
            assert_eq!(parse_radix_unsigned_exec(s, radix), u64::from_str_radix(s, radix).ok(), "{s} in base {radix}");
        }
    }
}

#[test]
fn signed_from_pattern_reinterprets() {
    for u in [0u64, 1, 0x7fff_ffff_ffff_ffff, 0x8000_0000_0000_0000, u64::MAX] {
        assert_eq!(signed_from_pattern(u), u as i64);
    }
}

#[test]
fn bit_width_setting() {
    let mut p = ProgrammerState::new();
    typed(&mut p, "300");
    p.set_bit_width(8);
    assert_eq!(p.bit_width(), 8);
    assert_eq!(p.current_display(), "300");
    assert_eq!(p.value(), 44);
}
