//! Programmer mode: integer entry in one of four bases, base conversion,
//! bitwise operations and shifts, all on 64-bit signed integers that may be
//! narrowed to a smaller bit width.

use vstd::prelude::*;
use vstd::arithmetic::div_mod::{lemma_div_decreases, lemma_fundamental_div_mod, lemma_small_mod};
use crate::text::{chars_of, pop_char, push_char, str_eq};
use vstd::utf8::is_ascii_chars;

verus! {

// ── Digits ────────────────────────────────────────────────────────────────

/// The value of a character read as a digit: `0`–`9`, then the letters
/// `a`–`z` (either case) for 10–35; any other character gets 36, which is a
/// digit of no base.
pub open spec fn digit_of(c: char) -> int {
    if '0' <= c <= '9' {
        c as int - '0' as int
    } else if 'a' <= c <= 'z' {
        c as int - 'a' as int + 10
    } else if 'A' <= c <= 'Z' {
        c as int - 'A' as int + 10
    } else {
        36
    }
}

/// The character that writes digit `d` (0–15): `0`–`9`, then upper-case
/// `A`–`F`.
pub open spec fn digit_char(d: int) -> char {
    if d < 10 {
        (d + 48) as char
    } else {
        (d + 55) as char
    }
}

/// Every character of `s` is a digit of base `radix`.
pub open spec fn all_digits(s: Seq<char>, radix: nat) -> bool {
    forall|i: int| 0 <= i < s.len() ==> digit_of(#[trigger] s[i]) < radix
}

/// The number that the digit string `s` denotes in base `radix`
/// (most significant digit first; the empty string denotes 0).
pub open spec fn digits_value(s: Seq<char>, radix: nat) -> int
    decreases s.len(),
{
    if s.len() == 0 {
        0
    } else {
        digits_value(s.drop_last(), radix) * radix + digit_of(s.last())
    }
}

/// What reading `s` as a signed 64-bit integer in base `radix` gives:
/// an optional sign (`+` or `-`) and at least one digit of the base, and
/// the value must fit in an `i64`; `None` otherwise.
pub open spec fn parse_radix(s: Seq<char>, radix: nat) -> Option<i64> {
    if s.len() == 0 || ((s[0] == '+' || s[0] == '-') && s.len() == 1) {
        None
    } else {
        let neg = s[0] == '-';
        let digits = if s[0] == '+' || s[0] == '-' { s.drop_first() } else { s };
        let v = if neg { -digits_value(digits, radix) } else { digits_value(digits, radix) };
        if all_digits(digits, radix) && i64::MIN <= v <= i64::MAX {
            Some(v as i64)
        } else {
            None
        }
    }
}

/// What reading `s` as an unsigned 64-bit integer in base `radix` gives:
/// an optional `+` and at least one digit of the base, and the value must
/// be below 2^64; `None` otherwise.
pub open spec fn parse_radix_unsigned(s: Seq<char>, radix: nat) -> Option<u64> {
    if s.len() == 0 || (s[0] == '+' && s.len() == 1) {
        None
    } else {
        let digits = if s[0] == '+' { s.drop_first() } else { s };
        let v = digits_value(digits, radix);
        if all_digits(digits, radix) && v <= u64::MAX {
            Some(v as u64)
        } else {
            None
        }
    }
}

/// The signed 64-bit number whose two's-complement pattern is `u`.
pub open spec fn signed_of(u: u64) -> i64 {
    if u >= 0x8000_0000_0000_0000u64 {
        (u - 0x1_0000_0000_0000_0000) as i64
    } else {
        u as i64
    }
}

/// The digits of `n` in base `radix`, most significant first, without
/// leading zeros (0 is written `0`).
pub open spec fn radix_digits(n: nat, radix: nat) -> Seq<char>
    decreases n,
{
    if n < radix || radix < 2 {
        seq![digit_char(n as int)]
    } else {
        proof {
            lemma_div_decreases(n as int, radix as int);
        }
        radix_digits(n / radix, radix).push(digit_char((n % radix) as int))
    }
}

/// The two's-complement reading of `v` as an unsigned 64-bit number.
pub open spec fn unsigned_of(v: i64) -> int {
    if v < 0 {
        v + 0x1_0000_0000_0000_0000
    } else {
        v as int
    }
}

// ── Bases ─────────────────────────────────────────────────────────────────

/// The number bases of the programmer mode.
#[derive(Debug, Clone, Copy, PartialEq, Eq, Structural)]
pub enum Base {
    Hex,
    Dec,
    Oct,
    Bin,
}

/// The radix of a base.
pub open spec fn radix_of(b: Base) -> nat {
    match b {
        Base::Hex => 16,
        Base::Dec => 10,
        Base::Oct => 8,
        Base::Bin => 2,
    }
}

/// The label of a base.
pub open spec fn base_name(b: Base) -> Seq<char> {
    match b {
        Base::Hex => seq!['H', 'E', 'X'],
        Base::Dec => seq!['D', 'E', 'C'],
        Base::Oct => seq!['O', 'C', 'T'],
        Base::Bin => seq!['B', 'I', 'N'],
    }
}

/// The base that a label names, if any.
pub open spec fn base_from_name(s: Seq<char>) -> Option<Base> {
    if s == base_name(Base::Hex) {
        Some(Base::Hex)
    } else if s == base_name(Base::Dec) {
        Some(Base::Dec)
    } else if s == base_name(Base::Oct) {
        Some(Base::Oct)
    } else if s == base_name(Base::Bin) {
        Some(Base::Bin)
    } else {
        None
    }
}

/// How a value is written in a base: in decimal with a leading `-` when
/// negative; in the other bases as the digits of its 64-bit two's-complement
/// pattern, with upper-case hex letters.
pub open spec fn display_text(v: i64, b: Base) -> Seq<char> {
    match b {
        Base::Dec => if v < 0 {
            seq!['-'] + radix_digits((-v) as nat, 10)
        } else {
            radix_digits(v as nat, 10)
        },
        _ => radix_digits(unsigned_of(v) as nat, radix_of(b)),
    }
}

impl Base {
    /// The label shown for this base.
    pub fn name(self) -> (r: &'static str)
        ensures
            r@ == base_name(self),
    {
        proof {
            reveal_strlit("HEX");
            reveal_strlit("DEC");
            reveal_strlit("OCT");
            reveal_strlit("BIN");
        }
        match self {
            Base::Hex => "HEX",
            Base::Dec => "DEC",
            Base::Oct => "OCT",
            Base::Bin => "BIN",
        }
    }

    /// The base with the given label, if any.
    pub fn from_name(s: &str) -> (r: Option<Base>)
        ensures
            r == base_from_name(s@),
    {
        proof {
            reveal_strlit("HEX");
            reveal_strlit("DEC");
            reveal_strlit("OCT");
            reveal_strlit("BIN");
            assert("HEX"@ =~= base_name(Base::Hex));
            assert("DEC"@ =~= base_name(Base::Dec));
            assert("OCT"@ =~= base_name(Base::Oct));
            assert("BIN"@ =~= base_name(Base::Bin));
        }
        if str_eq(s, "HEX") {
            Some(Base::Hex)
        } else if str_eq(s, "DEC") {
            Some(Base::Dec)
        } else if str_eq(s, "OCT") {
            Some(Base::Oct)
        } else if str_eq(s, "BIN") {
            Some(Base::Bin)
        } else {
            None
        }
    }

    /// The radix of this base.
    pub fn radix(self) -> (r: u32)
        ensures
            r == radix_of(self),
    {
        match self {
            Base::Hex => 16,
            Base::Dec => 10,
            Base::Oct => 8,
            Base::Bin => 2,
        }
    }

    /// Whether `c` is a digit of this base (letters in either case).
    pub fn digit_ok(self, c: char) -> (r: bool)
        ensures
            r == (digit_of(c) < radix_of(self)),
    {
        match self {
            Base::Bin => c == '0' || c == '1',
            Base::Oct => '0' <= c && c <= '7',
            Base::Dec => '0' <= c && c <= '9',
            Base::Hex => ('0' <= c && c <= '9') || ('a' <= c && c <= 'f') || ('A' <= c && c <= 'F'),
        }
    }
}


/// `v` reduced modulo `m` into the signed range `[-m/2, m/2)`.
pub open spec fn wrap_to(v: int, m: int) -> int {
    let r = v % m;
    if r >= m / 2 {
        r - m
    } else {
        r
    }
}

/// `v` narrowed to a bit width: its low 8, 16 or 32 bits read as a signed
/// number of that width; any other width leaves it as it is.
pub open spec fn mask_spec(v: i64, width: u8) -> i64 {
    if width == 8 {
        wrap_to(v as int, 0x100) as i64
    } else if width == 16 {
        wrap_to(v as int, 0x1_0000) as i64
    } else if width == 32 {
        wrap_to(v as int, 0x1_0000_0000) as i64
    } else {
        v
    }
}

/// The value that the text `s` holds in base `b`: in decimal the signed
/// number it reads as; in hexadecimal, octal and binary the signed number
/// whose 64-bit two's-complement pattern it reads as (the way `display_text`
/// writes such a value); 0 when it does not read as a 64-bit number.
pub open spec fn raw_value_of(s: Seq<char>, b: Base) -> i64 {
    if b == Base::Dec {
        match parse_radix(s, 10) {
            Some(v) => v,
            None => 0,
        }
    } else {
        match parse_radix_unsigned(s, radix_of(b)) {
            Some(u) => signed_of(u),
            None => 0,
        }
    }
}

/// The value that an entry text `s` stands for in base `b` at bit width `w`:
/// the text read in the base (0 when it does not read as an `i64`), narrowed
/// to the width.
pub open spec fn value_of(s: Seq<char>, b: Base, w: u8) -> i64 {
    mask_spec(raw_value_of(s, b), w)
}

/// ASCII upper-casing of one character.
pub open spec fn upper_ascii(c: char) -> char {
    if 'a' <= c <= 'z' {
        ((c as int) - 32) as char
    } else {
        c
    }
}

/// The entry text after typing `c` in base `b`: characters that are no digit
/// of the base are ignored; a lone `0` is replaced; otherwise the digit (in
/// upper case) is appended while the text is shorter than 20 characters.
pub open spec fn digit_text(s: Seq<char>, b: Base, c: char) -> Seq<char> {
    if digit_of(c) >= radix_of(b) {
        s
    } else if s == seq!['0'] {
        seq![upper_ascii(c)]
    } else if s.len() < 20 {
        s.push(upper_ascii(c))
    } else {
        s
    }
}

/// The entry text after a backspace: the last character goes, and a text of
/// one character (or none) becomes `0`.
pub open spec fn backspace_text(s: Seq<char>) -> Seq<char> {
    if s.len() > 1 {
        s.drop_last()
    } else {
        seq!['0']
    }
}

/// The shift distance of a shift by `rhs`: the magnitude of `rhs`, cut to 32 bits.
pub open spec fn shift_of(rhs: i64) -> u32 {
    (if rhs < 0 { -rhs } else { rhs as int }) as u32
}

/// The bitwise operations of the programmer mode.
#[derive(Debug, Clone, Copy, PartialEq, Eq, Structural)]
pub enum BitOp {
    And,
    Or,
    Xor,
    Shl,
    Shr,
}

/// The result of `lhs op rhs`; shifts wrap their distance modulo 64 and a
/// right shift keeps the sign.
pub open spec fn apply_bitop(lhs: i64, op: BitOp, rhs: i64) -> i64 {
    match op {
        BitOp::And => lhs & rhs,
        BitOp::Or => lhs | rhs,
        BitOp::Xor => lhs ^ rhs,
        BitOp::Shl => vstd::wrapping::i64_specs::wrapping_shl(lhs, shift_of(rhs)),
        BitOp::Shr => vstd::wrapping::i64_specs::wrapping_shr(lhs, shift_of(rhs)),
    }
}

// ── Executable digit helpers ─────────────────────────────────────────────

fn digit_char_exec(d: u64) -> (c: char)
    requires
        d < 16,
    ensures
        c == digit_char(d as int),
{
    match d {
        0 => '0',
        1 => '1',
        2 => '2',
        3 => '3',
        4 => '4',
        5 => '5',
        6 => '6',
        7 => '7',
        8 => '8',
        9 => '9',
        10 => 'A',
        11 => 'B',
        12 => 'C',
        13 => 'D',
        14 => 'E',
        _ => 'F',
    }
}

fn digit_of_exec(c: char) -> (d: u32)
    ensures
        d == digit_of(c),
{
    if '0' <= c && c <= '9' {
        (c as u32) - ('0' as u32)
    } else if 'a' <= c && c <= 'z' {
        (c as u32) - ('a' as u32) + 10
    } else if 'A' <= c && c <= 'Z' {
        (c as u32) - ('A' as u32) + 10
    } else {
        36
    }
}

fn upper_digit(c: char) -> (u: char)
    requires
        digit_of(c) < 16,
    ensures
        u == upper_ascii(c),
{
    match c {
        'a' => 'A',
        'b' => 'B',
        'c' => 'C',
        'd' => 'D',
        'e' => 'E',
        'f' => 'F',
        _ => c,
    }
}

/// Appends the digits of `n` in base `radix`.
pub(crate) fn push_radix_digits(out: &mut String, n: u64, radix: u64)
    requires
        2 <= radix <= 16,
    ensures
        final(out)@ == old(out)@ + radix_digits(n as nat, radix as nat),
    decreases n,
{
    if n >= radix {
        proof {
            lemma_div_decreases(n as int, radix as int);
        }
        push_radix_digits(out, n / radix, radix);
    }
    push_char(out, digit_char_exec(n % radix));
    assert(out@ =~= old(out)@ + radix_digits(n as nat, radix as nat)) by {
        if n >= radix {
            assert(radix_digits(n as nat, radix as nat) == radix_digits(
                (n / radix) as nat,
                radix as nat,
            ).push(digit_char((n % radix) as int)));
        } else {
            lemma_small_mod(n as nat, radix as nat);
            assert(radix_digits(n as nat, radix as nat) == seq![digit_char(n as int)]);
        }
    }
}

/// The text of `v` in base `b` (see `display_text`).
pub fn value_text(v: i64, b: Base) -> (s: String)
    ensures
        s@ == display_text(v, b),
{
    let mut s = String::new();
    match b {
        Base::Dec => {
            if v < 0 {
                push_char(&mut s, '-');
                let m: u64 = ((-(v + 1)) as u64) + 1;
                push_radix_digits(&mut s, m, 10);
            } else {
                push_radix_digits(&mut s, v as u64, 10);
            }
        },
        _ => {
            let u: u64 = v as u64;
            assert((v as u64) as int == unsigned_of(v)) by (bit_vector);
            let r: u64 = b.radix() as u64;
            push_radix_digits(&mut s, u, r);
        },
    }
    assert(s@ =~= display_text(v, b));
    s
}

/// `x`, but no more than `cap`.
spec fn capped(x: int, cap: int) -> int {
    if x < cap {
        x
    } else {
        cap
    }
}

proof fn lemma_digits_value_nonneg(s: Seq<char>, radix: nat)
    ensures
        digits_value(s, radix) >= 0,
    decreases s.len(),
{
    if s.len() > 0 {
        lemma_digits_value_nonneg(s.drop_last(), radix);
        let a = digits_value(s.drop_last(), radix);
        assert(a * radix >= 0) by (nonlinear_arith)
            requires
                a >= 0,
        ;
    }
}

proof fn lemma_capped_step(x: int, r: int, d: int, cap: int)
    requires
        x >= 0,
        r >= 2,
        0 <= d,
        cap >= 0,
    ensures
        capped(capped(x, cap) * r + d, cap) == capped(x * r + d, cap),
{
    if x >= cap {
        assert(x * r >= cap * r) by (nonlinear_arith)
            requires
                x >= cap,
                r >= 2,
                cap >= 0,
        ;
        assert(cap * r >= cap) by (nonlinear_arith)
            requires
                r >= 2,
                cap >= 0,
        ;
    }
}

/// Reads the digits `cs[start..]` in base `radix`: `None` when one of them
/// is no digit of the base, else their value, but no more than `cap`.
fn read_digits(cs: &Vec<char>, start: usize, radix: u32, cap: u128) -> (r: Option<u128>)
    requires
        start <= cs.len(),
        2 <= radix <= 36,
        cap <= 0x1_0000_0000_0000_0000,
    ensures
        r is None <==> !all_digits(cs@.subrange(start as int, cs.len() as int), radix as nat),
        r matches Some(a) ==> a == capped(
            digits_value(cs@.subrange(start as int, cs.len() as int), radix as nat),
            cap as int,
        ),
{
    let n = cs.len();
    let ghost digits = cs@.subrange(start as int, n as int);
    let mut acc: u128 = 0;
    let mut i: usize = start;
    assert(digits.take(0) =~= Seq::<char>::empty());
    while i < n
        invariant
            n == cs.len(),
            start <= i <= n,
            digits == cs@.subrange(start as int, n as int),
            2 <= radix <= 36,
            cap <= 0x1_0000_0000_0000_0000,
            acc == capped(digits_value(digits.take(i - start), radix as nat), cap as int),
            all_digits(digits.take(i - start), radix as nat),
        decreases n - i,
    {
        let d = digit_of_exec(cs[i]);
        let ghost k: int = i - start;
        assert(digits[k] == cs@[i as int]);
        if d >= radix {
            assert(!all_digits(digits, radix as nat));
            return None;
        }
        let ghost prev = digits_value(digits.take(k), radix as nat);
        assert(digits.take(k + 1).drop_last() =~= digits.take(k));
        assert(digits_value(digits.take(k + 1), radix as nat) == prev * radix + d);
        proof {
            lemma_digits_value_nonneg(digits.take(k), radix as nat);
            lemma_capped_step(prev, radix as int, d as int, cap as int);
        }
        assert(acc * (radix as u128) + (d as u128) <= cap * 36 + 36) by (nonlinear_arith)
            requires
                acc <= cap,
                radix <= 36,
                d < 36,
        ;
        let next: u128 = acc * (radix as u128) + (d as u128);
        acc = if next > cap {
            cap
        } else {
            next
        };
        i = i + 1;
        assert(all_digits(digits.take(i - start), radix as nat)) by {
            assert forall|j: int| 0 <= j < digits.take(i - start).len() implies digit_of(
                #[trigger] digits.take(i - start)[j],
            ) < radix as nat by {
                if j < k {
                    assert(digits.take(i - start)[j] == digits.take(k)[j]);
                }
            }
        }
    }
    assert(digits.take(n - start) =~= digits);
    Some(acc)
}

/// Reads `s` as a signed 64-bit integer in base `radix` (see `parse_radix`).
pub fn parse_radix_exec(s: &str, radix: u32) -> (r: Option<i64>)
    requires
        2 <= radix <= 36,
    ensures
        r == parse_radix(s@, radix as nat),
{
    let cs = chars_of(s);
    let n = cs.len();
    if n == 0 {
        return None;
    }
    let first = cs[0];
    let signed = first == '+' || first == '-';
    if signed && n == 1 {
        return None;
    }
    let neg = first == '-';
    let start: usize = if signed {
        1
    } else {
        0
    };
    let ghost digits = if signed {
        s@.drop_first()
    } else {
        s@
    };
    assert(digits =~= cs@.subrange(start as int, n as int));
    proof {
        lemma_digits_value_nonneg(digits, radix as nat);
    }
    match read_digits(&cs, start, radix, 0x8000_0000_0000_0001) {
        None => None,
        Some(acc) => {
            if neg {
                if acc > 0x8000_0000_0000_0000 {
                    None
                } else {
                    Some((0i128 - (acc as i128)) as i64)
                }
            } else {
                if acc > 0x7fff_ffff_ffff_ffff {
                    None
                } else {
                    Some(acc as i64)
                }
            }
        },
    }
}

/// Reads `s` as an unsigned 64-bit integer in base `radix` (see
/// `parse_radix_unsigned`).
pub fn parse_radix_unsigned_exec(s: &str, radix: u32) -> (r: Option<u64>)
    requires
        2 <= radix <= 36,
    ensures
        r == parse_radix_unsigned(s@, radix as nat),
{
    let cs = chars_of(s);
    let n = cs.len();
    if n == 0 {
        return None;
    }
    let plus = cs[0] == '+';
    if plus && n == 1 {
        return None;
    }
    let start: usize = if plus {
        1
    } else {
        0
    };
    let ghost digits = if plus {
        s@.drop_first()
    } else {
        s@
    };
    assert(digits =~= cs@.subrange(start as int, n as int));
    proof {
        lemma_digits_value_nonneg(digits, radix as nat);
    }
    match read_digits(&cs, start, radix, 0x1_0000_0000_0000_0000) {
        None => None,
        Some(acc) => {
            if acc > 0xffff_ffff_ffff_ffff {
                None
            } else {
                Some(acc as u64)
            }
        },
    }
}

/// The signed 64-bit number whose two's-complement pattern is `u`.
pub fn signed_from_pattern(u: u64) -> (v: i64)
    ensures
        v == signed_of(u),
{
    assert((u as i64) as int == (if u >= 0x8000_0000_0000_0000u64 {
        u - 0x1_0000_0000_0000_0000
    } else {
        u as int
    })) by (bit_vector);
    u as i64
}

/// Narrows `v` to a bit width (see `mask_spec`).
pub fn mask_value(v: i64, width: u8) -> (r: i64)
    ensures
        r == mask_spec(v, width),
{
    match width {
        8 => {
            assert(((v as i8) as i64) as int == wrap_to(v as int, 0x100)) by (bit_vector);
            v as i8 as i64
        },
        16 => {
            assert(((v as i16) as i64) as int == wrap_to(v as int, 0x1_0000)) by (bit_vector);
            v as i16 as i64
        },
        32 => {
            assert(((v as i32) as i64) as int == wrap_to(v as int, 0x1_0000_0000)) by (bit_vector);
            v as i32 as i64
        },
        _ => v,
    }
}


// ── Laws on the digit texts ──────────────────────────────────────────────

/// The digits that `radix_digits` writes are digits of the base and read
/// back as the number written.
pub proof fn lemma_radix_digits_read_back(n: nat, radix: nat)
    requires
        2 <= radix <= 16,
    ensures
        radix_digits(n, radix).len() >= 1,
        all_digits(radix_digits(n, radix), radix),
        digits_value(radix_digits(n, radix), radix) == n,
    decreases n,
{
    let s = radix_digits(n, radix);
    if n < radix {
        assert(s.drop_last() =~= Seq::<char>::empty());
        assert(digits_value(s.drop_last(), radix) == 0);
        assert(digit_of(s.last()) == n);
    } else {
        lemma_div_decreases(n as int, radix as int);
        let q = n / radix;
        let t = radix_digits(q, radix);
        lemma_radix_digits_read_back(q, radix);
        assert(s.drop_last() =~= t);
        lemma_fundamental_div_mod(n as int, radix as int);
        let m = n % radix;
        assert(digit_of(s.last()) == m);
        assert(q * radix == radix * q) by (nonlinear_arith);
        assert(digits_value(s, radix) == q * radix + m);
        assert forall|i: int| 0 <= i < s.len() implies digit_of(#[trigger] s[i]) < radix by {
            if i < t.len() {
                assert(s[i] == t[i]);
            }
        }
    }
}

/// Law: a value written in a base reads back as itself, in every base.
pub proof fn lemma_display_read_back(v: i64, b: Base)
    ensures
        raw_value_of(display_text(v, b), b) == v,
{
    let s = display_text(v, b);
    let r = radix_of(b);
    match b {
        Base::Dec => {
            if v < 0 {
                let d = radix_digits((-v) as nat, 10);
                lemma_radix_digits_read_back((-v) as nat, 10);
                assert(s.drop_first() =~= d);
                assert(s[0] == '-');
            } else {
                lemma_radix_digits_read_back(v as nat, 10);
                assert(digit_of(s[0]) < 10);
            }
        },
        _ => {
            let u = unsigned_of(v);
            lemma_radix_digits_read_back(u as nat, r);
            assert(digit_of(s[0]) < r);
            assert(s[0] != '+');
            assert(0 <= u <= u64::MAX);
            assert(signed_of(u as u64) == v);
        },
    }
}

/// Law: narrowing to a bit width twice is narrowing once.
pub proof fn lemma_mask_idempotent(v: i64, width: u8)
    ensures
        mask_spec(mask_spec(v, width), width) == mask_spec(v, width),
        mask_spec(0, width) == 0,
{
}


// ── The programmer-mode state ────────────────────────────────────────────

/// A pending binary operation: its left operand and the operation.
#[derive(Debug, Clone, Copy)]
struct Pending {
    lhs: i64,
    op: BitOp,
}

/// The state of the programmer mode: the active base, the bit width that
/// values are narrowed to, the text being entered (in the active base) and
/// the pending operation, if any.
#[derive(Debug)]
pub struct ProgrammerState {
    base: Base,
    bit_width: u8,
    input: String,
    pending: Option<Pending>,
}

/// A text of one `0`.
fn zero_text() -> (s: String)
    ensures
        s@ == seq!['0'],
{
    let mut s = String::new();
    push_char(&mut s, '0');
    assert(s@ =~= seq!['0']);
    s
}

impl ProgrammerState {
    /// The entry text holds ASCII characters only.
    #[verifier::type_invariant]
    spec fn wf(&self) -> bool {
        is_ascii_chars(self.input@)
    }

    /// The text being entered.
    pub closed spec fn text(&self) -> Seq<char> {
        self.input@
    }

    /// The active base.
    pub closed spec fn base_spec(&self) -> Base {
        self.base
    }

    /// The bit width that values are narrowed to.
    pub closed spec fn width(&self) -> u8 {
        self.bit_width
    }

    /// The pending operation as (left operand, operation).
    pub closed spec fn pending_op(&self) -> Option<(i64, BitOp)> {
        match self.pending {
            Some(p) => Some((p.lhs, p.op)),
            None => None,
        }
    }

    /// The current value (see `value_of`).
    pub open spec fn value_spec(&self) -> i64 {
        value_of(self.text(), self.base_spec(), self.width())
    }

    /// A fresh state: decimal, 64 bits, entry `0`, nothing pending.
    pub fn new() -> (s: Self)
        ensures
            s.base_spec() == Base::Dec,
            s.width() == 64,
            s.text() == seq!['0'],
            s.pending_op() is None,
    {
        ProgrammerState { base: Base::Dec, bit_width: 64, input: zero_text(), pending: None }
    }

    /// The active base.
    pub fn base(&self) -> (b: Base)
        ensures
            b == self.base_spec(),
    {
        self.base
    }

    /// The bit width that values are narrowed to.
    pub fn bit_width(&self) -> (w: u8)
        ensures
            w == self.width(),
    {
        self.bit_width
    }

    /// Sets the bit width (8, 16 and 32 narrow values; any other width keeps
    /// all 64 bits); the entry and the pending operation stay as they are.
    pub fn set_bit_width(&mut self, w: u8)
        ensures
            final(self).width() == w,
            final(self).base_spec() == old(self).base_spec(),
            final(self).text() == old(self).text(),
            final(self).pending_op() == old(self).pending_op(),
    {
        proof {
            use_type_invariant(&*self);
        }
        self.bit_width = w;
    }

    fn raw_value(&self) -> (r: i64)
        ensures
            r == raw_value_of(self.text(), self.base),
    {
        match self.base {
            Base::Dec => match parse_radix_exec(self.input.as_str(), 10) {
                Some(v) => v,
                None => 0,
            },
            _ => match parse_radix_unsigned_exec(self.input.as_str(), self.base.radix()) {
                Some(u) => signed_from_pattern(u),
                None => 0,
            },
        }
    }

    fn mask(&self, v: i64) -> (r: i64)
        ensures
            r == mask_spec(v, self.bit_width),
    {
        mask_value(v, self.bit_width)
    }

    /// The current value (see `value_of`).
    pub fn value(&self) -> (r: i64)
        ensures
            r == self.value_spec(),
    {
        self.mask(self.raw_value())
    }

    /// The current value written in base `b`.
    pub fn display_in(&self, b: Base) -> (s: String)
        ensures
            s@ == display_text(self.value_spec(), b),
    {
        let v = self.value();
        value_text(v, b)
    }

    /// The text being entered.
    pub fn current_display(&self) -> (s: String)
        ensures
            s@ == self.text(),
    {
        self.input.clone()
    }

    /// Resets the entry to `0` and drops the pending operation.
    pub fn clear(&mut self)
        ensures
            final(self).base_spec() == old(self).base_spec(),
            final(self).width() == old(self).width(),
            final(self).text() == seq!['0'],
            final(self).pending_op() is None,
    {
        self.input = zero_text();
        self.pending = None;
    }

    /// Deletes the last character of the entry (see `backspace_text`).
    pub fn backspace(&mut self)
        ensures
            final(self).base_spec() == old(self).base_spec(),
            final(self).width() == old(self).width(),
            final(self).pending_op() == old(self).pending_op(),
            final(self).text() == backspace_text(old(self).text()),
    {
        proof {
            use_type_invariant(&*self);
        }
        let st = self.input.as_str();
        proof {
            vstd::string::is_ascii_spec_bytes(st);
        }
        let len = st.as_bytes().len();
        if len > 1 {
            let mut t = self.input.clone();
            pop_char(&mut t);
            assert(is_ascii_chars(t@)) by {
                assert forall|i: int| 0 <= i < t@.len() implies '\0' <= #[trigger] t@[i] <= '\u{7f}' by {
                    assert(t@[i] == self.input@[i]);
                }
            }
            self.input = t;
        } else {
            self.input = zero_text();
        }
    }

    /// Types one character (see `digit_text`).
    pub fn digit(&mut self, c: char)
        ensures
            final(self).base_spec() == old(self).base_spec(),
            final(self).width() == old(self).width(),
            final(self).pending_op() == old(self).pending_op(),
            final(self).text() == digit_text(old(self).text(), old(self).base_spec(), c),
    {
        proof {
            use_type_invariant(&*self);
        }
        if !self.base.digit_ok(c) {
            return;
        }
        let ch = upper_digit(c);
        let st = self.input.as_str();
        proof {
            reveal_strlit("0");
            assert("0"@ =~= seq!['0']);
            vstd::string::is_ascii_spec_bytes(st);
        }
        let is_zero = str_eq(st, "0");
        let len = st.as_bytes().len();
        if is_zero {
            let mut t = String::new();
            push_char(&mut t, ch);
            assert(t@ =~= seq![ch]);
            self.input = t;
        } else if len < 20 {
            let mut t = self.input.clone();
            push_char(&mut t, ch);
            assert(is_ascii_chars(t@)) by {
                assert forall|i: int| 0 <= i < t@.len() implies '\0' <= #[trigger] t@[i] <= '\u{7f}' by {
                    if i < self.input@.len() {
                        assert(t@[i] == self.input@[i]);
                    }
                }
            }
            self.input = t;
        }
    }

    /// Starts a binary operation on the current value; the entry restarts
    /// at `0`.
    pub fn set_op(&mut self, op: BitOp)
        ensures
            final(self).base_spec() == old(self).base_spec(),
            final(self).width() == old(self).width(),
            final(self).pending_op() == Some((old(self).value_spec(), op)),
            final(self).text() == seq!['0'],
    {
        proof {
            use_type_invariant(&*self);
        }
        let lhs = self.value();
        self.pending = Some(Pending { lhs, op });
        self.input = zero_text();
    }

    /// Applies the pending operation, if any, to its left operand and the
    /// current value, narrows the result and makes it the entry; returns the
    /// resulting current value.
    pub fn compute(&mut self) -> (r: i64)
        ensures
            final(self).base_spec() == old(self).base_spec(),
            final(self).width() == old(self).width(),
            final(self).pending_op() is None,
            r == final(self).value_spec(),
            old(self).pending_op() is None ==> final(self).text() == old(self).text(),
            old(self).pending_op() matches Some((lhs, op)) ==> {
                let res = mask_spec(apply_bitop(lhs, op, old(self).value_spec()), old(self).width());
                &&& final(self).text() == display_text(res, old(self).base_spec())
                &&& r == res
            },
    {
        proof {
            use_type_invariant(&*self);
        }
        match self.pending {
            Some(p) => {
                self.pending = None;
                let rhs = self.value();
                let res = match p.op {
                    BitOp::And => p.lhs & rhs,
                    BitOp::Or => p.lhs | rhs,
                    BitOp::Xor => p.lhs ^ rhs,
                    BitOp::Shl => p.lhs.wrapping_shl(shift_amount(rhs)),
                    BitOp::Shr => p.lhs.wrapping_shr(shift_amount(rhs)),
                };
                let res = self.mask(res);
                self.set_value(res);
                proof {
                    lemma_display_read_back(res, self.base);
                    lemma_mask_idempotent(apply_bitop(p.lhs, p.op, rhs), self.bit_width);
                }
            },
            None => {},
        }
        self.value()
    }

    /// Replaces the current value by its bitwise complement (narrowed).
    pub fn not(&mut self)
        ensures
            final(self).base_spec() == old(self).base_spec(),
            final(self).width() == old(self).width(),
            final(self).pending_op() == old(self).pending_op(),
            final(self).text() == display_text(
                mask_spec(!old(self).value_spec(), old(self).width()),
                old(self).base_spec(),
            ),
    {
        let v = self.mask(!self.value());
        self.set_value(v);
    }

    /// Makes `v`, written in the active base, the entry.
    pub fn set_value(&mut self, v: i64)
        ensures
            final(self).base_spec() == old(self).base_spec(),
            final(self).width() == old(self).width(),
            final(self).pending_op() == old(self).pending_op(),
            final(self).text() == display_text(v, old(self).base_spec()),
    {
        let t = value_text(v, self.base);
        proof {
            lemma_display_text_ascii(v, self.base);
        }
        self.input = t;
    }

    /// Switches to base `b`, rewriting the current value in it.
    pub fn set_base(&mut self, b: Base)
        ensures
            final(self).base_spec() == b,
            final(self).width() == old(self).width(),
            final(self).pending_op() == old(self).pending_op(),
            final(self).text() == display_text(old(self).value_spec(), b),
            final(self).value_spec() == old(self).value_spec(),
    {
        proof {
            use_type_invariant(&*self);
        }
        let v = self.value();
        self.base = b;
        self.set_value(v);
        proof {
            lemma_display_read_back(v, b);
            lemma_mask_idempotent(raw_value_of(old(self).text(), old(self).base), self.bit_width);
        }
    }
}

impl Default for ProgrammerState {
    fn default() -> (s: Self)
        ensures
            s.base_spec() == Base::Dec,
            s.width() == 64,
            s.text() == seq!['0'],
            s.pending_op() is None,
    {
        Self::new()
    }
}

/// The shift distance for a shift by `rhs` (see `shift_of`).
fn shift_amount(rhs: i64) -> (s: u32)
    ensures
        s == shift_of(rhs),
{
    let a: u64 = if rhs >= 0 {
        rhs as u64
    } else {
        ((-(rhs + 1)) as u64) + 1
    };
    assert((a as u32) as int == a % 0x1_0000_0000) by (bit_vector);
    a as u32
}

/// A value written in any base is ASCII text of at least one character.
proof fn lemma_display_text_ascii(v: i64, b: Base)
    ensures
        is_ascii_chars(display_text(v, b)),
        display_text(v, b).len() >= 1,
{
    let s = display_text(v, b);
    let r = radix_of(b);
    let n: nat = match b {
        Base::Dec => (if v < 0 { -v } else { v as int }) as nat,
        _ => unsigned_of(v) as nat,
    };
    lemma_radix_digits_read_back(n, r);
    lemma_radix_digits_ascii(n, r);
}

proof fn lemma_radix_digits_ascii(n: nat, radix: nat)
    requires
        2 <= radix <= 16,
    ensures
        is_ascii_chars(radix_digits(n, radix)),
    decreases n,
{
    if n >= radix {
        lemma_div_decreases(n as int, radix as int);
        lemma_radix_digits_ascii(n / radix, radix);
        let t = radix_digits(n / radix, radix);
        let s = radix_digits(n, radix);
        assert forall|i: int| 0 <= i < s.len() implies '\0' <= #[trigger] s[i] <= '\u{7f}' by {
            if i < t.len() {
                assert(s[i] == t[i]);
            }
        }
    }
}


// ── Laws of the programmer mode ──────────────────────────────────────────

/// Law: switching base keeps the current value: the value written in the new
/// base reads back, at the same bit width, as the value it was.
pub proof fn lemma_set_base_keeps_value(s: Seq<char>, from: Base, to: Base, w: u8)
    ensures
        ({
            let v = value_of(s, from, w);
            value_of(display_text(v, to), to, w) == v
        }),
{
    let v = value_of(s, from, w);
    lemma_display_read_back(v, to);
    lemma_mask_idempotent(raw_value_of(s, from), w);
}

/// Law: a backspace right after typing a digit of the active base gives the
/// entry back, as long as the digit was taken (the entry was `0` or shorter
/// than 20 characters).
pub proof fn lemma_backspace_undoes_digit(s: Seq<char>, b: Base, c: char)
    requires
        s.len() >= 1,
        digit_of(c) < radix_of(b),
        s == seq!['0'] || s.len() < 20,
    ensures
        backspace_text(digit_text(s, b, c)) == s,
{
    if s != seq!['0'] {
        assert(s.push(upper_ascii(c)).drop_last() =~= s);
    }
}

/// Law: a value narrowed to 8, 16 or 32 bits lies in the signed range of that
/// width.
pub proof fn lemma_mask_range(v: i64, w: u8)
    ensures
        w == 8 ==> -0x80 <= mask_spec(v, w) < 0x80,
        w == 16 ==> -0x8000 <= mask_spec(v, w) < 0x8000,
        w == 32 ==> -0x8000_0000 <= mask_spec(v, w) < 0x8000_0000,
{
}

/// Law: the label of a base names that base.
pub proof fn lemma_base_name_round_trip(b: Base)
    ensures
        base_from_name(base_name(b)) == Some(b),
{
}

/// Law: complementing twice gives a narrowed value back.
pub proof fn lemma_not_not(v: i64, w: u8)
    requires
        mask_spec(v, w) == v,
    ensures
        mask_spec(!mask_spec(!v, w), w) == v,
{
    if w == 8 {
        assert(wrap_to(v as int, 0x100) == v ==> wrap_to(
            (!(wrap_to((!v) as int, 0x100) as i64)) as int,
            0x100,
        ) == v) by (bit_vector);
    } else if w == 16 {
        assert(wrap_to(v as int, 0x1_0000) == v ==> wrap_to(
            (!(wrap_to((!v) as int, 0x1_0000) as i64)) as int,
            0x1_0000,
        ) == v) by (bit_vector);
    } else if w == 32 {
        assert(wrap_to(v as int, 0x1_0000_0000) == v ==> wrap_to(
            (!(wrap_to((!v) as int, 0x1_0000_0000) as i64)) as int,
            0x1_0000_0000,
        ) == v) by (bit_vector);
    } else {
        assert(!(!v) == v) by (bit_vector);
    }
}

} // verus!
