//! Integer and text rules of the calculator front end: the modes, the
//! arithmetic operator buttons, digit buttons, the number-entry text and the
//! factorial.

use vstd::prelude::*;
use vstd::utf8::encode_utf8;
use crate::programmer::{
    backspace_text, base_from_name, digit_text, display_text, mask_spec, value_of, apply_bitop,
    Base, BitOp, ProgrammerState,
};
use crate::text::{chars_of, pop_char, push_char, str_eq, string_of_range};

verus! {

// ── Mode ──────────────────────────────────────────────────────────────────

/// The four calculator modes.
#[derive(Debug, Clone, Copy, PartialEq, Eq, Structural)]
pub enum Mode {
    Basic,
    Scientific,
    Financial,
    Programmer,
}

/// The mode with the given number: 1, 2 and 3 are Scientific, Financial and
/// Programmer; every other number is Basic.
pub open spec fn mode_of(i: i32) -> Mode {
    if i == 1 {
        Mode::Scientific
    } else if i == 2 {
        Mode::Financial
    } else if i == 3 {
        Mode::Programmer
    } else {
        Mode::Basic
    }
}

impl Mode {
    /// The mode with the given number (see `mode_of`).
    pub fn from_int(i: i32) -> (m: Self)
        ensures
            m == mode_of(i),
    {
        match i {
            1 => Mode::Scientific,
            2 => Mode::Financial,
            3 => Mode::Programmer,
            _ => Mode::Basic,
        }
    }
}

// ── Arithmetic operators ─────────────────────────────────────────────────

/// The binary arithmetic operators of the basic and scientific modes.
#[derive(Debug, Clone, Copy, PartialEq, Eq, Structural)]
pub enum Op {
    Add,
    Sub,
    Mul,
    Div,
    Mod,
    Pow,
}

/// The operator that a button label stands for: `+`; `−` or `-`; `×` or `*`;
/// `÷` or `/`; `%`; `xʸ` or `^`.
pub open spec fn op_of_label(s: Seq<char>) -> Option<Op> {
    if s == seq!['+'] {
        Some(Op::Add)
    } else if s == seq!['\u{2212}'] || s == seq!['-'] {
        Some(Op::Sub)
    } else if s == seq!['\u{d7}'] || s == seq!['*'] {
        Some(Op::Mul)
    } else if s == seq!['\u{f7}'] || s == seq!['/'] {
        Some(Op::Div)
    } else if s == seq!['%'] {
        Some(Op::Mod)
    } else if s == seq!['x', '\u{2b8}'] || s == seq!['^'] {
        Some(Op::Pow)
    } else {
        None
    }
}

/// The symbol shown for an operator.
pub open spec fn op_symbol(op: Op) -> Seq<char> {
    match op {
        Op::Add => seq!['+'],
        Op::Sub => seq!['\u{2212}'],
        Op::Mul => seq!['\u{d7}'],
        Op::Div => seq!['\u{f7}'],
        Op::Mod => seq!['%'],
        Op::Pow => seq!['^'],
    }
}

impl Op {
    /// The operator that a button label stands for (see `op_of_label`).
    pub fn from_str(s: &str) -> (r: Option<Op>)
        ensures
            r == op_of_label(s@),
    {
        proof {
            reveal_strlit("+");
            reveal_strlit("\u{2212}");
            reveal_strlit("-");
            reveal_strlit("\u{d7}");
            reveal_strlit("*");
            reveal_strlit("\u{f7}");
            reveal_strlit("/");
            reveal_strlit("%");
            reveal_strlit("x\u{2b8}");
            reveal_strlit("^");
            assert("+"@ =~= seq!['+']);
            assert("\u{2212}"@ =~= seq!['\u{2212}']);
            assert("-"@ =~= seq!['-']);
            assert("\u{d7}"@ =~= seq!['\u{d7}']);
            assert("*"@ =~= seq!['*']);
            assert("\u{f7}"@ =~= seq!['\u{f7}']);
            assert("/"@ =~= seq!['/']);
            assert("%"@ =~= seq!['%']);
            assert("x\u{2b8}"@ =~= seq!['x', '\u{2b8}']);
            assert("^"@ =~= seq!['^']);
        }
        if str_eq(s, "+") {
            Some(Op::Add)
        } else if str_eq(s, "\u{2212}") || str_eq(s, "-") {
            Some(Op::Sub)
        } else if str_eq(s, "\u{d7}") || str_eq(s, "*") {
            Some(Op::Mul)
        } else if str_eq(s, "\u{f7}") || str_eq(s, "/") {
            Some(Op::Div)
        } else if str_eq(s, "%") {
            Some(Op::Mod)
        } else if str_eq(s, "x\u{2b8}") || str_eq(s, "^") {
            Some(Op::Pow)
        } else {
            None
        }
    }

    /// The symbol shown for this operator.
    pub fn symbol(self) -> (r: &'static str)
        ensures
            r@ == op_symbol(self),
    {
        proof {
            reveal_strlit("+");
            reveal_strlit("\u{2212}");
            reveal_strlit("\u{d7}");
            reveal_strlit("\u{f7}");
            reveal_strlit("%");
            reveal_strlit("^");
        }
        match self {
            Op::Add => "+",
            Op::Sub => "\u{2212}",
            Op::Mul => "\u{d7}",
            Op::Div => "\u{f7}",
            Op::Mod => "%",
            Op::Pow => "^",
        }
    }
}

/// Law: the symbol shown for an operator is a label of that operator.
pub proof fn lemma_symbol_names_op(op: Op)
    ensures
        op_of_label(op_symbol(op)) == Some(op),
{
    let s = op_symbol(op);
    assert(seq!['+'][0] == '+');
    assert(seq!['\u{2212}'][0] == '\u{2212}');
    assert(seq!['-'][0] == '-');
    assert(seq!['\u{d7}'][0] == '\u{d7}');
    assert(seq!['*'][0] == '*');
    assert(seq!['\u{f7}'][0] == '\u{f7}');
    assert(seq!['/'][0] == '/');
    assert(seq!['%'][0] == '%');
    assert(seq!['x', '\u{2b8}'].len() == 2);
    assert(seq!['^'][0] == '^');
    assert(s.len() == 1);
}

// ── Digit buttons and the entry text ─────────────────────────────────────

/// A digit button of the basic, scientific and financial modes: `0`–`9` or
/// `.` (the letters `A`–`F` are digits of the programmer mode only).
pub open spec fn is_digit_label(s: Seq<char>) -> bool {
    s == seq!['.'] || (s.len() == 1 && '0' <= s[0] <= '9')
}

/// Whether a button label is a digit button (see `is_digit_label`).
pub fn is_digit_btn(s: &str) -> (b: bool)
    ensures
        b == is_digit_label(s@),
{
    let cs = chars_of(s);
    if cs.len() != 1 {
        return false;
    }
    let c = cs[0];
    assert(s@ == seq![c]);
    c == '.' || ('0' <= c && c <= '9')
}

/// The number of UTF-8 bytes of a text.
pub open spec fn byte_len(s: Seq<char>) -> nat {
    encode_utf8(s).len()
}

/// The number entry after pressing a digit button `d`: `.` is added once
/// (after a `0` when the entry is empty); another digit replaces an entry
/// of `0` and is otherwise appended while the entry is shorter than 16 bytes.
pub open spec fn appended_entry(input: Seq<char>, d: Seq<char>) -> Seq<char> {
    if d == seq!['.'] {
        if input.contains('.') {
            input
        } else if input.len() == 0 {
            seq!['0', '.']
        } else {
            input.push('.')
        }
    } else if input == seq!['0'] {
        d
    } else if byte_len(input) < 16 {
        input + d
    } else {
        input
    }
}

/// The number entry after a backspace: the last character goes when the
/// entry is longer than one byte; otherwise it becomes `0`.
pub open spec fn backspaced_entry(input: Seq<char>) -> Seq<char> {
    if byte_len(input) > 1 {
        input.drop_last()
    } else {
        seq!['0']
    }
}

/// Whether `c` occurs in `v`.
fn contains_char(v: &Vec<char>, c: char) -> (b: bool)
    ensures
        b == v@.contains(c),
{
    let mut i: usize = 0;
    while i < v.len()
        invariant
            i <= v.len(),
            forall|j: int| 0 <= j < i ==> v@[j] != c,
        decreases v.len() - i,
    {
        if v[i] == c {
            assert(v@[i as int] == c);
            return true;
        }
        i = i + 1;
    }
    false
}

/// The entry after pressing digit button `d` (see `appended_entry`).
pub fn append_entry(input: &str, d: &str) -> (r: String)
    ensures
        r@ == appended_entry(input@, d@),
{
    proof {
        reveal_strlit(".");
        reveal_strlit("0");
        assert("."@ =~= seq!['.']);
        assert("0"@ =~= seq!['0']);
    }
    let cs = chars_of(input);
    let mut out = String::new();
    out.append(input);
    if str_eq(d, ".") {
        if !contains_char(&cs, '.') {
            if cs.len() == 0 {
                push_char(&mut out, '0');
            }
            push_char(&mut out, '.');
            assert(cs.len() == 0 ==> out@ =~= seq!['0', '.']);
        }
    } else if str_eq(input, "0") {
        let mut t = String::new();
        t.append(d);
        out = t;
    } else if input.as_bytes().len() < 16 {
        out.append(d);
    }
    out
}

/// The entry after a backspace (see `backspaced_entry`).
pub fn backspace_entry(input: &str) -> (r: String)
    ensures
        r@ == backspaced_entry(input@),
{
    let mut out = String::new();
    out.append(input);
    if input.as_bytes().len() > 1 {
        pop_char(&mut out);
    } else {
        out = String::new();
        push_char(&mut out, '0');
        assert(out@ =~= seq!['0']);
    }
    out
}

/// Law: a backspace right after a digit button (other than `.`) gives the
/// entry back, as long as the digit was taken: the entry was `0`, or it was
/// not empty and shorter than 16 bytes.
pub proof fn lemma_backspace_undoes_append(s: Seq<char>, d: Seq<char>)
    requires
        is_digit_label(d),
        d != seq!['.'],
        s.len() > 0,
        s == seq!['0'] || byte_len(s) < 16,
    ensures
        backspaced_entry(appended_entry(s, d)) == s,
{
    lemma_byte_len_one_char(d[0]);
    assert(d =~= seq![d[0]]);
    if s != seq!['0'] {
        lemma_byte_len_concat(s, d);
        lemma_byte_len_at_least_len(s);
        assert((s + d).drop_last() =~= s);
    }
}

/// The UTF-8 length of a text followed by another is the sum of their lengths.
proof fn lemma_byte_len_concat(a: Seq<char>, b: Seq<char>)
    ensures
        byte_len(a + b) == byte_len(a) + byte_len(b),
    decreases a.len(),
{
    if a.len() > 0 {
        assert((a + b).drop_first() =~= a.drop_first() + b);
        lemma_byte_len_concat(a.drop_first(), b);
        assert((a + b)[0] == a[0]);
    } else {
        assert(a + b =~= b);
    }
}

/// An ASCII digit or point takes one UTF-8 byte.
proof fn lemma_byte_len_one_char(c: char)
    requires
        c <= '\u{7f}',
    ensures
        byte_len(seq![c]) == 1,
{
    let u = c as u32;
    assert(u <= 0x7f);
    assert(vstd::utf8::has_width_1_encoding(u));
    assert(vstd::utf8::encode_scalar(u).len() == 1);
    assert(seq![c].drop_first() =~= Seq::<char>::empty());
    assert(seq![c][0] == c);
    assert(encode_utf8(seq![c].drop_first()) =~= Seq::<u8>::empty());
    assert(encode_utf8(seq![c]) == vstd::utf8::encode_scalar(u) + encode_utf8(seq![c].drop_first()));
}

// ── Arming a TVM solve ───────────────────────────────────────────────────

/// Whether `CPT` has armed the next TVM button to solve for its variable.
#[derive(Debug, Clone, Copy, PartialEq, Eq, Structural)]
pub enum FinMode {
    Normal,
    Cpt,
}

/// What a TVM button does in mode `m`: whether it solves for its variable
/// (it does exactly when `CPT` armed it), and the mode after it (a TVM
/// button always uses the arming up).
pub open spec fn tvm_step(m: FinMode) -> (bool, FinMode) {
    (m == FinMode::Cpt, FinMode::Normal)
}

/// Law: `CPT` arms exactly one computation: the first TVM button after it
/// solves, and the next one stores again.
pub proof fn lemma_cpt_arms_once(m: FinMode)
    ensures
        tvm_step(FinMode::Cpt).0,
        !tvm_step(tvm_step(m).1).0,
{
}

/// The financial mode's own state: whether a solve is armed, and the label
/// of the TVM register that the display was last stored into (empty when
/// none is selected).
pub struct FinState {
    pub mode: FinMode,
    pub tvm_sel: String,
}

impl FinState {
    /// Nothing armed, nothing selected.
    pub fn new() -> (f: Self)
        ensures
            f.mode == FinMode::Normal,
            f.tvm_sel@ == Seq::<char>::empty(),
    {
        FinState { mode: FinMode::Normal, tvm_sel: String::new() }
    }

    /// `AC` and `CLR TVM`: disarm and forget the selected register.
    pub fn reset(&mut self)
        ensures
            final(self).mode == FinMode::Normal,
            final(self).tvm_sel@ == Seq::<char>::empty(),
    {
        self.mode = FinMode::Normal;
        self.tvm_sel = String::new();
    }

    /// `CPT`: arms the next TVM button to solve for its variable.
    pub fn arm(&mut self)
        ensures
            final(self).mode == FinMode::Cpt,
            final(self).tvm_sel@ == old(self).tvm_sel@,
    {
        self.mode = FinMode::Cpt;
    }

    /// A TVM button with label `slot`: returns whether it solves for its
    /// variable (see `tvm_step`). A solve clears the selection; a store
    /// selects `slot`.
    pub fn tvm_button(&mut self, slot: &str) -> (solve: bool)
        ensures
            solve == tvm_step(old(self).mode).0,
            final(self).mode == tvm_step(old(self).mode).1,
            final(self).tvm_sel@ == (if solve { Seq::<char>::empty() } else { slot@ }),
    {
        let solve = self.mode == FinMode::Cpt;
        self.mode = FinMode::Normal;
        if solve {
            self.tvm_sel = String::new();
        } else {
            let mut t = String::new();
            t.append(slot);
            assert(t@ =~= slot@);
            self.tvm_sel = t;
        }
        solve
    }
}

// ── The shared number-entry state ─────────────────────────────────────────

/// The number-entry state that the basic, scientific and financial modes
/// share: the entry text, the pending operator and its left operand, whether
/// the next digit starts a new entry, whether an error is shown, and the two
/// display lines. It is generic in the type of the pending operand; `zero`
/// is the operand that a cleared state holds.
pub struct EntryState<T> {
    pub input: String,
    pub pending_op: Option<Op>,
    pub pending_val: T,
    pub should_reset: bool,
    pub error: bool,
    pub display: String,
    pub expression: String,
    pub zero: T,
}

/// The entry text that a digit is added to: `0` after an error (which clears
/// everything), empty when a new entry starts, else the entry itself.
pub open spec fn entry_before_digit(input: Seq<char>, should_reset: bool, error: bool) -> Seq<char> {
    if error {
        seq!['0']
    } else if should_reset {
        Seq::empty()
    } else {
        input
    }
}

/// What an operator button does first: nothing while an error is shown;
/// when an operation is pending and the entry holds its right operand, it
/// completes that operation (chains); otherwise it starts the new one.
#[derive(Debug, Clone, Copy, PartialEq, Eq, Structural)]
pub enum OpStep {
    Ignore,
    Chain,
    Start,
}

/// The step of an operator button in a state with these flags.
pub open spec fn op_step(error: bool, pending_op: Option<Op>, should_reset: bool) -> OpStep {
    if error {
        OpStep::Ignore
    } else if pending_op is Some && !should_reset {
        OpStep::Chain
    } else {
        OpStep::Start
    }
}

impl<T: Copy> EntryState<T> {
    /// The state shows what a cleared calculator shows: entry and display
    /// `0`, no expression, nothing pending, no error.
    pub open spec fn is_cleared(&self) -> bool {
        &&& self.input@ == seq!['0']
        &&& self.pending_op is None
        &&& self.pending_val == self.zero
        &&& !self.should_reset
        &&& !self.error
        &&& self.display@ == seq!['0']
        &&& self.expression@ == Seq::<char>::empty()
    }

    /// `b` is `a` with at most its entry text changed.
    pub open spec fn same_except_input(a: Self, b: Self) -> bool {
        &&& a.pending_op == b.pending_op
        &&& a.pending_val == b.pending_val
        &&& a.should_reset == b.should_reset
        &&& a.error == b.error
        &&& a.display@ == b.display@
        &&& a.expression@ == b.expression@
        &&& a.zero == b.zero
    }

    /// A cleared state whose pending operand is cleared to `zero`.
    pub fn new(zero: T) -> (s: Self)
        ensures
            s.is_cleared(),
            s.zero == zero,
    {
        EntryState {
            input: one_char_string('0'),
            pending_op: None,
            pending_val: zero,
            should_reset: false,
            error: false,
            display: one_char_string('0'),
            expression: String::new(),
            zero,
        }
    }

    /// Clears everything: entry, pending operation, error and both display
    /// lines.
    pub fn clear_all(&mut self)
        ensures
            final(self).is_cleared(),
            final(self).zero == old(self).zero,
    {
        self.input = one_char_string('0');
        self.pending_op = None;
        self.pending_val = self.zero;
        self.should_reset = false;
        self.error = false;
        self.display = one_char_string('0');
        self.expression = String::new();
    }

    /// Resets the arithmetic on a change of mode; the same as `clear_all`.
    pub fn reset_arith(&mut self)
        ensures
            final(self).is_cleared(),
            final(self).zero == old(self).zero,
    {
        self.clear_all();
    }

    /// The backspace button: after an error it clears everything; while the
    /// next digit would start a new entry it does nothing; otherwise it
    /// deletes the last character of the entry (see `backspaced_entry`).
    pub fn backspace(&mut self)
        ensures
            final(self).zero == old(self).zero,
            old(self).error ==> final(self).is_cleared(),
            !old(self).error && old(self).should_reset ==> Self::same_except_input(*old(self), *final(self))
                && final(self).input@ == old(self).input@,
            !old(self).error && !old(self).should_reset ==> Self::same_except_input(*old(self), *final(self))
                && final(self).input@ == backspaced_entry(old(self).input@),
    {
        if self.error {
            self.clear_all();
            return;
        }
        if self.should_reset {
            return;
        }
        self.input = backspace_entry(self.input.as_str());
    }

    /// A digit button `d`: after an error everything is cleared first; when a
    /// new entry is due the entry starts empty; then the digit is added (see
    /// `entry_before_digit` and `appended_entry`).
    pub fn append_digit(&mut self, d: &str)
        ensures
            final(self).input@ == appended_entry(
                entry_before_digit(old(self).input@, old(self).should_reset, old(self).error),
                d@,
            ),
            !final(self).should_reset,
            !final(self).error,
            final(self).zero == old(self).zero,
            old(self).error ==> final(self).pending_op is None && final(self).pending_val == old(self).zero
                && final(self).display@ == seq!['0'] && final(self).expression@ == Seq::<char>::empty(),
            !old(self).error ==> final(self).pending_op == old(self).pending_op && final(self).pending_val
                == old(self).pending_val && final(self).display@ == old(self).display@
                && final(self).expression@ == old(self).expression@,
    {
        if self.error {
            self.clear_all();
        }
        if self.should_reset {
            self.input = String::new();
            self.should_reset = false;
        }
        self.input = append_entry(self.input.as_str(), d);
    }

    /// Shows an error: the display reads `Error`, the expression line the
    /// message, and the entry restarts at `0`.
    pub fn set_error(&mut self, msg: &str)
        ensures
            final(self).display@ == "Error"@,
            final(self).expression@ == msg@,
            final(self).error,
            final(self).input@ == seq!['0'],
            final(self).should_reset,
            final(self).pending_op == old(self).pending_op,
            final(self).pending_val == old(self).pending_val,
            final(self).zero == old(self).zero,
    {
        proof {
            reveal_strlit("Error");
        }
        let mut e = String::new();
        e.append("Error");
        assert(e@ =~= "Error"@);
        self.display = e;
        let mut m = String::new();
        m.append(msg);
        assert(m@ =~= msg@);
        self.expression = m;
        self.error = true;
        self.input = one_char_string('0');
        self.should_reset = true;
    }

    /// Shows a number, given as its text: it becomes the entry and the
    /// display, and the next digit starts a new entry.
    pub fn set_num(&mut self, text: String)
        ensures
            final(self).input@ == text@,
            final(self).display@ == text@,
            final(self).should_reset,
            final(self).pending_op == old(self).pending_op,
            final(self).pending_val == old(self).pending_val,
            final(self).error == old(self).error,
            final(self).expression@ == old(self).expression@,
            final(self).zero == old(self).zero,
    {
        self.display = text.clone();
        self.input = text;
        self.should_reset = true;
    }

    /// Completes a pending operation whose result, written as `text`, came
    /// out of `expr`: the expression line shows `expr`, the result becomes
    /// the entry and the display, nothing is pending any more and the next
    /// digit starts a new entry.
    pub fn finish_evaluation(&mut self, expr: String, text: String)
        ensures
            final(self).expression@ == expr@,
            final(self).input@ == text@,
            final(self).display@ == text@,
            final(self).pending_op is None,
            final(self).pending_val == old(self).zero,
            final(self).should_reset,
            final(self).error == old(self).error,
            final(self).zero == old(self).zero,
    {
        self.expression = expr;
        self.display = text.clone();
        self.input = text;
        self.pending_op = None;
        self.pending_val = self.zero;
        self.should_reset = true;
    }

    /// What an operator button does first (see `op_step`).
    pub fn operator_step(&self) -> (s: OpStep)
        ensures
            s == op_step(self.error, self.pending_op, self.should_reset),
    {
        if self.error {
            OpStep::Ignore
        } else if self.pending_op.is_some() && !self.should_reset {
            OpStep::Chain
        } else {
            OpStep::Start
        }
    }

    /// The result `r` of a chained operation, written as `text`, becomes the
    /// pending operand and the entry.
    pub fn chain_result(&mut self, r: T, text: String)
        ensures
            final(self).pending_val == r,
            final(self).input@ == text@,
            final(self).pending_op == old(self).pending_op,
            final(self).should_reset == old(self).should_reset,
            final(self).error == old(self).error,
            final(self).display@ == old(self).display@,
            final(self).expression@ == old(self).expression@,
            final(self).zero == old(self).zero,
    {
        self.pending_val = r;
        self.input = text;
    }

    /// The operator button labelled `label`, with left operand `lhs` (the
    /// entry's value): its operator becomes pending, the expression line
    /// shows `expr`, and the next digit starts a new entry.
    pub fn start_op(&mut self, label: &str, lhs: T, expr: String)
        ensures
            final(self).pending_op == op_of_label(label@),
            final(self).pending_val == lhs,
            final(self).expression@ == expr@,
            final(self).should_reset,
            final(self).input@ == old(self).input@,
            final(self).error == old(self).error,
            final(self).display@ == old(self).display@,
            final(self).zero == old(self).zero,
    {
        self.pending_val = lhs;
        self.pending_op = Op::from_str(label);
        self.expression = expr;
        self.should_reset = true;
    }

    /// Whether the percent key takes a percentage of the pending operand:
    /// exactly when `+` or `−` is pending.
    pub fn percent_of_pending(&self) -> (b: bool)
        ensures
            b == (self.pending_op == Some(Op::Add) || self.pending_op == Some(Op::Sub)),
    {
        match self.pending_op {
            Some(Op::Add) | Some(Op::Sub) => true,
            _ => false,
        }
    }

    /// The percent key's result, written as `text`, becomes the entry, and
    /// the next digit extends it.
    pub fn set_percent(&mut self, text: String)
        ensures
            final(self).input@ == text@,
            !final(self).should_reset,
            final(self).pending_op == old(self).pending_op,
            final(self).pending_val == old(self).pending_val,
            final(self).error == old(self).error,
            final(self).display@ == old(self).display@,
            final(self).expression@ == old(self).expression@,
            final(self).zero == old(self).zero,
    {
        self.input = text;
        self.should_reset = false;
    }

    /// Brings the display up to date: it shows the entry unless an error is
    /// shown.
    pub fn sync_display(&mut self)
        ensures
            final(self).display@ == (if old(self).error { old(self).display@ } else { old(self).input@ }),
            final(self).input@ == old(self).input@,
            final(self).pending_op == old(self).pending_op,
            final(self).pending_val == old(self).pending_val,
            final(self).should_reset == old(self).should_reset,
            final(self).error == old(self).error,
            final(self).expression@ == old(self).expression@,
            final(self).zero == old(self).zero,
    {
        if !self.error {
            self.display = self.input.clone();
        }
    }
}

/// A string of one character.
fn one_char_string(c: char) -> (s: String)
    ensures
        s@ == seq![c],
{
    let mut s = String::new();
    push_char(&mut s, c);
    assert(s@ =~= seq![c]);
    s
}

/// Law: the point button adds a point to any entry that has none (after a
/// `0` when the entry is empty) and leaves an entry that has one as it is;
/// a digit replaces an entry of `0`, and is otherwise added at the end while
/// the entry is shorter than 16 bytes, so what was typed is kept.
pub proof fn lemma_entry_point_and_digits(s: Seq<char>, d: Seq<char>)
    ensures
        !s.contains('.') && s.len() > 0 ==> appended_entry(s, seq!['.']) == s.push('.'),
        s.len() == 0 ==> appended_entry(s, seq!['.']) == seq!['0', '.'],
        s.contains('.') ==> appended_entry(s, seq!['.']) == s,
        is_digit_label(d) && d != seq!['.'] && s == seq!['0'] ==> appended_entry(s, d) == d,
        is_digit_label(d) && d != seq!['.'] && s != seq!['0'] && byte_len(s) < 16 ==> appended_entry(s, d)
            == s + d,
        is_digit_label(d) && d != seq!['.'] && s != seq!['0'] ==> s.is_prefix_of(appended_entry(s, d)),
{
    if is_digit_label(d) && d != seq!['.'] && s != seq!['0'] {
        let r = appended_entry(s, d);
        if byte_len(s) < 16 {
            assert(r == s + d);
            assert(s =~= r.subrange(0, s.len() as int));
        } else {
            assert(r == s);
            assert(s =~= r.subrange(0, s.len() as int));
        }
    }
}

// ── Factorial ─────────────────────────────────────────────────────────────

/// n! (0! = 1).
pub open spec fn factorial_spec(n: nat) -> nat
    decreases n,
{
    if n == 0 {
        1
    } else {
        n * factorial_spec((n - 1) as nat)
    }
}

/// n!, or `u64::MAX` when n! does not fit in a `u64`.
pub fn factorial(n: u64) -> (r: u64)
    ensures
        r == (if factorial_spec(n as nat) <= u64::MAX {
            factorial_spec(n as nat)
        } else {
            u64::MAX as nat
        }),
{
    let mut acc: u64 = 1;
    let mut i: u64 = 0;
    while i < n
        invariant
            i <= n,
            acc == capped_factorial(i as nat),
        decreases n - i,
    {
        i = i + 1;
        proof {
            lemma_capped_factorial_step(i as nat);
        }
        acc = match acc.checked_mul(i) {
            Some(p) => p,
            None => u64::MAX,
        };
    }
    acc
}

/// n!, or `u64::MAX` when n! does not fit in a `u64`.
spec fn capped_factorial(n: nat) -> nat {
    if factorial_spec(n) <= u64::MAX {
        factorial_spec(n)
    } else {
        u64::MAX as nat
    }
}

/// The capped factorial of `i` is the capped product of the capped factorial
/// of `i - 1` and `i`.
proof fn lemma_capped_factorial_step(i: nat)
    requires
        i >= 1,
    ensures
        capped_factorial(i) == (if capped_factorial((i - 1) as nat) * i <= u64::MAX {
            capped_factorial((i - 1) as nat) * i
        } else {
            u64::MAX as nat
        }),
{
    let f = factorial_spec((i - 1) as nat);
    assert(factorial_spec(i) == i * f);
    lemma_factorial_positive((i - 1) as nat);
    if f > u64::MAX {
        assert(i * f >= f) by (nonlinear_arith)
            requires
                i >= 1,
                f >= 0,
        ;
        assert(u64::MAX * i >= u64::MAX) by (nonlinear_arith)
            requires
                i >= 1,
        ;
    } else {
        assert(f * i == i * f) by (nonlinear_arith);
    }
}

proof fn lemma_factorial_positive(n: nat)
    ensures
        factorial_spec(n) >= 1,
    decreases n,
{
    if n > 0 {
        lemma_factorial_positive((n - 1) as nat);
        let f = factorial_spec((n - 1) as nat);
        assert(n * f >= 1) by (nonlinear_arith)
            requires
                n >= 1,
                f >= 1,
        ;
    }
}


// ── Programmer-mode buttons ──────────────────────────────────────────────

/// What a button does in programmer mode.
pub enum ProgKey {
    Clear,
    Backspace,
    Equals,
    Not,
    Op(BitOp),
    /// `BASE:` followed by a label; `None` when the label names no base.
    SetBase(Option<Base>),
    /// Any other one-byte label: typed as a digit.
    Digit(char),
    Ignored,
}

/// The meaning of a programmer-mode button label.
pub open spec fn prog_key(b: Seq<char>) -> ProgKey {
    if b == "AC"@ {
        ProgKey::Clear
    } else if b == "\u{232b}"@ {
        ProgKey::Backspace
    } else if b == "="@ {
        ProgKey::Equals
    } else if b == "NOT"@ {
        ProgKey::Not
    } else if b == "AND"@ {
        ProgKey::Op(BitOp::And)
    } else if b == "OR"@ {
        ProgKey::Op(BitOp::Or)
    } else if b == "XOR"@ {
        ProgKey::Op(BitOp::Xor)
    } else if b == "<<"@ {
        ProgKey::Op(BitOp::Shl)
    } else if b == ">>"@ {
        ProgKey::Op(BitOp::Shr)
    } else if b.len() >= 5 && b.take(5) == "BASE:"@ {
        ProgKey::SetBase(base_from_name(b.skip(5)))
    } else if byte_len(b) == 1 {
        ProgKey::Digit(b[0])
    } else {
        ProgKey::Ignored
    }
}

/// Applies a programmer-mode button to the programmer state: clear, delete,
/// evaluate, complement, start a bit operation, switch base, or type a digit
/// (see `prog_key`); other labels do nothing.
pub fn programmer_button(prog: &mut ProgrammerState, btn: &str)
    ensures
        final(prog).width() == old(prog).width(),
        ({
            let o = *old(prog);
            let f = *final(prog);
            let v = value_of(o.text(), o.base_spec(), o.width());
            match prog_key(btn@) {
                ProgKey::Clear => f.base_spec() == o.base_spec() && f.text() == seq!['0'] && f.pending_op() is None,
                ProgKey::Backspace => f.base_spec() == o.base_spec() && f.pending_op() == o.pending_op()
                    && f.text() == backspace_text(o.text()),
                ProgKey::Equals => f.base_spec() == o.base_spec() && f.pending_op() is None && match o.pending_op() {
                    None => f.text() == o.text(),
                    Some((lhs, op)) => f.text() == display_text(
                        mask_spec(apply_bitop(lhs, op, v), o.width()),
                        o.base_spec(),
                    ),
                },
                ProgKey::Not => f.base_spec() == o.base_spec() && f.pending_op() == o.pending_op() && f.text()
                    == display_text(mask_spec(!v, o.width()), o.base_spec()),
                ProgKey::Op(op) => f.base_spec() == o.base_spec() && f.pending_op() == Some((v, op)) && f.text()
                    == seq!['0'],
                ProgKey::SetBase(Some(b)) => f.base_spec() == b && f.pending_op() == o.pending_op()
                    && f.text() == display_text(v, b),
                ProgKey::Digit(c) => f.base_spec() == o.base_spec() && f.pending_op() == o.pending_op()
                    && f.text() == digit_text(o.text(), o.base_spec(), c),
                _ => f.base_spec() == o.base_spec() && f.pending_op() == o.pending_op() && f.text() == o.text(),
            }
        }),
{
    proof {
        reveal_strlit("AC");
        reveal_strlit("\u{232b}");
        reveal_strlit("=");
        reveal_strlit("NOT");
        reveal_strlit("AND");
        reveal_strlit("OR");
        reveal_strlit("XOR");
        reveal_strlit("<<");
        reveal_strlit(">>");
        reveal_strlit("BASE:");
    }
    if str_eq(btn, "AC") {
        prog.clear();
    } else if str_eq(btn, "\u{232b}") {
        prog.backspace();
    } else if str_eq(btn, "=") {
        let _v = prog.compute();
    } else if str_eq(btn, "NOT") {
        prog.not();
    } else if str_eq(btn, "AND") {
        prog.set_op(BitOp::And);
    } else if str_eq(btn, "OR") {
        prog.set_op(BitOp::Or);
    } else if str_eq(btn, "XOR") {
        prog.set_op(BitOp::Xor);
    } else if str_eq(btn, "<<") {
        prog.set_op(BitOp::Shl);
    } else if str_eq(btn, ">>") {
        prog.set_op(BitOp::Shr);
    } else {
        let cs = chars_of(btn);
        if cs.len() >= 5 && cs[0] == 'B' && cs[1] == 'A' && cs[2] == 'S' && cs[3] == 'E' && cs[4] == ':' {
            assert(btn@.take(5) =~= "BASE:"@);
            let rest = string_of_range(&cs, 5, cs.len());
            assert(rest@ =~= btn@.skip(5));
            match Base::from_name(rest.as_str()) {
                Some(b) => prog.set_base(b),
                None => {},
            }
        } else {
            assert(!(btn@.len() >= 5 && btn@.take(5) == "BASE:"@)) by {
                if btn@.len() >= 5 && btn@.take(5) == "BASE:"@ {
                    assert(btn@.take(5)[0] == 'B');
                    assert(btn@.take(5)[1] == 'A');
                    assert(btn@.take(5)[2] == 'S');
                    assert(btn@.take(5)[3] == 'E');
                    assert(btn@.take(5)[4] == ':');
                }
            }
            if btn.as_bytes().len() == 1 {
                proof {
                    lemma_one_byte_one_char(btn@);
                }
                prog.digit(cs[0]);
            }
        }
    }
}

/// A text of one UTF-8 byte is one character.
proof fn lemma_one_byte_one_char(s: Seq<char>)
    requires
        byte_len(s) == 1,
    ensures
        s.len() == 1,
{
    lemma_byte_len_at_least_len(s);
    if s.len() == 0 {
        assert(encode_utf8(s) =~= Seq::<u8>::empty());
    }
}

/// Every character takes at least one UTF-8 byte.
proof fn lemma_byte_len_at_least_len(s: Seq<char>)
    ensures
        byte_len(s) >= s.len(),
    decreases s.len(),
{
    if s.len() > 0 {
        lemma_byte_len_at_least_len(s.drop_first());
        assert(vstd::utf8::encode_scalar(s[0] as u32).len() >= 1);
    }
}


// ── Buttons of the basic, scientific and financial modes ──────────────────

/// The one-argument buttons of the scientific mode.
#[derive(Debug, Clone, Copy, PartialEq, Eq, Structural)]
pub enum UnaryKey {
    Sin,
    Cos,
    Tan,
    Asin,
    Acos,
    Atan,
    Log,
    Ln,
    Sqrt,
    Recip,
    Fact,
    Rand,
    Pi,
    E,
}

/// What a button does in the basic, scientific or financial mode.
#[derive(Debug)]
pub enum Key {
    ClearAll,
    Backspace,
    Equals,
    Percent,
    /// Switch between degrees and radians.
    AngleUnit,
    MemoryClear,
    MemoryRecall,
    MemoryAdd,
    MemorySub,
    MemoryStore,
    /// A digit button (see `is_digit_label`).
    Digit,
    /// An operator button.
    Operator(Op),
    Unary(UnaryKey),
    ClearTvm,
    /// Arm the next TVM button to compute its variable.
    Compute,
    /// A `TVM:` button with the label after the prefix.
    TvmSlot(String),
    TaxAdd,
    TaxRemove,
    Margin,
    Ignored,
}

/// The mathematical view of a key.
pub enum KeyV {
    ClearAll,
    Backspace,
    Equals,
    Percent,
    AngleUnit,
    MemoryClear,
    MemoryRecall,
    MemoryAdd,
    MemorySub,
    MemoryStore,
    Digit,
    Operator(Op),
    Unary(UnaryKey),
    ClearTvm,
    Compute,
    TvmSlot(Seq<char>),
    TaxAdd,
    TaxRemove,
    Margin,
    Ignored,
}

impl View for Key {
    type V = KeyV;

    open spec fn view(&self) -> KeyV {
        match self {
            Key::ClearAll => KeyV::ClearAll,
            Key::Backspace => KeyV::Backspace,
            Key::Equals => KeyV::Equals,
            Key::Percent => KeyV::Percent,
            Key::AngleUnit => KeyV::AngleUnit,
            Key::MemoryClear => KeyV::MemoryClear,
            Key::MemoryRecall => KeyV::MemoryRecall,
            Key::MemoryAdd => KeyV::MemoryAdd,
            Key::MemorySub => KeyV::MemorySub,
            Key::MemoryStore => KeyV::MemoryStore,
            Key::Digit => KeyV::Digit,
            Key::Operator(o) => KeyV::Operator(*o),
            Key::Unary(u) => KeyV::Unary(*u),
            Key::ClearTvm => KeyV::ClearTvm,
            Key::Compute => KeyV::Compute,
            Key::TvmSlot(s) => KeyV::TvmSlot(s@),
            Key::TaxAdd => KeyV::TaxAdd,
            Key::TaxRemove => KeyV::TaxRemove,
            Key::Margin => KeyV::Margin,
            Key::Ignored => KeyV::Ignored,
        }
    }
}

/// Digit buttons, then operator buttons, else nothing.
pub open spec fn entry_key(b: Seq<char>) -> KeyV {
    if is_digit_label(b) {
        KeyV::Digit
    } else if op_of_label(b) is Some {
        KeyV::Operator(op_of_label(b)->0)
    } else {
        KeyV::Ignored
    }
}

/// A basic-mode button: `AC`, `⌫`, `=`, `%`, the memory buttons `MC`,
/// `MR`, `M+`, `M-`, `MS`, then digits and operators.
pub open spec fn basic_key(b: Seq<char>) -> KeyV {
    if b == "AC"@ {
        KeyV::ClearAll
    } else if b == "\u{232b}"@ {
        KeyV::Backspace
    } else if b == "="@ {
        KeyV::Equals
    } else if b == "%"@ {
        KeyV::Percent
    } else if b == "MC"@ {
        KeyV::MemoryClear
    } else if b == "MR"@ {
        KeyV::MemoryRecall
    } else if b == "M+"@ {
        KeyV::MemoryAdd
    } else if b == "M-"@ {
        KeyV::MemorySub
    } else if b == "MS"@ {
        KeyV::MemoryStore
    } else {
        entry_key(b)
    }
}

/// The one-argument button with a label, if any.
pub open spec fn unary_key(b: Seq<char>) -> Option<UnaryKey> {
    if b == "sin"@ {
        Some(UnaryKey::Sin)
    } else if b == "cos"@ {
        Some(UnaryKey::Cos)
    } else if b == "tan"@ {
        Some(UnaryKey::Tan)
    } else if b == "asin"@ {
        Some(UnaryKey::Asin)
    } else if b == "acos"@ {
        Some(UnaryKey::Acos)
    } else if b == "atan"@ {
        Some(UnaryKey::Atan)
    } else if b == "log"@ {
        Some(UnaryKey::Log)
    } else if b == "ln"@ {
        Some(UnaryKey::Ln)
    } else if b == "\u{221a}x"@ {
        Some(UnaryKey::Sqrt)
    } else if b == "1/x"@ {
        Some(UnaryKey::Recip)
    } else if b == "x!"@ {
        Some(UnaryKey::Fact)
    } else if b == "RND"@ {
        Some(UnaryKey::Rand)
    } else if b == "\u{3c0}"@ {
        Some(UnaryKey::Pi)
    } else if b == "e"@ {
        Some(UnaryKey::E)
    } else {
        None
    }
}

/// A scientific-mode button: `AC`, `⌫`, `=`, `%`, `DEG/RAD`, then the
/// one-argument buttons, then digits and operators.
pub open spec fn scientific_key(b: Seq<char>) -> KeyV {
    if b == "AC"@ {
        KeyV::ClearAll
    } else if b == "\u{232b}"@ {
        KeyV::Backspace
    } else if b == "="@ {
        KeyV::Equals
    } else if b == "%"@ {
        KeyV::Percent
    } else if b == "DEG/RAD"@ {
        KeyV::AngleUnit
    } else if unary_key(b) is Some {
        KeyV::Unary(unary_key(b)->0)
    } else {
        entry_key(b)
    }
}

/// A financial-mode button: `AC`, `⌫`, `CLR TVM`, `CPT`, a `TVM:` button,
/// `Tax+`, `Tax−`, `Mar`, `=`, `%`, then digits and operators.
pub open spec fn financial_key(b: Seq<char>) -> KeyV {
    if b == "AC"@ {
        KeyV::ClearAll
    } else if b == "\u{232b}"@ {
        KeyV::Backspace
    } else if b == "CLR TVM"@ {
        KeyV::ClearTvm
    } else if b == "CPT"@ {
        KeyV::Compute
    } else if b.len() >= 4 && b.take(4) == "TVM:"@ {
        KeyV::TvmSlot(b.skip(4))
    } else if b == "Tax+"@ {
        KeyV::TaxAdd
    } else if b == "Tax\u{2212}"@ {
        KeyV::TaxRemove
    } else if b == "Mar"@ {
        KeyV::Margin
    } else if b == "="@ {
        KeyV::Equals
    } else if b == "%"@ {
        KeyV::Percent
    } else {
        entry_key(b)
    }
}

/// Law: the shared controls mean the same in the basic, scientific and
/// financial modes: `AC` clears, `⌫` deletes, `=` evaluates and `%` takes a
/// percentage; a digit button is a digit and an operator button (other than
/// `%`) is its operator in all three.
pub proof fn lemma_shared_controls(b: Seq<char>)
    ensures
        basic_key(seq!['A', 'C']) == KeyV::ClearAll,
        scientific_key(seq!['A', 'C']) == KeyV::ClearAll,
        financial_key(seq!['A', 'C']) == KeyV::ClearAll,
        basic_key(seq!['\u{232b}']) == KeyV::Backspace,
        scientific_key(seq!['\u{232b}']) == KeyV::Backspace,
        financial_key(seq!['\u{232b}']) == KeyV::Backspace,
        basic_key(seq!['=']) == KeyV::Equals,
        scientific_key(seq!['=']) == KeyV::Equals,
        financial_key(seq!['=']) == KeyV::Equals,
        basic_key(seq!['%']) == KeyV::Percent,
        scientific_key(seq!['%']) == KeyV::Percent,
        financial_key(seq!['%']) == KeyV::Percent,
        b.len() == 1 && '0' <= b[0] <= '9' ==> basic_key(b) == KeyV::Digit && scientific_key(b) == KeyV::Digit
            && financial_key(b) == KeyV::Digit,
        b == seq!['.'] ==> basic_key(b) == KeyV::Digit && scientific_key(b) == KeyV::Digit
            && financial_key(b) == KeyV::Digit,
        b == seq!['+'] ==> basic_key(b) == KeyV::Operator(Op::Add) && scientific_key(b) == KeyV::Operator(
            Op::Add,
        ) && financial_key(b) == KeyV::Operator(Op::Add),
        b == seq!['\u{2212}'] ==> basic_key(b) == KeyV::Operator(Op::Sub) && scientific_key(b)
            == KeyV::Operator(Op::Sub) && financial_key(b) == KeyV::Operator(Op::Sub),
        b == seq!['\u{d7}'] ==> basic_key(b) == KeyV::Operator(Op::Mul) && scientific_key(b)
            == KeyV::Operator(Op::Mul) && financial_key(b) == KeyV::Operator(Op::Mul),
        b == seq!['\u{f7}'] ==> basic_key(b) == KeyV::Operator(Op::Div) && scientific_key(b)
            == KeyV::Operator(Op::Div) && financial_key(b) == KeyV::Operator(Op::Div),
{
    reveal_strlit("AC");
    reveal_strlit("\u{232b}");
    reveal_strlit("=");
    reveal_strlit("%");
    reveal_strlit("MC");
    reveal_strlit("MR");
    reveal_strlit("M+");
    reveal_strlit("M-");
    reveal_strlit("MS");
    reveal_strlit("DEG/RAD");
    reveal_strlit("CLR TVM");
    reveal_strlit("CPT");
    reveal_strlit("TVM:");
    reveal_strlit("Tax+");
    reveal_strlit("Tax\u{2212}");
    reveal_strlit("Mar");
    reveal_strlit("sin");
    reveal_strlit("cos");
    reveal_strlit("tan");
    reveal_strlit("asin");
    reveal_strlit("acos");
    reveal_strlit("atan");
    reveal_strlit("log");
    reveal_strlit("ln");
    reveal_strlit("\u{221a}x");
    reveal_strlit("1/x");
    reveal_strlit("x!");
    reveal_strlit("RND");
    reveal_strlit("\u{3c0}");
    reveal_strlit("e");
    assert("AC"@ =~= seq!['A', 'C']);
    assert("\u{232b}"@ =~= seq!['\u{232b}']);
    assert("="@ =~= seq!['=']);
    assert("%"@ =~= seq!['%']);
    if b == seq!['.'] {
        assert(b.len() == 1 && b[0] == '.');
        assert(is_digit_label(b));
    }
}

/// Law: each one-argument button of the scientific mode names its own
/// function or constant: `sin` is Sin, `cos` is Cos, `tan` is Tan, `asin`
/// is Asin, `acos` is Acos, `atan` is Atan, `log` is Log, `ln` is Ln, `√x`
/// is Sqrt, `1/x` is Recip, `x!` is Fact, `RND` is Rand, `π` is Pi and `e`
/// is E; no two of these labels give the same key.
pub proof fn lemma_unary_labels(a: Seq<char>, b: Seq<char>)
    ensures
        scientific_key(seq!['s', 'i', 'n']) == KeyV::Unary(UnaryKey::Sin),
        scientific_key(seq!['c', 'o', 's']) == KeyV::Unary(UnaryKey::Cos),
        scientific_key(seq!['t', 'a', 'n']) == KeyV::Unary(UnaryKey::Tan),
        scientific_key(seq!['a', 's', 'i', 'n']) == KeyV::Unary(UnaryKey::Asin),
        scientific_key(seq!['a', 'c', 'o', 's']) == KeyV::Unary(UnaryKey::Acos),
        scientific_key(seq!['a', 't', 'a', 'n']) == KeyV::Unary(UnaryKey::Atan),
        scientific_key(seq!['l', 'o', 'g']) == KeyV::Unary(UnaryKey::Log),
        scientific_key(seq!['l', 'n']) == KeyV::Unary(UnaryKey::Ln),
        scientific_key(seq!['\u{221a}', 'x']) == KeyV::Unary(UnaryKey::Sqrt),
        scientific_key(seq!['1', '/', 'x']) == KeyV::Unary(UnaryKey::Recip),
        scientific_key(seq!['x', '!']) == KeyV::Unary(UnaryKey::Fact),
        scientific_key(seq!['R', 'N', 'D']) == KeyV::Unary(UnaryKey::Rand),
        scientific_key(seq!['\u{3c0}']) == KeyV::Unary(UnaryKey::Pi),
        scientific_key(seq!['e']) == KeyV::Unary(UnaryKey::E),
        unary_key(a) is Some && unary_key(a) == unary_key(b) ==> a == b,
{
    reveal_strlit("AC");
    reveal_strlit("\u{232b}");
    reveal_strlit("=");
    reveal_strlit("%");
    reveal_strlit("DEG/RAD");
    reveal_strlit("sin");
    reveal_strlit("cos");
    reveal_strlit("tan");
    reveal_strlit("asin");
    reveal_strlit("acos");
    reveal_strlit("atan");
    reveal_strlit("log");
    reveal_strlit("ln");
    reveal_strlit("\u{221a}x");
    reveal_strlit("1/x");
    reveal_strlit("x!");
    reveal_strlit("RND");
    reveal_strlit("\u{3c0}");
    reveal_strlit("e");
    assert("sin"@ =~= seq!['s', 'i', 'n']);
    assert("cos"@ =~= seq!['c', 'o', 's']);
    assert("tan"@ =~= seq!['t', 'a', 'n']);
    assert("asin"@ =~= seq!['a', 's', 'i', 'n']);
    assert("acos"@ =~= seq!['a', 'c', 'o', 's']);
    assert("atan"@ =~= seq!['a', 't', 'a', 'n']);
    assert("log"@ =~= seq!['l', 'o', 'g']);
    assert("ln"@ =~= seq!['l', 'n']);
    assert("\u{221a}x"@ =~= seq!['\u{221a}', 'x']);
    assert("1/x"@ =~= seq!['1', '/', 'x']);
    assert("x!"@ =~= seq!['x', '!']);
    assert("RND"@ =~= seq!['R', 'N', 'D']);
    assert("\u{3c0}"@ =~= seq!['\u{3c0}']);
    assert("e"@ =~= seq!['e']);
}

fn entry_key_exec(btn: &str) -> (k: Key)
    ensures
        k@ == entry_key(btn@),
{
    if is_digit_btn(btn) {
        Key::Digit
    } else {
        match Op::from_str(btn) {
            Some(op) => Key::Operator(op),
            None => Key::Ignored,
        }
    }
}

/// The meaning of a basic-mode button (see `basic_key`).
pub fn basic_key_of(btn: &str) -> (k: Key)
    ensures
        k@ == basic_key(btn@),
{
    if str_eq(btn, "AC") {
        Key::ClearAll
    } else if str_eq(btn, "\u{232b}") {
        Key::Backspace
    } else if str_eq(btn, "=") {
        Key::Equals
    } else if str_eq(btn, "%") {
        Key::Percent
    } else if str_eq(btn, "MC") {
        Key::MemoryClear
    } else if str_eq(btn, "MR") {
        Key::MemoryRecall
    } else if str_eq(btn, "M+") {
        Key::MemoryAdd
    } else if str_eq(btn, "M-") {
        Key::MemorySub
    } else if str_eq(btn, "MS") {
        Key::MemoryStore
    } else {
        entry_key_exec(btn)
    }
}

fn unary_key_exec(btn: &str) -> (u: Option<UnaryKey>)
    ensures
        u == unary_key(btn@),
{
    if str_eq(btn, "sin") {
        Some(UnaryKey::Sin)
    } else if str_eq(btn, "cos") {
        Some(UnaryKey::Cos)
    } else if str_eq(btn, "tan") {
        Some(UnaryKey::Tan)
    } else if str_eq(btn, "asin") {
        Some(UnaryKey::Asin)
    } else if str_eq(btn, "acos") {
        Some(UnaryKey::Acos)
    } else if str_eq(btn, "atan") {
        Some(UnaryKey::Atan)
    } else if str_eq(btn, "log") {
        Some(UnaryKey::Log)
    } else if str_eq(btn, "ln") {
        Some(UnaryKey::Ln)
    } else if str_eq(btn, "\u{221a}x") {
        Some(UnaryKey::Sqrt)
    } else if str_eq(btn, "1/x") {
        Some(UnaryKey::Recip)
    } else if str_eq(btn, "x!") {
        Some(UnaryKey::Fact)
    } else if str_eq(btn, "RND") {
        Some(UnaryKey::Rand)
    } else if str_eq(btn, "\u{3c0}") {
        Some(UnaryKey::Pi)
    } else if str_eq(btn, "e") {
        Some(UnaryKey::E)
    } else {
        None
    }
}

/// The meaning of a scientific-mode button (see `scientific_key`).
pub fn scientific_key_of(btn: &str) -> (k: Key)
    ensures
        k@ == scientific_key(btn@),
{
    if str_eq(btn, "AC") {
        Key::ClearAll
    } else if str_eq(btn, "\u{232b}") {
        Key::Backspace
    } else if str_eq(btn, "=") {
        Key::Equals
    } else if str_eq(btn, "%") {
        Key::Percent
    } else if str_eq(btn, "DEG/RAD") {
        Key::AngleUnit
    } else {
        match unary_key_exec(btn) {
            Some(u) => Key::Unary(u),
            None => entry_key_exec(btn),
        }
    }
}

/// The meaning of a financial-mode button (see `financial_key`).
pub fn financial_key_of(btn: &str) -> (k: Key)
    ensures
        k@ == financial_key(btn@),
{
    proof {
        reveal_strlit("TVM:");
    }
    if str_eq(btn, "AC") {
        return Key::ClearAll;
    } else if str_eq(btn, "\u{232b}") {
        return Key::Backspace;
    } else if str_eq(btn, "CLR TVM") {
        return Key::ClearTvm;
    } else if str_eq(btn, "CPT") {
        return Key::Compute;
    }
    let cs = chars_of(btn);
    if cs.len() >= 4 && cs[0] == 'T' && cs[1] == 'V' && cs[2] == 'M' && cs[3] == ':' {
        assert(btn@.take(4) =~= "TVM:"@);
        let slot = string_of_range(&cs, 4, cs.len());
        assert(slot@ =~= btn@.skip(4));
        return Key::TvmSlot(slot);
    }
    assert(!(btn@.len() >= 4 && btn@.take(4) == "TVM:"@)) by {
        if btn@.len() >= 4 && btn@.take(4) == "TVM:"@ {
            assert(btn@.take(4)[0] == 'T');
            assert(btn@.take(4)[1] == 'V');
            assert(btn@.take(4)[2] == 'M');
            assert(btn@.take(4)[3] == ':');
        }
    }
    if str_eq(btn, "Tax+") {
        Key::TaxAdd
    } else if str_eq(btn, "Tax\u{2212}") {
        Key::TaxRemove
    } else if str_eq(btn, "Mar") {
        Key::Margin
    } else if str_eq(btn, "=") {
        Key::Equals
    } else if str_eq(btn, "%") {
        Key::Percent
    } else {
        entry_key_exec(btn)
    }
}

} // verus!
