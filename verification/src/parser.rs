//! Recursive-descent compiler of the scientific-mode expression language.
//!
//! Grammar
//! -------
//!   expr    → term   ( ('+' | '-')  term   )*
//!   term    → power  ( ('*' | '/' | '%') power )*
//!   power   → unary  ( '^' power )?            right-associative
//!   unary   → '-'? primary
//!   primary → NUMBER | '(' expr ')' | IDENT | IDENT '(' expr ')'
//!
//! An expression compiles to a postfix program in evaluation order: numbers
//! and constants push a value, operators and functions combine the values on
//! top of the stack. A syntax error becomes a final `Fail` instruction at the
//! point where evaluation would stop, so that running the program reports the
//! first error in evaluation order, whether an arithmetic error met on the way
//! or the syntax error itself.

use vstd::prelude::*;
use crate::lexer::{Token, TokenV, tokens_view, tokenise, tokenise_spec, tokens_from, prepend, valid_float};
use crate::programmer::{push_radix_digits, radix_digits};
use crate::text::str_eq;

verus! {

// ── Functions ─────────────────────────────────────────────────────────────

/// The functions that may be applied to a parenthesised argument.
#[derive(Debug, Clone, Copy, PartialEq, Eq, Structural)]
pub enum Func {
    Sin,
    Cos,
    Tan,
    Asin,
    Acos,
    Atan,
    Log,
    Ln,
    Exp,
    Sqrt,
    Cbrt,
    Abs,
    Floor,
    Ceil,
    Round,
    Fact,
}

/// The function with the given name, if any.
#[verifier::opaque]
pub open spec fn func_of_name(name: Seq<char>) -> Option<Func> {
    if name == "sin"@ {
        Some(Func::Sin)
    } else if name == "cos"@ {
        Some(Func::Cos)
    } else if name == "tan"@ {
        Some(Func::Tan)
    } else if name == "asin"@ {
        Some(Func::Asin)
    } else if name == "acos"@ {
        Some(Func::Acos)
    } else if name == "atan"@ {
        Some(Func::Atan)
    } else if name == "log"@ {
        Some(Func::Log)
    } else if name == "ln"@ {
        Some(Func::Ln)
    } else if name == "exp"@ {
        Some(Func::Exp)
    } else if name == "sqrt"@ {
        Some(Func::Sqrt)
    } else if name == "cbrt"@ {
        Some(Func::Cbrt)
    } else if name == "abs"@ {
        Some(Func::Abs)
    } else if name == "floor"@ {
        Some(Func::Floor)
    } else if name == "ceil"@ {
        Some(Func::Ceil)
    } else if name == "round"@ {
        Some(Func::Round)
    } else if name == "fact"@ {
        Some(Func::Fact)
    } else {
        None
    }
}

impl Func {
    /// The function with the given name, if any (see `func_of_name`).
    pub fn from_name(name: &str) -> (r: Option<Func>)
        ensures
            r == func_of_name(name@),
    {
        reveal(func_of_name);
        if str_eq(name, "sin") {
            Some(Func::Sin)
        } else if str_eq(name, "cos") {
            Some(Func::Cos)
        } else if str_eq(name, "tan") {
            Some(Func::Tan)
        } else if str_eq(name, "asin") {
            Some(Func::Asin)
        } else if str_eq(name, "acos") {
            Some(Func::Acos)
        } else if str_eq(name, "atan") {
            Some(Func::Atan)
        } else if str_eq(name, "log") {
            Some(Func::Log)
        } else if str_eq(name, "ln") {
            Some(Func::Ln)
        } else if str_eq(name, "exp") {
            Some(Func::Exp)
        } else if str_eq(name, "sqrt") {
            Some(Func::Sqrt)
        } else if str_eq(name, "cbrt") {
            Some(Func::Cbrt)
        } else if str_eq(name, "abs") {
            Some(Func::Abs)
        } else if str_eq(name, "floor") {
            Some(Func::Floor)
        } else if str_eq(name, "ceil") {
            Some(Func::Ceil)
        } else if str_eq(name, "round") {
            Some(Func::Round)
        } else if str_eq(name, "fact") {
            Some(Func::Fact)
        } else {
            None
        }
    }
}

// ── Programs ──────────────────────────────────────────────────────────────

/// One instruction of a compiled expression.
#[derive(Debug)]
pub enum Instr {
    /// Push the number that the literal text denotes.
    Num(String),
    /// Push π.
    Pi,
    /// Push e.
    E,
    /// Negate the top value.
    Neg,
    /// Replace the two top values `a, b` (b on top) by `a + b`.
    Add,
    /// … by `a - b`.
    Sub,
    /// … by `a * b`.
    Mul,
    /// … by `a / b` (an error when `b` is zero).
    Div,
    /// … by the remainder of `a / b`.
    Rem,
    /// … by `a` raised to `b`.
    Pow,
    /// Apply a function to the top value.
    Call(Func),
    /// Stop with this error message.
    Fail(String),
}

/// The mathematical view of an instruction.
pub enum InstrV {
    Num(Seq<char>),
    Pi,
    E,
    Neg,
    Add,
    Sub,
    Mul,
    Div,
    Rem,
    Pow,
    Call(Func),
    Fail(Seq<char>),
}

impl View for Instr {
    type V = InstrV;

    open spec fn view(&self) -> InstrV {
        match self {
            Instr::Num(s) => InstrV::Num(s@),
            Instr::Pi => InstrV::Pi,
            Instr::E => InstrV::E,
            Instr::Neg => InstrV::Neg,
            Instr::Add => InstrV::Add,
            Instr::Sub => InstrV::Sub,
            Instr::Mul => InstrV::Mul,
            Instr::Div => InstrV::Div,
            Instr::Rem => InstrV::Rem,
            Instr::Pow => InstrV::Pow,
            Instr::Call(f) => InstrV::Call(*f),
            Instr::Fail(s) => InstrV::Fail(s@),
        }
    }
}

/// The views of a sequence of instructions.
pub open spec fn instrs_view(v: Seq<Instr>) -> Seq<InstrV> {
    v.map_values(|i: Instr| i@)
}

// ── Error messages ───────────────────────────────────────────────────────

/// `Expected ')'`.
pub open spec fn expected_rparen_msg() -> Seq<char> {
    "Expected ')'"@
}

/// `Expected ')' after name(...)`.
pub open spec fn expected_rparen_after_msg(name: Seq<char>) -> Seq<char> {
    "Expected ')' after "@ + name + "(...)"@
}

/// `Unknown identifier 'name'`.
pub open spec fn unknown_ident_msg(name: Seq<char>) -> Seq<char> {
    "Unknown identifier '"@ + name + "'"@
}

/// `Unknown function 'name'`.
pub open spec fn unknown_function_msg(name: Seq<char>) -> Seq<char> {
    "Unknown function '"@ + name + "'"@
}

/// How a token is named in an error message.
pub open spec fn token_name(t: TokenV) -> Seq<char> {
    match t {
        TokenV::Num(s) => "Num("@ + s + ")"@,
        TokenV::Plus => "Plus"@,
        TokenV::Minus => "Minus"@,
        TokenV::Star => "Star"@,
        TokenV::Slash => "Slash"@,
        TokenV::Percent => "Percent"@,
        TokenV::Caret => "Caret"@,
        TokenV::LParen => "LParen"@,
        TokenV::RParen => "RParen"@,
        TokenV::Ident(s) => "Ident(\""@ + s + "\")"@,
        TokenV::End => "End"@,
    }
}

/// `Unexpected token: ` and the token's name.
pub open spec fn unexpected_token_msg(t: TokenV) -> Seq<char> {
    "Unexpected token: "@ + token_name(t)
}

/// `Unexpected input at position ` and the position in decimal.
pub open spec fn unexpected_input_msg(pos: nat) -> Seq<char> {
    "Unexpected input at position "@ + radix_digits(pos, 10)
}

// ── The grammar ──────────────────────────────────────────────────────────

/// The token at position `p` (`End` beyond the last one).
pub open spec fn tok(t: Seq<TokenV>, p: int) -> TokenV {
    if 0 <= p < t.len() {
        t[p]
    } else {
        TokenV::End
    }
}

/// The number of tokens from position `p` on.
pub open spec fn rem(t: Seq<TokenV>, p: int) -> nat {
    if p < t.len() {
        (t.len() - p) as nat
    } else {
        0
    }
}

/// A token sequence as the tokeniser makes it: closed by `End`, with no
/// `End` before.
pub open spec fn well_formed_tokens(t: Seq<TokenV>) -> bool {
    &&& t.len() > 0
    &&& t.last() == TokenV::End
    &&& forall|i: int| 0 <= i < t.len() - 1 ==> t[i] != TokenV::End
}

/// A parse from position `p`: the code emitted, the position after it and
/// whether it succeeded (a failed parse's code ends with `Fail`; a parse never
/// moves back, so the branches on `q < p` below are never taken and only
/// witness that the grammar terminates).
pub open spec fn parse_expr(t: Seq<TokenV>, p: int) -> (Seq<InstrV>, int, bool)
    decreases rem(t, p), 8nat,
{
    let (c, q, ok) = parse_term(t, p);
    if !ok || q < p {
        (c, q, false)
    } else {
        let (c2, q2, ok2) = expr_rest(t, q);
        (c + c2, q2, ok2)
    }
}

/// The `( ('+' | '-') term )*` part of an expression, from position `p`.
pub open spec fn expr_rest(t: Seq<TokenV>, p: int) -> (Seq<InstrV>, int, bool)
    decreases rem(t, p), 7nat,
{
    let op = tok(t, p);
    if (op == TokenV::Plus || op == TokenV::Minus) && 0 <= p {
        let (c, q, ok) = parse_term(t, p + 1);
        if !ok || q <= p {
            (c, q, false)
        } else {
            let bin = if op == TokenV::Plus { InstrV::Add } else { InstrV::Sub };
            let (c2, q2, ok2) = expr_rest(t, q);
            (c.push(bin) + c2, q2, ok2)
        }
    } else {
        (Seq::empty(), p, true)
    }
}

/// A term from position `p`.
pub open spec fn parse_term(t: Seq<TokenV>, p: int) -> (Seq<InstrV>, int, bool)
    decreases rem(t, p), 6nat,
{
    let (c, q, ok) = parse_power(t, p);
    if !ok || q < p {
        (c, q, false)
    } else {
        let (c2, q2, ok2) = term_rest(t, q);
        (c + c2, q2, ok2)
    }
}

/// The `( ('*' | '/' | '%') power )*` part of a term, from position `p`.
pub open spec fn term_rest(t: Seq<TokenV>, p: int) -> (Seq<InstrV>, int, bool)
    decreases rem(t, p), 5nat,
{
    let op = tok(t, p);
    if (op == TokenV::Star || op == TokenV::Slash || op == TokenV::Percent) && 0 <= p {
        let (c, q, ok) = parse_power(t, p + 1);
        if !ok || q <= p {
            (c, q, false)
        } else {
            let bin = if op == TokenV::Star {
                InstrV::Mul
            } else if op == TokenV::Slash {
                InstrV::Div
            } else {
                InstrV::Rem
            };
            let (c2, q2, ok2) = term_rest(t, q);
            (c.push(bin) + c2, q2, ok2)
        }
    } else {
        (Seq::empty(), p, true)
    }
}

/// A power from position `p`: `unary`, and when `^` follows, a power that
/// it is raised to.
pub open spec fn parse_power(t: Seq<TokenV>, p: int) -> (Seq<InstrV>, int, bool)
    decreases rem(t, p), 4nat,
{
    let (c, q, ok) = parse_unary(t, p);
    if !ok || q < p {
        (c, q, false)
    } else if tok(t, q) == TokenV::Caret {
        let (c2, q2, ok2) = parse_power(t, q + 1);
        if ok2 {
            (c + c2.push(InstrV::Pow), q2, true)
        } else {
            (c + c2, q2, false)
        }
    } else {
        (c, q, true)
    }
}

/// An optionally negated primary from position `p`.
pub open spec fn parse_unary(t: Seq<TokenV>, p: int) -> (Seq<InstrV>, int, bool)
    decreases rem(t, p), 3nat,
{
    if tok(t, p) == TokenV::Minus && 0 <= p {
        let (c, q, ok) = parse_primary(t, p + 1);
        if ok {
            (c.push(InstrV::Neg), q, true)
        } else {
            (c, q, false)
        }
    } else {
        parse_primary(t, p)
    }
}

/// A primary from position `p`.
pub open spec fn parse_primary(t: Seq<TokenV>, p: int) -> (Seq<InstrV>, int, bool)
    decreases rem(t, p), 2nat,
{
    if p < 0 {
        (seq![InstrV::Fail(unexpected_token_msg(TokenV::End))], p, false)
    } else {
        match tok(t, p) {
            TokenV::Num(s) => (seq![InstrV::Num(s)], p + 1, true),
            TokenV::LParen => {
                let (c, q, ok) = parse_expr(t, p + 1);
                if !ok {
                    (c, q, false)
                } else if tok(t, q) == TokenV::RParen {
                    (c, q + 1, true)
                } else {
                    (c.push(InstrV::Fail(expected_rparen_msg())), q, false)
                }
            },
            TokenV::Ident(name) => parse_ident(t, p, name),
            other => (seq![InstrV::Fail(unexpected_token_msg(other))], p, false),
        }
    }
}

/// A primary at `p` that is the identifier `name`: `pi` (or `π`) and `e`
/// are constants; otherwise a `(` must follow, and a function of that name is
/// applied to the parenthesised expression.
pub open spec fn parse_ident(t: Seq<TokenV>, p: int, name: Seq<char>) -> (Seq<InstrV>, int, bool)
    decreases rem(t, p), 1nat,
{
    if name == "pi"@ || name == "\u{3c0}"@ {
        (seq![InstrV::Pi], p + 1, true)
    } else if name == "e"@ {
        (seq![InstrV::E], p + 1, true)
    } else if tok(t, p + 1) == TokenV::LParen {
        parse_call(t, p, name)
    } else {
        (seq![InstrV::Fail(unknown_ident_msg(name))], p + 1, false)
    }
}

/// A function call at `p`: the function named `name` (the identifier at
/// `p`) applied to the parenthesised expression after it.
pub open spec fn parse_call(t: Seq<TokenV>, p: int, name: Seq<char>) -> (Seq<InstrV>, int, bool)
    decreases rem(t, p), 0nat,
{
    if tok(t, p + 1) == TokenV::LParen {
        let (c, q, ok) = parse_expr(t, p + 2);
        if !ok {
            (c, q, false)
        } else if tok(t, q) == TokenV::RParen {
            match func_of_name(name) {
                Some(f) => (c.push(InstrV::Call(f)), q + 1, true),
                None => (c.push(InstrV::Fail(unknown_function_msg(name))), q + 1, false),
            }
        } else {
            (c.push(InstrV::Fail(expected_rparen_after_msg(name))), q, false)
        }
    } else {
        (Seq::empty(), p, false)
    }
}

/// The program of the token sequence `t`: the expression from the first
/// token, failing when tokens are left after it.
pub open spec fn compile_tokens_spec(t: Seq<TokenV>) -> Seq<InstrV> {
    let (c, q, ok) = parse_expr(t, 0);
    if !ok {
        c
    } else if tok(t, q) != TokenV::End {
        c.push(InstrV::Fail(unexpected_input_msg(q as nat)))
    } else {
        c
    }
}

/// The program of an expression text: a single `Fail` when it does not
/// tokenise, otherwise the program of its tokens.
pub open spec fn compile_spec(s: Seq<char>) -> Seq<InstrV> {
    match tokenise_spec(s) {
        Err(m) => seq![InstrV::Fail(m)],
        Ok(t) => compile_tokens_spec(t),
    }
}


// ── The compiler ─────────────────────────────────────────────────────────

/// What a parse function promises about the code it emits to `out` and the
/// position it returns, given the spec result `(c, q, ok)`.
pub open spec fn emitted(
    old_out: Seq<Instr>,
    new_out: Seq<Instr>,
    p: int,
    len: int,
    r: (usize, bool),
    spec: (Seq<InstrV>, int, bool),
) -> bool {
    &&& instrs_view(new_out) == instrs_view(old_out) + spec.0
    &&& r.1 == spec.2
    &&& spec.2 ==> r.0 == spec.1 && p <= spec.1 < len
}

proof fn lemma_push_view(before: Seq<Instr>, after: Seq<Instr>, i: InstrV)
    requires
        after.len() == before.len() + 1,
        after.drop_last() == before,
        after.last()@ == i,
    ensures
        instrs_view(after) == instrs_view(before).push(i),
{
    assert(instrs_view(after) =~= instrs_view(before).push(i)) by {
        assert forall|k: int| 0 <= k < before.len() implies after[k] == before[k] by {
            assert(after.drop_last()[k] == after[k]);
        }
    }
}

/// Appends `i` to the program.
fn emit(out: &mut Vec<Instr>, i: Instr)
    ensures
        instrs_view(final(out)@) == instrs_view(old(out)@).push(i@),
{
    let ghost iv = i@;
    out.push(i);
    proof {
        assert(out@.drop_last() =~= old(out)@);
        lemma_push_view(old(out)@, out@, iv);
    }
}

proof fn lemma_not_end_not_last(t: Seq<TokenV>, p: int)
    requires
        well_formed_tokens(t),
        0 <= p < t.len(),
        t[p] != TokenV::End,
    ensures
        p + 1 < t.len(),
{
}

/// How a token is named in an error message (see `token_name`).
fn token_name_exec(t: &Token) -> (s: String)
    ensures
        s@ == token_name(t@),
{
    let mut s = String::new();
    match t {
        Token::Num(x) => {
            s.append("Num(");
            s.append(x.as_str());
            s.append(")");
        },
        Token::Plus => s.append("Plus"),
        Token::Minus => s.append("Minus"),
        Token::Star => s.append("Star"),
        Token::Slash => s.append("Slash"),
        Token::Percent => s.append("Percent"),
        Token::Caret => s.append("Caret"),
        Token::LParen => s.append("LParen"),
        Token::RParen => s.append("RParen"),
        Token::Ident(x) => {
            s.append("Ident(\"");
            s.append(x.as_str());
            s.append("\")");
        },
        Token::End => s.append("End"),
    }
    assert(s@ =~= token_name(t@));
    s
}

/// `a` then `b` then `c`.
fn concat3(a: &str, b: &str, c: &str) -> (s: String)
    ensures
        s@ == a@ + b@ + c@,
{
    let mut s = String::new();
    s.append(a);
    s.append(b);
    s.append(c);
    assert(s@ =~= a@ + b@ + c@);
    s
}

fn parse_expr_exec(t: &Vec<Token>, p: usize, out: &mut Vec<Instr>) -> (r: (usize, bool))
    requires
        well_formed_tokens(tokens_view(t@)),
        p < t.len(),
    ensures
        emitted(old(out)@, final(out)@, p as int, t.len() as int, r, parse_expr(tokens_view(t@), p as int)),
    decreases t.len() - p, 8nat,
{
    let (q, ok) = parse_term_exec(t, p, out);
    if !ok {
        return (q, false);
    }
    let ghost mid = out@;
    let (q2, ok2) = expr_rest_exec(t, q, out);
    proof {
        let (c, _, _) = parse_term(tokens_view(t@), p as int);
        let (c2, _, _) = expr_rest(tokens_view(t@), q as int);
        assert(instrs_view(out@) =~= instrs_view(old(out)@) + (c + c2));
    }
    (q2, ok2)
}

fn expr_rest_exec(t: &Vec<Token>, p: usize, out: &mut Vec<Instr>) -> (r: (usize, bool))
    requires
        well_formed_tokens(tokens_view(t@)),
        p < t.len(),
    ensures
        emitted(old(out)@, final(out)@, p as int, t.len() as int, r, expr_rest(tokens_view(t@), p as int)),
    decreases t.len() - p, 7nat,
{
    let ghost tv = tokens_view(t@);
    assert(tv[p as int] == t@[p as int]@);
    let is_plus = match &t[p] {
        Token::Plus => true,
        Token::Minus => false,
        _ => {
            assert(instrs_view(out@) =~= instrs_view(old(out)@) + Seq::<InstrV>::empty());
            return (p, true);
        },
    };
    proof {
        lemma_not_end_not_last(tv, p as int);
    }
    let (q, ok) = parse_term_exec(t, p + 1, out);
    if !ok {
        return (q, false);
    }
    let ghost mid = out@;
    emit(out, if is_plus { Instr::Add } else { Instr::Sub });
    let (q2, ok2) = expr_rest_exec(t, q, out);
    proof {
        let (c, _, _) = parse_term(tv, p + 1);
        let bin = if is_plus { InstrV::Add } else { InstrV::Sub };
        let (c2, _, _) = expr_rest(tv, q as int);
        assert(instrs_view(out@) =~= instrs_view(old(out)@) + (c.push(bin) + c2));
    }
    (q2, ok2)
}

fn parse_term_exec(t: &Vec<Token>, p: usize, out: &mut Vec<Instr>) -> (r: (usize, bool))
    requires
        well_formed_tokens(tokens_view(t@)),
        p < t.len(),
    ensures
        emitted(old(out)@, final(out)@, p as int, t.len() as int, r, parse_term(tokens_view(t@), p as int)),
    decreases t.len() - p, 6nat,
{
    let (q, ok) = parse_power_exec(t, p, out);
    if !ok {
        return (q, false);
    }
    let (q2, ok2) = term_rest_exec(t, q, out);
    proof {
        let (c, _, _) = parse_power(tokens_view(t@), p as int);
        let (c2, _, _) = term_rest(tokens_view(t@), q as int);
        assert(instrs_view(out@) =~= instrs_view(old(out)@) + (c + c2));
    }
    (q2, ok2)
}

fn term_rest_exec(t: &Vec<Token>, p: usize, out: &mut Vec<Instr>) -> (r: (usize, bool))
    requires
        well_formed_tokens(tokens_view(t@)),
        p < t.len(),
    ensures
        emitted(old(out)@, final(out)@, p as int, t.len() as int, r, term_rest(tokens_view(t@), p as int)),
    decreases t.len() - p, 5nat,
{
    let ghost tv = tokens_view(t@);
    assert(tv[p as int] == t@[p as int]@);
    let which: u8 = match &t[p] {
        Token::Star => 0,
        Token::Slash => 1,
        Token::Percent => 2,
        _ => {
            assert(instrs_view(out@) =~= instrs_view(old(out)@) + Seq::<InstrV>::empty());
            return (p, true);
        },
    };
    proof {
        lemma_not_end_not_last(tv, p as int);
    }
    let (q, ok) = parse_power_exec(t, p + 1, out);
    if !ok {
        return (q, false);
    }
    emit(
        out,
        if which == 0 {
            Instr::Mul
        } else if which == 1 {
            Instr::Div
        } else {
            Instr::Rem
        },
    );
    let (q2, ok2) = term_rest_exec(t, q, out);
    proof {
        let (c, _, _) = parse_power(tv, p + 1);
        let bin = if which == 0 {
            InstrV::Mul
        } else if which == 1 {
            InstrV::Div
        } else {
            InstrV::Rem
        };
        let (c2, _, _) = term_rest(tv, q as int);
        assert(instrs_view(out@) =~= instrs_view(old(out)@) + (c.push(bin) + c2));
    }
    (q2, ok2)
}

fn parse_power_exec(t: &Vec<Token>, p: usize, out: &mut Vec<Instr>) -> (r: (usize, bool))
    requires
        well_formed_tokens(tokens_view(t@)),
        p < t.len(),
    ensures
        emitted(old(out)@, final(out)@, p as int, t.len() as int, r, parse_power(tokens_view(t@), p as int)),
    decreases t.len() - p, 4nat,
{
    let ghost tv = tokens_view(t@);
    let (q, ok) = parse_unary_exec(t, p, out);
    if !ok {
        return (q, false);
    }
    assert(tv[q as int] == t@[q as int]@);
    let caret = match &t[q] {
        Token::Caret => true,
        _ => false,
    };
    if !caret {
        return (q, true);
    }
    proof {
        lemma_not_end_not_last(tv, q as int);
    }
    let (q2, ok2) = parse_power_exec(t, q + 1, out);
    if !ok2 {
        proof {
            let (c, _, _) = parse_unary(tv, p as int);
            let (c2, _, _) = parse_power(tv, q + 1);
            assert(instrs_view(out@) =~= instrs_view(old(out)@) + (c + c2));
        }
        return (q2, false);
    }
    emit(out, Instr::Pow);
    proof {
        let (c, _, _) = parse_unary(tv, p as int);
        let (c2, _, _) = parse_power(tv, q + 1);
        assert(instrs_view(out@) =~= instrs_view(old(out)@) + (c + c2.push(InstrV::Pow)));
    }
    (q2, true)
}

fn parse_unary_exec(t: &Vec<Token>, p: usize, out: &mut Vec<Instr>) -> (r: (usize, bool))
    requires
        well_formed_tokens(tokens_view(t@)),
        p < t.len(),
    ensures
        emitted(old(out)@, final(out)@, p as int, t.len() as int, r, parse_unary(tokens_view(t@), p as int)),
    decreases t.len() - p, 3nat,
{
    let ghost tv = tokens_view(t@);
    assert(tv[p as int] == t@[p as int]@);
    let neg = match &t[p] {
        Token::Minus => true,
        _ => false,
    };
    if !neg {
        return parse_primary_exec(t, p, out);
    }
    proof {
        lemma_not_end_not_last(tv, p as int);
    }
    let (q, ok) = parse_primary_exec(t, p + 1, out);
    if !ok {
        return (q, false);
    }
    emit(out, Instr::Neg);
    (q, true)
}

fn parse_primary_exec(t: &Vec<Token>, p: usize, out: &mut Vec<Instr>) -> (r: (usize, bool))
    requires
        well_formed_tokens(tokens_view(t@)),
        p < t.len(),
    ensures
        emitted(old(out)@, final(out)@, p as int, t.len() as int, r, parse_primary(tokens_view(t@), p as int)),
    decreases t.len() - p, 2nat,
{
    let ghost tv = tokens_view(t@);
    assert(tv[p as int] == t@[p as int]@);
    match &t[p] {
        Token::Num(s) => {
            proof {
                lemma_not_end_not_last(tv, p as int);
            }
            emit(out, Instr::Num(s.clone()));
            assert(instrs_view(out@) =~= instrs_view(old(out)@) + seq![InstrV::Num(s@)]);
            (p + 1, true)
        },
        Token::LParen => parse_group_exec(t, p, out),
        Token::Ident(name) => parse_ident_exec(t, p, name.as_str(), out),
        other => {
            let mut m = String::new();
            m.append("Unexpected token: ");
            let nm = token_name_exec(other);
            m.append(nm.as_str());
            assert(m@ =~= unexpected_token_msg(other@));
            let ghost mv = m@;
            emit(out, Instr::Fail(m));
            assert(instrs_view(out@) =~= instrs_view(old(out)@) + seq![InstrV::Fail(mv)]);
            (p, false)
        },
    }
}

/// The primary at `p`, an opening parenthesis: the expression inside and
/// the closing parenthesis.
#[verifier::rlimit(80)]
fn parse_group_exec(t: &Vec<Token>, p: usize, out: &mut Vec<Instr>) -> (r: (usize, bool))
    requires
        well_formed_tokens(tokens_view(t@)),
        p < t.len(),
        tokens_view(t@)[p as int] == TokenV::LParen,
    ensures
        emitted(old(out)@, final(out)@, p as int, t.len() as int, r, parse_primary(tokens_view(t@), p as int)),
    decreases t.len() - p, 1nat,
{
    let ghost tv = tokens_view(t@);
        proof {
            lemma_not_end_not_last(tv, p as int);
        }
        let (q, ok) = parse_expr_exec(t, p + 1, out);
        if !ok {
            return (q, false);
        }
        assert(tv[q as int] == t@[q as int]@);
        let close = match &t[q] {
            Token::RParen => true,
            _ => false,
        };
        if close {
            proof {
                lemma_not_end_not_last(tv, q as int);
            }
            (q + 1, true)
        } else {
            let mut m = String::new();
            m.append("Expected ')'");
            assert(m@ =~= expected_rparen_msg());
            emit(out, Instr::Fail(m));
            proof {
                let (c, _, _) = parse_expr(tv, p + 1);
                assert(instrs_view(out@) =~= instrs_view(old(out)@) + c.push(InstrV::Fail(expected_rparen_msg())));
            }
            (q, false)
        }
}

/// The primary at `p`, an identifier named `n`: a constant, or a function
/// applied to a parenthesised argument.
fn parse_ident_exec(t: &Vec<Token>, p: usize, n: &str, out: &mut Vec<Instr>) -> (r: (usize, bool))
    requires
        well_formed_tokens(tokens_view(t@)),
        p < t.len(),
        tokens_view(t@)[p as int] == TokenV::Ident(n@),
    ensures
        emitted(old(out)@, final(out)@, p as int, t.len() as int, r, parse_ident(tokens_view(t@), p as int, n@)),
    decreases t.len() - p, 1nat,
{
    let ghost tv = tokens_view(t@);
    proof {
        lemma_not_end_not_last(tv, p as int);
    }
    if str_eq(n, "pi") || str_eq(n, "\u{3c0}") {
        emit(out, Instr::Pi);
        assert(instrs_view(out@) =~= instrs_view(old(out)@) + seq![InstrV::Pi]);
        return (p + 1, true);
    }
    if str_eq(n, "e") {
        emit(out, Instr::E);
        assert(instrs_view(out@) =~= instrs_view(old(out)@) + seq![InstrV::E]);
        return (p + 1, true);
    }
    assert(tv[p + 1] == t@[p + 1]@);
    let open = match &t[p + 1] {
        Token::LParen => true,
        _ => false,
    };
    if !open {
        let m = concat3("Unknown identifier '", n, "'");
        let ghost mv = m@;
        emit(out, Instr::Fail(m));
        assert(instrs_view(out@) =~= instrs_view(old(out)@) + seq![InstrV::Fail(mv)]);
        return (p + 1, false);
    }
    proof {
        lemma_not_end_not_last(tv, p + 1);
    }
    parse_call_exec(t, p, n, out)
}

/// A function call at `p` (see `parse_call`).
#[verifier::rlimit(80)]
fn parse_call_exec(t: &Vec<Token>, p: usize, n: &str, out: &mut Vec<Instr>) -> (r: (usize, bool))
    requires
        well_formed_tokens(tokens_view(t@)),
        p + 2 < t.len(),
        tokens_view(t@)[p + 1] == TokenV::LParen,
    ensures
        emitted(old(out)@, final(out)@, p as int, t.len() as int, r, parse_call(tokens_view(t@), p as int, n@)),
    decreases t.len() - p, 0nat,
{
    let ghost tv = tokens_view(t@);
    let (q, ok) = parse_expr_exec(t, p + 2, out);
    if !ok {
        return (q, false);
    }
    let ghost c = parse_expr(tv, p + 2).0;
    let ghost mid = out@;
    assert(instrs_view(mid) == instrs_view(old(out)@) + c);
    assert(tv[q as int] == t@[q as int]@);
    let close = match &t[q] {
        Token::RParen => true,
        _ => false,
    };
    if !close {
        let m = concat3("Expected ')' after ", n, "(...)");
        let ghost mv = m@;
        emit(out, Instr::Fail(m));
        assert(instrs_view(out@) =~= instrs_view(old(out)@) + c.push(InstrV::Fail(mv)));
        return (q, false);
    }
    proof {
        lemma_not_end_not_last(tv, q as int);
    }
    match Func::from_name(n) {
        Some(f) => {
            emit(out, Instr::Call(f));
            assert(instrs_view(out@) =~= instrs_view(old(out)@) + c.push(InstrV::Call(f)));
            (q + 1, true)
        },
        None => {
            let m = concat3("Unknown function '", n, "'");
            let ghost mv = m@;
            emit(out, Instr::Fail(m));
            assert(instrs_view(out@) =~= instrs_view(old(out)@) + c.push(InstrV::Fail(mv)));
            (q + 1, false)
        },
    }
}

/// Compiles a token sequence as the tokeniser makes it (see
/// `compile_tokens_spec`).
pub fn compile_tokens(t: &Vec<Token>) -> (code: Vec<Instr>)
    requires
        well_formed_tokens(tokens_view(t@)),
    ensures
        instrs_view(code@) == compile_tokens_spec(tokens_view(t@)),
{
    let mut out: Vec<Instr> = Vec::new();
    assert(instrs_view(out@) =~= Seq::<InstrV>::empty());
    let (q, ok) = parse_expr_exec(t, 0, &mut out);
    if ok {
        let ghost tv = tokens_view(t@);
        assert(tv[q as int] == t@[q as int]@);
        let at_end = match &t[q] {
            Token::End => true,
            _ => false,
        };
        if !at_end {
            let mut m = String::new();
            m.append("Unexpected input at position ");
            push_radix_digits(&mut m, q as u64, 10);
            assert(m@ =~= unexpected_input_msg(q as nat));
            emit(&mut out, Instr::Fail(m));
        }
    }
    out
}

/// The tokens that the tokeniser makes are well formed.
pub proof fn lemma_tokens_well_formed(s: Seq<char>, i: int)
    ensures
        tokens_from(s, i) matches Ok(ts) ==> well_formed_tokens(ts),
    decreases s.len() - i,
{
    if i < 0 || i >= s.len() {
    } else {
        let c = s[i];
        if c == ' ' || c == '\t' {
            lemma_tokens_well_formed(s, i + 1);
        } else if crate::lexer::is_dec_digit(c) || c == '.' {
            let j = crate::lexer::number_end(s, i, false);
            crate::lexer::lemma_number_end_ge(s, i + 1, false);
            lemma_tokens_well_formed(s, j);
            lemma_prepend_well_formed(TokenV::Num(s.subrange(i, j)), tokens_from(s, j));
        } else if crate::lexer::ident_start(c) {
            let j = crate::lexer::ident_end(s, i + 1);
            crate::lexer::lemma_ident_end_ge(s, i + 1);
            lemma_tokens_well_formed(s, j);
            lemma_prepend_well_formed(TokenV::Ident(s.subrange(i, j)), tokens_from(s, j));
        } else {
            lemma_tokens_well_formed(s, i + 1);
            lemma_prepend_well_formed(TokenV::Plus, tokens_from(s, i + 1));
            lemma_prepend_well_formed(TokenV::Minus, tokens_from(s, i + 1));
            lemma_prepend_well_formed(TokenV::Star, tokens_from(s, i + 1));
            lemma_prepend_well_formed(TokenV::Slash, tokens_from(s, i + 1));
            lemma_prepend_well_formed(TokenV::Percent, tokens_from(s, i + 1));
            lemma_prepend_well_formed(TokenV::Caret, tokens_from(s, i + 1));
            lemma_prepend_well_formed(TokenV::LParen, tokens_from(s, i + 1));
            lemma_prepend_well_formed(TokenV::RParen, tokens_from(s, i + 1));
        }
    }
}

proof fn lemma_prepend_well_formed(t: TokenV, r: Result<Seq<TokenV>, Seq<char>>)
    requires
        t != TokenV::End,
        r matches Ok(ts) ==> well_formed_tokens(ts),
    ensures
        prepend(t, r) matches Ok(ts) ==> well_formed_tokens(ts),
{
    if let Ok(ts) = r {
        let all = seq![t] + ts;
        assert forall|i: int| 0 <= i < all.len() - 1 implies all[i] != TokenV::End by {
            if i > 0 {
                assert(all[i] == ts[i - 1]);
            }
        }
    }
}

/// Compiles an expression text (see `compile_spec`).
pub fn compile(expr: &str) -> (code: Vec<Instr>)
    ensures
        instrs_view(code@) == compile_spec(expr@),
{
    match tokenise(expr) {
        Ok(toks) => {
            proof {
                lemma_tokens_well_formed(expr@, 0);
            }
            compile_tokens(&toks)
        },
        Err(m) => {
            let mut out: Vec<Instr> = Vec::new();
            let ghost mv = m@;
            emit(&mut out, Instr::Fail(m));
            assert(instrs_view(out@) =~= seq![InstrV::Fail(mv)]);
            out
        },
    }
}


// ── Law: the shape of a compiled program ─────────────────────────────────

/// How many values an instruction takes from the stack.
pub open spec fn needs(i: InstrV) -> int {
    match i {
        InstrV::Neg | InstrV::Call(_) => 1,
        InstrV::Add | InstrV::Sub | InstrV::Mul | InstrV::Div | InstrV::Rem | InstrV::Pow => 2,
        _ => 0,
    }
}

/// By how much an instruction changes the stack depth.
pub open spec fn delta(i: InstrV) -> int {
    match i {
        InstrV::Num(_) | InstrV::Pi | InstrV::E => 1,
        InstrV::Add | InstrV::Sub | InstrV::Mul | InstrV::Div | InstrV::Rem | InstrV::Pow => -1,
        _ => 0,
    }
}

/// The program runs from stack depth `d` without a `Fail`, never takes a
/// value that is not there, and each number literal in it is one that Rust's
/// `f64` parser reads.
pub open spec fn runs(code: Seq<InstrV>, d: int) -> bool
    decreases code.len(),
{
    code.len() == 0 || {
        &&& !(code[0] is Fail)
        &&& d >= needs(code[0])
        &&& (code[0] matches InstrV::Num(s) ==> valid_float(s))
        &&& runs(code.drop_first(), d + delta(code[0]))
    }
}

/// The change of stack depth over the whole program.
pub open spec fn net(code: Seq<InstrV>) -> int
    decreases code.len(),
{
    if code.len() == 0 {
        0
    } else {
        delta(code[0]) + net(code.drop_first())
    }
}

/// What a compiled program looks like: either it runs from an empty stack
/// and leaves exactly one value, or it is such a run followed by one `Fail`.
pub open spec fn program_shape(code: Seq<InstrV>) -> bool {
    ||| runs(code, 0) && net(code) == 1
    ||| code.len() > 0 && code.last() is Fail && runs(code.drop_last(), 0)
}

/// A parse result's code: when it succeeded it runs from depth `d` and
/// changes the depth by `n`; when it failed it is such a run followed by one
/// `Fail`. A successful parse ends after `p` (strictly when `strict`).
pub open spec fn shaped(r: (Seq<InstrV>, int, bool), p: int, d: int, n: int, strict: bool) -> bool {
    if r.2 {
        &&& runs(r.0, d)
        &&& net(r.0) == n
        &&& if strict { r.1 > p } else { r.1 >= p }
    } else {
        &&& r.0.len() > 0
        &&& r.0.last() is Fail
        &&& runs(r.0.drop_last(), d)
    }
}

/// Every number token holds a literal that Rust's `f64` parser reads.
pub open spec fn numbers_valid(t: Seq<TokenV>) -> bool {
    forall|i: int| 0 <= i < t.len() ==> (#[trigger] t[i] matches TokenV::Num(s) ==> valid_float(s))
}

proof fn lemma_runs_concat(a: Seq<InstrV>, b: Seq<InstrV>, d: int)
    requires
        runs(a, d),
        runs(b, d + net(a)),
    ensures
        runs(a + b, d),
        net(a + b) == net(a) + net(b),
    decreases a.len(),
{
    if a.len() == 0 {
        assert(a + b =~= b);
    } else {
        assert((a + b).drop_first() =~= a.drop_first() + b);
        lemma_runs_concat(a.drop_first(), b, d + delta(a[0]));
    }
}

proof fn lemma_runs_mono(a: Seq<InstrV>, d: int, e: int)
    requires
        runs(a, d),
        d <= e,
    ensures
        runs(a, e),
    decreases a.len(),
{
    if a.len() > 0 {
        lemma_runs_mono(a.drop_first(), d + delta(a[0]), e + delta(a[0]));
    }
}

proof fn lemma_runs_one(i: InstrV, d: int)
    requires
        !(i is Fail),
        d >= needs(i),
        i matches InstrV::Num(s) ==> valid_float(s),
    ensures
        runs(seq![i], d),
        net(seq![i]) == delta(i),
{
    assert(seq![i].drop_first() =~= Seq::<InstrV>::empty());
    assert(seq![i][0] == i);
    assert(runs(Seq::<InstrV>::empty(), d + delta(i)));
    assert(net(Seq::<InstrV>::empty()) == 0);
}

/// `c` followed by `i` runs from `d` when `c` does and `i` can follow.
proof fn lemma_runs_push(c: Seq<InstrV>, i: InstrV, d: int)
    requires
        runs(c, d),
        !(i is Fail),
        d + net(c) >= needs(i),
        i matches InstrV::Num(s) ==> valid_float(s),
    ensures
        runs(c.push(i), d),
        net(c.push(i)) == net(c) + delta(i),
{
    lemma_runs_one(i, d + net(c));
    lemma_runs_concat(c, seq![i], d);
    assert(c + seq![i] =~= c.push(i));
}

/// A failed `c` followed by more code, then failing: the part before the
/// final `Fail` of `c + f` runs when `c` runs and `f` is a failed result.
proof fn lemma_fail_after(c: Seq<InstrV>, f: Seq<InstrV>, d: int)
    requires
        runs(c, d),
        f.len() > 0,
        f.last() is Fail,
        runs(f.drop_last(), d + net(c)),
    ensures
        (c + f).len() > 0,
        (c + f).last() is Fail,
        runs((c + f).drop_last(), d),
{
    assert((c + f).drop_last() =~= c + f.drop_last());
    lemma_runs_concat(c, f.drop_last(), d);
}

proof fn lemma_fail_one(m: Seq<char>, d: int)
    ensures
        shaped((seq![InstrV::Fail(m)], 0, false), 0, d, 0, false),
{
    assert(seq![InstrV::Fail(m)].drop_last() =~= Seq::<InstrV>::empty());
}

proof fn lemma_fail_push(c: Seq<InstrV>, m: Seq<char>, d: int)
    requires
        runs(c, d),
    ensures
        c.push(InstrV::Fail(m)).len() > 0,
        c.push(InstrV::Fail(m)).last() is Fail,
        runs(c.push(InstrV::Fail(m)).drop_last(), d),
{
    assert(c.push(InstrV::Fail(m)).drop_last() =~= c);
}

proof fn lemma_shape_expr(t: Seq<TokenV>, p: int)
    requires
        numbers_valid(t),
    ensures
        shaped(parse_expr(t, p), p, 0, 1, true),
    decreases rem(t, p), 8nat,
{
    let (c, q, ok) = parse_term(t, p);
    lemma_shape_term(t, p);
    if ok && q >= p {
        let (c2, q2, ok2) = expr_rest(t, q);
        lemma_shape_expr_rest(t, q);
        if ok2 {
            lemma_runs_mono(c2, 1, 0 + net(c));
            lemma_runs_concat(c, c2, 0);
        } else {
            lemma_runs_mono(c2.drop_last(), 1, net(c));
            lemma_fail_after(c, c2, 0);
        }
    }
}

proof fn lemma_shape_expr_rest(t: Seq<TokenV>, p: int)
    requires
        numbers_valid(t),
    ensures
        shaped(expr_rest(t, p), p, 1, 0, false),
    decreases rem(t, p), 7nat,
{
    let op = tok(t, p);
    if (op == TokenV::Plus || op == TokenV::Minus) && 0 <= p {
        let (c, q, ok) = parse_term(t, p + 1);
        lemma_shape_term(t, p + 1);
        if !ok {
            lemma_runs_mono(c.drop_last(), 0, 1);
        } else if q > p {
            let bin = if op == TokenV::Plus { InstrV::Add } else { InstrV::Sub };
            let (c2, q2, ok2) = expr_rest(t, q);
            lemma_shape_expr_rest(t, q);
            lemma_runs_mono(c, 0, 1);
            lemma_runs_push(c, bin, 1);
            if ok2 {
                lemma_runs_concat(c.push(bin), c2, 1);
            } else {
                lemma_fail_after(c.push(bin), c2, 1);
            }
        }
    } else {
        assert(runs(Seq::<InstrV>::empty(), 1));
    }
}

proof fn lemma_shape_term(t: Seq<TokenV>, p: int)
    requires
        numbers_valid(t),
    ensures
        shaped(parse_term(t, p), p, 0, 1, true),
    decreases rem(t, p), 6nat,
{
    let (c, q, ok) = parse_power(t, p);
    lemma_shape_power(t, p);
    if ok && q >= p {
        let (c2, q2, ok2) = term_rest(t, q);
        lemma_shape_term_rest(t, q);
        if ok2 {
            lemma_runs_mono(c2, 1, net(c));
            lemma_runs_concat(c, c2, 0);
        } else {
            lemma_runs_mono(c2.drop_last(), 1, net(c));
            lemma_fail_after(c, c2, 0);
        }
    }
}

proof fn lemma_shape_term_rest(t: Seq<TokenV>, p: int)
    requires
        numbers_valid(t),
    ensures
        shaped(term_rest(t, p), p, 1, 0, false),
    decreases rem(t, p), 5nat,
{
    let op = tok(t, p);
    if (op == TokenV::Star || op == TokenV::Slash || op == TokenV::Percent) && 0 <= p {
        let (c, q, ok) = parse_power(t, p + 1);
        lemma_shape_power(t, p + 1);
        if !ok {
            lemma_runs_mono(c.drop_last(), 0, 1);
        } else if q > p {
            let bin = if op == TokenV::Star {
                InstrV::Mul
            } else if op == TokenV::Slash {
                InstrV::Div
            } else {
                InstrV::Rem
            };
            let (c2, q2, ok2) = term_rest(t, q);
            lemma_shape_term_rest(t, q);
            lemma_runs_mono(c, 0, 1);
            lemma_runs_push(c, bin, 1);
            if ok2 {
                lemma_runs_concat(c.push(bin), c2, 1);
            } else {
                lemma_fail_after(c.push(bin), c2, 1);
            }
        }
    } else {
        assert(runs(Seq::<InstrV>::empty(), 1));
    }
}

proof fn lemma_shape_power(t: Seq<TokenV>, p: int)
    requires
        numbers_valid(t),
    ensures
        shaped(parse_power(t, p), p, 0, 1, true),
    decreases rem(t, p), 4nat,
{
    let (c, q, ok) = parse_unary(t, p);
    lemma_shape_unary(t, p);
    if ok && q >= p && tok(t, q) == TokenV::Caret {
        let (c2, q2, ok2) = parse_power(t, q + 1);
        lemma_shape_power(t, q + 1);
        if ok2 {
            lemma_runs_mono(c2, 0, net(c));
            lemma_runs_concat(c, c2, 0);
            lemma_runs_push(c + c2, InstrV::Pow, 0);
            assert(c + c2.push(InstrV::Pow) =~= (c + c2).push(InstrV::Pow));
        } else {
            lemma_runs_mono(c2.drop_last(), 0, net(c));
            lemma_fail_after(c, c2, 0);
        }
    }
}

proof fn lemma_shape_unary(t: Seq<TokenV>, p: int)
    requires
        numbers_valid(t),
    ensures
        shaped(parse_unary(t, p), p, 0, 1, true),
    decreases rem(t, p), 3nat,
{
    if tok(t, p) == TokenV::Minus && 0 <= p {
        let (c, q, ok) = parse_primary(t, p + 1);
        lemma_shape_primary(t, p + 1);
        if ok {
            lemma_runs_push(c, InstrV::Neg, 0);
        }
    } else {
        lemma_shape_primary(t, p);
    }
}

proof fn lemma_shape_primary(t: Seq<TokenV>, p: int)
    requires
        numbers_valid(t),
    ensures
        shaped(parse_primary(t, p), p, 0, 1, true),
    decreases rem(t, p), 2nat,
{
    if p < 0 {
        lemma_fail_one(unexpected_token_msg(TokenV::End), 0);
    } else {
        match tok(t, p) {
            TokenV::Num(s) => {
                assert(t[p] matches TokenV::Num(s) ==> valid_float(s));
                lemma_runs_one(InstrV::Num(s), 0);
            },
            TokenV::LParen => {
                let (c, q, ok) = parse_expr(t, p + 1);
                lemma_shape_expr(t, p + 1);
                if ok && tok(t, q) != TokenV::RParen {
                    lemma_fail_push(c, expected_rparen_msg(), 0);
                }
            },
            TokenV::Ident(name) => {
                lemma_shape_ident(t, p, name);
            },
            other => {
                lemma_fail_one(unexpected_token_msg(other), 0);
            },
        }
    }
}

proof fn lemma_shape_ident(t: Seq<TokenV>, p: int, name: Seq<char>)
    requires
        numbers_valid(t),
    ensures
        shaped(parse_ident(t, p, name), p, 0, 1, true),
    decreases rem(t, p), 1nat,
{
    if name == "pi"@ || name == "\u{3c0}"@ {
        lemma_runs_one(InstrV::Pi, 0);
    } else if name == "e"@ {
        lemma_runs_one(InstrV::E, 0);
    } else if tok(t, p + 1) == TokenV::LParen {
        lemma_shape_call(t, p, name);
    } else {
        lemma_fail_one(unknown_ident_msg(name), 0);
    }
}

proof fn lemma_shape_call(t: Seq<TokenV>, p: int, name: Seq<char>)
    requires
        numbers_valid(t),
        tok(t, p + 1) == TokenV::LParen,
    ensures
        shaped(parse_call(t, p, name), p, 0, 1, true),
    decreases rem(t, p), 0nat,
{
    let (c, q, ok) = parse_expr(t, p + 2);
    lemma_shape_expr(t, p + 2);
    if ok {
        if tok(t, q) == TokenV::RParen {
            match func_of_name(name) {
                Some(f) => {
                    lemma_runs_push(c, InstrV::Call(f), 0);
                },
                None => {
                    lemma_fail_push(c, unknown_function_msg(name), 0);
                },
            }
        } else {
            lemma_fail_push(c, expected_rparen_after_msg(name), 0);
        }
    }
}

proof fn lemma_tokens_numbers_valid(s: Seq<char>, i: int)
    ensures
        tokens_from(s, i) matches Ok(ts) ==> numbers_valid(ts),
    decreases s.len() - i,
{
    if 0 <= i < s.len() {
        let c = s[i];
        if c == ' ' || c == '\t' {
            lemma_tokens_numbers_valid(s, i + 1);
        } else if crate::lexer::is_dec_digit(c) || c == '.' {
            let j = crate::lexer::number_end(s, i, false);
            crate::lexer::lemma_number_end_ge(s, i + 1, false);
            lemma_tokens_numbers_valid(s, j);
            if crate::lexer::valid_float(s.subrange(i, j)) {
                lemma_prepend_numbers_valid(TokenV::Num(s.subrange(i, j)), tokens_from(s, j));
            }
        } else if crate::lexer::ident_start(c) {
            let j = crate::lexer::ident_end(s, i + 1);
            crate::lexer::lemma_ident_end_ge(s, i + 1);
            lemma_tokens_numbers_valid(s, j);
            lemma_prepend_numbers_valid(TokenV::Ident(s.subrange(i, j)), tokens_from(s, j));
        } else {
            lemma_tokens_numbers_valid(s, i + 1);
            let r = tokens_from(s, i + 1);
            lemma_prepend_numbers_valid(TokenV::Plus, r);
            lemma_prepend_numbers_valid(TokenV::Minus, r);
            lemma_prepend_numbers_valid(TokenV::Star, r);
            lemma_prepend_numbers_valid(TokenV::Slash, r);
            lemma_prepend_numbers_valid(TokenV::Percent, r);
            lemma_prepend_numbers_valid(TokenV::Caret, r);
            lemma_prepend_numbers_valid(TokenV::LParen, r);
            lemma_prepend_numbers_valid(TokenV::RParen, r);
        }
    } else {
        assert(numbers_valid(seq![TokenV::End]));
    }
}

proof fn lemma_prepend_numbers_valid(t: TokenV, r: Result<Seq<TokenV>, Seq<char>>)
    requires
        t matches TokenV::Num(s) ==> valid_float(s),
        r matches Ok(ts) ==> numbers_valid(ts),
    ensures
        prepend(t, r) matches Ok(ts) ==> numbers_valid(ts),
{
    if let Ok(ts) = r {
        let all = seq![t] + ts;
        assert forall|i: int| 0 <= i < all.len() implies (#[trigger] all[i] matches TokenV::Num(s)
            ==> valid_float(s)) by {
            if i > 0 {
                assert(all[i] == ts[i - 1]);
            }
        }
    }
}

/// Law: every compiled program either computes exactly one value — it has
/// no `Fail`, never takes a value from an empty stack and leaves one value —
/// or it is such a run followed by its single `Fail`; and every number literal
/// in it is one that Rust's `f64` parser reads.
pub proof fn lemma_program_shape(s: Seq<char>)
    ensures
        program_shape(compile_spec(s)),
{
    match tokenise_spec(s) {
        Err(m) => {
            lemma_fail_one(m, 0);
        },
        Ok(t) => {
            lemma_tokens_numbers_valid(s, 0);
            lemma_shape_expr(t, 0);
            let (c, q, ok) = parse_expr(t, 0);
            if ok && tok(t, q) != TokenV::End {
                lemma_fail_push(c, unexpected_input_msg(q as nat), 0);
            }
        },
    }
}


// ── Laws: precedence and associativity ───────────────────────────────────

/// The instruction that a binary operator token stands for.
pub open spec fn binary_instr(o: TokenV) -> InstrV {
    match o {
        TokenV::Plus => InstrV::Add,
        TokenV::Minus => InstrV::Sub,
        TokenV::Star => InstrV::Mul,
        TokenV::Slash => InstrV::Div,
        TokenV::Percent => InstrV::Rem,
        _ => InstrV::Pow,
    }
}

/// `+` or `-`.
pub open spec fn is_additive(o: TokenV) -> bool {
    o == TokenV::Plus || o == TokenV::Minus
}

/// `*`, `/` or `%`.
pub open spec fn is_multiplicative(o: TokenV) -> bool {
    o == TokenV::Star || o == TokenV::Slash || o == TokenV::Percent
}

/// The tokens of `a o1 b o2 c` for three number literals.
pub open spec fn three_numbers(a: Seq<char>, o1: TokenV, b: Seq<char>, o2: TokenV, c: Seq<char>) -> Seq<TokenV> {
    seq![TokenV::Num(a), o1, TokenV::Num(b), o2, TokenV::Num(c), TokenV::End]
}

/// A number at `p` not followed by `^` is a power of its own.
proof fn lemma_number_power(t: Seq<TokenV>, p: int, a: Seq<char>)
    requires
        0 <= p < t.len(),
        t[p] == TokenV::Num(a),
        tok(t, p + 1) != TokenV::Caret,
    ensures
        parse_power(t, p) == (seq![InstrV::Num(a)], p + 1, true),
{
    assert(tok(t, p) == TokenV::Num(a));
    assert(parse_primary(t, p) == (seq![InstrV::Num(a)], p + 1, true));
    assert(parse_unary(t, p) == parse_primary(t, p));
}

/// Law: `*`, `/` and `%` group to the left: `a o1 b o2 c` computes
/// `(a o1 b) o2 c`, so its program is `a b o1 c o2`.
pub proof fn lemma_multiplicative_left_assoc(a: Seq<char>, o1: TokenV, b: Seq<char>, o2: TokenV, c: Seq<char>)
    requires
        is_multiplicative(o1),
        is_multiplicative(o2),
    ensures
        compile_tokens_spec(three_numbers(a, o1, b, o2, c)) == seq![
            InstrV::Num(a),
            InstrV::Num(b),
            binary_instr(o1),
            InstrV::Num(c),
            binary_instr(o2),
        ],
{
    let t = three_numbers(a, o1, b, o2, c);
    lemma_number_power(t, 0, a);
    lemma_number_power(t, 2, b);
    lemma_number_power(t, 4, c);
    assert(tok(t, 5) == TokenV::End);
    assert(term_rest(t, 5) == (Seq::<InstrV>::empty(), 5int, true));
    assert(term_rest(t, 3) == (seq![InstrV::Num(c)].push(binary_instr(o2)) + Seq::<InstrV>::empty(), 5int, true));
    let r3 = seq![InstrV::Num(c), binary_instr(o2)];
    assert(seq![InstrV::Num(c)].push(binary_instr(o2)) + Seq::<InstrV>::empty() =~= r3);
    assert(term_rest(t, 1) == (seq![InstrV::Num(b)].push(binary_instr(o1)) + r3, 5int, true));
    let r1 = seq![InstrV::Num(b), binary_instr(o1), InstrV::Num(c), binary_instr(o2)];
    assert(seq![InstrV::Num(b)].push(binary_instr(o1)) + r3 =~= r1);
    assert(parse_term(t, 0) == (seq![InstrV::Num(a)] + r1, 5int, true));
    assert(expr_rest(t, 5) == (Seq::<InstrV>::empty(), 5int, true));
    let all = seq![InstrV::Num(a)] + r1;
    assert(parse_expr(t, 0) == (all + Seq::<InstrV>::empty(), 5int, true));
    assert(all + Seq::<InstrV>::empty() =~= all);
    assert(all =~= seq![InstrV::Num(a), InstrV::Num(b), binary_instr(o1), InstrV::Num(c), binary_instr(o2)]);
}

/// Law: `+` and `-` group to the left: `a o1 b o2 c` computes
/// `(a o1 b) o2 c`, so its program is `a b o1 c o2`.
pub proof fn lemma_additive_left_assoc(a: Seq<char>, o1: TokenV, b: Seq<char>, o2: TokenV, c: Seq<char>)
    requires
        is_additive(o1),
        is_additive(o2),
    ensures
        compile_tokens_spec(three_numbers(a, o1, b, o2, c)) == seq![
            InstrV::Num(a),
            InstrV::Num(b),
            binary_instr(o1),
            InstrV::Num(c),
            binary_instr(o2),
        ],
{
    let t = three_numbers(a, o1, b, o2, c);
    lemma_number_power(t, 0, a);
    lemma_number_power(t, 2, b);
    lemma_number_power(t, 4, c);
    assert(tok(t, 5) == TokenV::End);
    let e = Seq::<InstrV>::empty();
    assert(term_rest(t, 1) == (e, 1int, true));
    assert(term_rest(t, 3) == (e, 3int, true));
    assert(term_rest(t, 5) == (e, 5int, true));
    assert(parse_term(t, 0) == (seq![InstrV::Num(a)] + e, 1int, true));
    assert(parse_term(t, 2) == (seq![InstrV::Num(b)] + e, 3int, true));
    assert(parse_term(t, 4) == (seq![InstrV::Num(c)] + e, 5int, true));
    assert(seq![InstrV::Num(a)] + e =~= seq![InstrV::Num(a)]);
    assert(seq![InstrV::Num(b)] + e =~= seq![InstrV::Num(b)]);
    assert(seq![InstrV::Num(c)] + e =~= seq![InstrV::Num(c)]);
    assert(expr_rest(t, 5) == (e, 5int, true));
    let r3 = seq![InstrV::Num(c), binary_instr(o2)];
    assert(expr_rest(t, 3) == (seq![InstrV::Num(c)].push(binary_instr(o2)) + e, 5int, true));
    assert(seq![InstrV::Num(c)].push(binary_instr(o2)) + e =~= r3);
    let r1 = seq![InstrV::Num(b), binary_instr(o1), InstrV::Num(c), binary_instr(o2)];
    assert(expr_rest(t, 1) == (seq![InstrV::Num(b)].push(binary_instr(o1)) + r3, 5int, true));
    assert(seq![InstrV::Num(b)].push(binary_instr(o1)) + r3 =~= r1);
    assert(parse_expr(t, 0) == (seq![InstrV::Num(a)] + r1, 5int, true));
    assert(seq![InstrV::Num(a)] + r1 =~= seq![
        InstrV::Num(a),
        InstrV::Num(b),
        binary_instr(o1),
        InstrV::Num(c),
        binary_instr(o2),
    ]);
}

/// Law: `*`, `/` and `%` bind tighter than `+` and `-`, on either side:
/// `a + b * c` is `a + (b * c)`, with program `a b c * +`, and
/// `a * b + c` is `(a * b) + c`, with program `a b * c +`.
pub proof fn lemma_precedence(a: Seq<char>, o1: TokenV, b: Seq<char>, o2: TokenV, c: Seq<char>)
    requires
        (is_additive(o1) && is_multiplicative(o2)) || (is_multiplicative(o1) && is_additive(o2)),
    ensures
        is_additive(o1) ==> compile_tokens_spec(three_numbers(a, o1, b, o2, c)) == seq![
            InstrV::Num(a),
            InstrV::Num(b),
            InstrV::Num(c),
            binary_instr(o2),
            binary_instr(o1),
        ],
        is_multiplicative(o1) ==> compile_tokens_spec(three_numbers(a, o1, b, o2, c)) == seq![
            InstrV::Num(a),
            InstrV::Num(b),
            binary_instr(o1),
            InstrV::Num(c),
            binary_instr(o2),
        ],
{
    let t = three_numbers(a, o1, b, o2, c);
    lemma_number_power(t, 0, a);
    lemma_number_power(t, 2, b);
    lemma_number_power(t, 4, c);
    assert(tok(t, 5) == TokenV::End);
    let e = Seq::<InstrV>::empty();
    assert(term_rest(t, 5) == (e, 5int, true));
    assert(expr_rest(t, 5) == (e, 5int, true));
    if is_additive(o1) {
        assert(term_rest(t, 1) == (e, 1int, true));
        assert(parse_term(t, 0) == (seq![InstrV::Num(a)] + e, 1int, true));
        assert(seq![InstrV::Num(a)] + e =~= seq![InstrV::Num(a)]);
        let r3 = seq![InstrV::Num(c), binary_instr(o2)];
        assert(term_rest(t, 3) == (seq![InstrV::Num(c)].push(binary_instr(o2)) + e, 5int, true));
        assert(seq![InstrV::Num(c)].push(binary_instr(o2)) + e =~= r3);
        let bt = seq![InstrV::Num(b), InstrV::Num(c), binary_instr(o2)];
        assert(parse_term(t, 2) == (seq![InstrV::Num(b)] + r3, 5int, true));
        assert(seq![InstrV::Num(b)] + r3 =~= bt);
        let r1 = seq![InstrV::Num(b), InstrV::Num(c), binary_instr(o2), binary_instr(o1)];
        assert(expr_rest(t, 1) == (bt.push(binary_instr(o1)) + e, 5int, true));
        assert(bt.push(binary_instr(o1)) + e =~= r1);
        assert(parse_expr(t, 0) == (seq![InstrV::Num(a)] + r1, 5int, true));
        assert(seq![InstrV::Num(a)] + r1 =~= seq![
            InstrV::Num(a),
            InstrV::Num(b),
            InstrV::Num(c),
            binary_instr(o2),
            binary_instr(o1),
        ]);
    } else {
        assert(term_rest(t, 3) == (e, 3int, true));
        let r1 = seq![InstrV::Num(b), binary_instr(o1)];
        assert(term_rest(t, 1) == (seq![InstrV::Num(b)].push(binary_instr(o1)) + e, 3int, true));
        assert(seq![InstrV::Num(b)].push(binary_instr(o1)) + e =~= r1);
        let ab = seq![InstrV::Num(a), InstrV::Num(b), binary_instr(o1)];
        assert(parse_term(t, 0) == (seq![InstrV::Num(a)] + r1, 3int, true));
        assert(seq![InstrV::Num(a)] + r1 =~= ab);
        assert(parse_term(t, 4) == (seq![InstrV::Num(c)] + e, 5int, true));
        assert(seq![InstrV::Num(c)] + e =~= seq![InstrV::Num(c)]);
        let r3 = seq![InstrV::Num(c), binary_instr(o2)];
        assert(expr_rest(t, 3) == (seq![InstrV::Num(c)].push(binary_instr(o2)) + e, 5int, true));
        assert(seq![InstrV::Num(c)].push(binary_instr(o2)) + e =~= r3);
        assert(parse_expr(t, 0) == (ab + r3, 5int, true));
        assert(ab + r3 =~= seq![
            InstrV::Num(a),
            InstrV::Num(b),
            binary_instr(o1),
            InstrV::Num(c),
            binary_instr(o2),
        ]);
    }
}

/// Law: `^` groups to the right: `a ^ b ^ c` computes `a ^ (b ^ c)`, so its
/// program is `a b c ^ ^`.
pub proof fn lemma_power_right_assoc(a: Seq<char>, b: Seq<char>, c: Seq<char>)
    ensures
        compile_tokens_spec(three_numbers(a, TokenV::Caret, b, TokenV::Caret, c)) == seq![
            InstrV::Num(a),
            InstrV::Num(b),
            InstrV::Num(c),
            InstrV::Pow,
            InstrV::Pow,
        ],
{
    let t = three_numbers(a, TokenV::Caret, b, TokenV::Caret, c);
    let e = Seq::<InstrV>::empty();
    assert(tok(t, 0) == TokenV::Num(a));
    assert(tok(t, 2) == TokenV::Num(b));
    assert(tok(t, 4) == TokenV::Num(c));
    assert(tok(t, 1) == TokenV::Caret);
    assert(tok(t, 3) == TokenV::Caret);
    assert(tok(t, 5) == TokenV::End);
    assert(parse_primary(t, 0) == (seq![InstrV::Num(a)], 1int, true));
    assert(parse_unary(t, 0) == parse_primary(t, 0));
    assert(parse_primary(t, 2) == (seq![InstrV::Num(b)], 3int, true));
    assert(parse_unary(t, 2) == parse_primary(t, 2));
    lemma_number_power(t, 4, c);
    let pc = seq![InstrV::Num(b)] + seq![InstrV::Num(c)].push(InstrV::Pow);
    assert(parse_power(t, 2) == (pc, 5int, true));
    let pa = seq![InstrV::Num(a)] + pc.push(InstrV::Pow);
    assert(parse_power(t, 0) == (pa, 5int, true));
    assert(term_rest(t, 5) == (e, 5int, true));
    assert(parse_term(t, 0) == (pa + e, 5int, true));
    assert(expr_rest(t, 5) == (e, 5int, true));
    assert(parse_expr(t, 0) == ((pa + e) + e, 5int, true));
    assert((pa + e) + e =~= seq![InstrV::Num(a), InstrV::Num(b), InstrV::Num(c), InstrV::Pow, InstrV::Pow]);
}

} // verus!
