//! Tokeniser of the scientific-mode expression language.
//!
//! Numbers are kept as their literal text; the tokeniser accepts exactly the
//! texts that Rust's `f64` parser reads (decimal digits with at most one
//! point, at least one digit, and an optional exponent `e`/`E`, sign and
//! digits), so that the text always converts.

use vstd::prelude::*;
use crate::text::{chars_of, push_char, string_of_range};

verus! {

/// `char::is_alphanumeric`: whether the character is alphabetic or numeric
/// in Unicode.
pub uninterp spec fn unicode_alphanumeric(c: char) -> bool;

/// Whether `c` is alphabetic or numeric in Unicode (`char::is_alphanumeric`).
///
/// Trusted: std's `char::is_alphanumeric`, whose result is named
/// `unicode_alphanumeric`. std documents it as `is_alphabetic() ||
/// is_numeric()`; on ASCII that holds exactly of the letters and digits,
/// which is the one fact stated beside the name.
#[verifier::external_body]
fn char_is_alphanumeric(c: char) -> (b: bool)
    ensures
        b == unicode_alphanumeric(c),
        c <= '\u{7f}' ==> (b <==> (('a' <= c <= 'z') || ('A' <= c <= 'Z') || ('0' <= c <= '9'))),
{
    c.is_alphanumeric()
}

/// The tokens of an expression; numbers keep their literal text.
#[derive(Debug, Clone)]
pub enum Token {
    Num(String),
    Plus,
    Minus,
    Star,
    Slash,
    Percent,
    Caret,
    LParen,
    RParen,
    Ident(String),
    End,
}

/// The mathematical view of a token.
pub enum TokenV {
    Num(Seq<char>),
    Plus,
    Minus,
    Star,
    Slash,
    Percent,
    Caret,
    LParen,
    RParen,
    Ident(Seq<char>),
    End,
}

impl View for Token {
    type V = TokenV;

    open spec fn view(&self) -> TokenV {
        match self {
            Token::Num(s) => TokenV::Num(s@),
            Token::Plus => TokenV::Plus,
            Token::Minus => TokenV::Minus,
            Token::Star => TokenV::Star,
            Token::Slash => TokenV::Slash,
            Token::Percent => TokenV::Percent,
            Token::Caret => TokenV::Caret,
            Token::LParen => TokenV::LParen,
            Token::RParen => TokenV::RParen,
            Token::Ident(s) => TokenV::Ident(s@),
            Token::End => TokenV::End,
        }
    }
}

/// The views of a sequence of tokens.
pub open spec fn tokens_view(v: Seq<Token>) -> Seq<TokenV> {
    v.map_values(|t: Token| t@)
}

// ── Number literals ──────────────────────────────────────────────────────

/// A decimal digit `0`–`9`.
pub open spec fn is_dec_digit(c: char) -> bool {
    '0' <= c <= '9'
}

/// A mantissa: decimal digits with at most one point and at least one digit.
pub open spec fn valid_mantissa(m: Seq<char>) -> bool {
    &&& forall|i: int| 0 <= i < m.len() ==> is_dec_digit(#[trigger] m[i]) || m[i] == '.'
    &&& forall|i: int, j: int| 0 <= i < m.len() && 0 <= j < m.len() && m[i] == '.' && m[j] == '.' ==> i == j
    &&& exists|i: int| 0 <= i < m.len() && is_dec_digit(#[trigger] m[i])
}

/// Every character is a decimal digit.
pub open spec fn all_dec_digits(d: Seq<char>) -> bool {
    forall|i: int| 0 <= i < d.len() ==> is_dec_digit(#[trigger] d[i])
}

/// An exponent after `e`/`E`: an optional sign and at least one digit.
pub open spec fn valid_exponent(x: Seq<char>) -> bool {
    let d = if x.len() > 0 && (x[0] == '+' || x[0] == '-') { x.skip(1) } else { x };
    d.len() > 0 && all_dec_digits(d)
}

/// A decimal floating-point literal as Rust's `f64` parser reads it (without
/// a leading sign): a mantissa, optionally followed by `e` or `E` and an
/// exponent.
pub open spec fn valid_float(s: Seq<char>) -> bool {
    ||| valid_mantissa(s)
    ||| exists|k: int|
        0 <= k < s.len() && (s[k] == 'e' || s[k] == 'E') && valid_mantissa(#[trigger] s.take(k))
            && valid_exponent(s.skip(k + 1))
}

/// Where a number that starts at `i` ends: digits and points are taken, so
/// is `e`/`E`, and a sign right after `e`/`E`.
pub open spec fn number_end(s: Seq<char>, i: int, after_e: bool) -> int
    decreases s.len() - i,
{
    if i >= s.len() {
        i
    } else if is_dec_digit(s[i]) || s[i] == '.' {
        number_end(s, i + 1, false)
    } else if s[i] == 'e' || s[i] == 'E' {
        number_end(s, i + 1, true)
    } else if after_e && (s[i] == '+' || s[i] == '-') {
        number_end(s, i + 1, false)
    } else {
        i
    }
}

/// A character that continues an identifier.
pub open spec fn ident_char(c: char) -> bool {
    unicode_alphanumeric(c) || c == '_' || c == '\u{3c0}'
}

/// A character that starts an identifier.
pub open spec fn ident_start(c: char) -> bool {
    ('a' <= c <= 'z') || ('A' <= c <= 'Z') || c == '_' || c == '\u{3c0}'
}

/// Where an identifier continued from `i` ends.
pub open spec fn ident_end(s: Seq<char>, i: int) -> int
    decreases s.len() - i,
{
    if i < s.len() && ident_char(s[i]) {
        ident_end(s, i + 1)
    } else {
        i
    }
}

/// A number read from `i` ends at or after `i`, and within the text.
pub proof fn lemma_number_end_ge(s: Seq<char>, i: int, after_e: bool)
    requires
        0 <= i,
    ensures
        i <= number_end(s, i, after_e),
        i <= s.len() ==> number_end(s, i, after_e) <= s.len(),
    decreases s.len() - i,
{
    if i < s.len() {
        lemma_number_end_ge(s, i + 1, false);
        lemma_number_end_ge(s, i + 1, true);
    }
}

/// An identifier continued from `i` ends at or after `i`, and within the
/// text.
pub proof fn lemma_ident_end_ge(s: Seq<char>, i: int)
    requires
        0 <= i,
    ensures
        i <= ident_end(s, i),
        i <= s.len() ==> ident_end(s, i) <= s.len(),
    decreases s.len() - i,
{
    if i < s.len() {
        lemma_ident_end_ge(s, i + 1);
    }
}

// ── Error messages ───────────────────────────────────────────────────────

/// `Unknown character 'c'`.
pub open spec fn unknown_char_msg(c: char) -> Seq<char> {
    "Unknown character '"@ + seq![c] + "'"@
}

/// `Bad number: text`.
pub open spec fn bad_number_msg(text: Seq<char>) -> Seq<char> {
    "Bad number: "@ + text
}

// ── The tokeniser ────────────────────────────────────────────────────────

/// `r` with `t` in front of its tokens (errors pass through).
pub open spec fn prepend(t: TokenV, r: Result<Seq<TokenV>, Seq<char>>) -> Result<Seq<TokenV>, Seq<char>> {
    match r {
        Ok(ts) => Ok(seq![t] + ts),
        Err(e) => Err(e),
    }
}

/// The tokens of `s` from position `i` on, closed by `End`, or the message
/// of the first character that cannot start a token or of the first number
/// that is no valid literal.
pub open spec fn tokens_from(s: Seq<char>, i: int) -> Result<Seq<TokenV>, Seq<char>>
    decreases s.len() - i,
{
    if i < 0 || i >= s.len() {
        Ok(seq![TokenV::End])
    } else {
        let c = s[i];
        if c == ' ' || c == '\t' {
            tokens_from(s, i + 1)
        } else if is_dec_digit(c) || c == '.' {
            let j = number_end(s, i, false);
            proof {
                lemma_number_end_ge(s, i + 1, false);
            }
            let text = s.subrange(i, j);
            if valid_float(text) {
                prepend(TokenV::Num(text), tokens_from(s, j))
            } else {
                Err(bad_number_msg(text))
            }
        } else if ident_start(c) {
            let j = ident_end(s, i + 1);
            proof {
                lemma_ident_end_ge(s, i + 1);
            }
            prepend(TokenV::Ident(s.subrange(i, j)), tokens_from(s, j))
        } else if c == '+' {
            prepend(TokenV::Plus, tokens_from(s, i + 1))
        } else if c == '-' {
            prepend(TokenV::Minus, tokens_from(s, i + 1))
        } else if c == '*' || c == '\u{d7}' {
            prepend(TokenV::Star, tokens_from(s, i + 1))
        } else if c == '/' || c == '\u{f7}' {
            prepend(TokenV::Slash, tokens_from(s, i + 1))
        } else if c == '%' {
            prepend(TokenV::Percent, tokens_from(s, i + 1))
        } else if c == '^' {
            prepend(TokenV::Caret, tokens_from(s, i + 1))
        } else if c == '(' {
            prepend(TokenV::LParen, tokens_from(s, i + 1))
        } else if c == ')' {
            prepend(TokenV::RParen, tokens_from(s, i + 1))
        } else {
            Err(unknown_char_msg(c))
        }
    }
}

/// The tokens of a whole expression (see `tokens_from`).
pub open spec fn tokenise_spec(s: Seq<char>) -> Result<Seq<TokenV>, Seq<char>> {
    tokens_from(s, 0)
}

/// `r` with the tokens `p` in front of its tokens (errors pass through).
pub open spec fn prefixed(p: Seq<TokenV>, r: Result<Seq<TokenV>, Seq<char>>) -> Result<Seq<TokenV>, Seq<char>> {
    match r {
        Ok(ts) => Ok(p + ts),
        Err(e) => Err(e),
    }
}

/// Whether `v[lo..hi]` is a valid mantissa.
fn mantissa_ok(v: &Vec<char>, lo: usize, hi: usize) -> (b: bool)
    requires
        lo <= hi <= v.len(),
    ensures
        b == valid_mantissa(v@.subrange(lo as int, hi as int)),
{
    let ghost m = v@.subrange(lo as int, hi as int);
    let mut i: usize = lo;
    let mut dot: Option<usize> = None;
    let mut digit: Option<usize> = None;
    while i < hi
        invariant
            lo <= i <= hi,
            hi <= v.len(),
            m == v@.subrange(lo as int, hi as int),
            forall|j: int| lo <= j < i ==> is_dec_digit(#[trigger] v@[j]) || v@[j] == '.',
            dot is None ==> forall|j: int| lo <= j < i ==> v@[j] != '.',
            dot matches Some(d) ==> lo <= d < i && v@[d as int] == '.' && forall|j: int|
                lo <= j < i && v@[j] == '.' ==> j == d,
            digit is None ==> forall|j: int| lo <= j < i ==> !is_dec_digit(#[trigger] v@[j]),
            digit matches Some(d) ==> lo <= d < i && is_dec_digit(v@[d as int]),
        decreases hi - i,
    {
        let c = v[i];
        if '0' <= c && c <= '9' {
            digit = Some(i);
        } else if c == '.' {
            if dot.is_some() {
                assert(m[dot.unwrap() - lo] == '.' && m[i - lo] == '.');
                return false;
            }
            dot = Some(i);
        } else {
            assert(!(is_dec_digit(m[i - lo]) || m[i - lo] == '.'));
            return false;
        }
        i = i + 1;
    }
    match digit {
        Some(d) => {
            assert(is_dec_digit(m[d - lo]));
            assert forall|a: int, b: int|
                0 <= a < m.len() && 0 <= b < m.len() && m[a] == '.' && m[b] == '.' implies a == b by {
                assert(v@[a + lo] == '.' && v@[b + lo] == '.');
            }
            assert forall|a: int| 0 <= a < m.len() implies is_dec_digit(#[trigger] m[a]) || m[a] == '.' by {
                assert(m[a] == v@[a + lo]);
            }
            true
        },
        None => {
            assert forall|a: int| 0 <= a < m.len() implies !is_dec_digit(#[trigger] m[a]) by {
                assert(m[a] == v@[a + lo]);
            }
            false
        },
    }
}

/// Whether `v[lo..hi]` is a valid exponent.
fn exponent_ok(v: &Vec<char>, lo: usize, hi: usize) -> (b: bool)
    requires
        lo <= hi <= v.len(),
    ensures
        b == valid_exponent(v@.subrange(lo as int, hi as int)),
{
    let ghost x = v@.subrange(lo as int, hi as int);
    let mut i = lo;
    if i < hi && (v[i] == '+' || v[i] == '-') {
        i = i + 1;
    }
    let ds = i;
    assert(x.len() > 0 ==> x[0] == v@[lo as int]);
    let ghost d = if x.len() > 0 && (x[0] == '+' || x[0] == '-') { x.skip(1) } else { x };
    assert(d =~= v@.subrange(ds as int, hi as int));
    if i == hi {
        return false;
    }
    while i < hi
        invariant
            lo <= ds <= i <= hi,
            hi <= v.len(),
            x == v@.subrange(lo as int, hi as int),
            d == (if x.len() > 0 && (x[0] == '+' || x[0] == '-') { x.skip(1) } else { x }),
            d == v@.subrange(ds as int, hi as int),
            forall|j: int| ds <= j < i ==> is_dec_digit(#[trigger] v@[j]),
        decreases hi - i,
    {
        if !('0' <= v[i] && v[i] <= '9') {
            assert(!is_dec_digit(d[i - ds]));
            assert(!valid_exponent(x));
            return false;
        }
        i = i + 1;
    }
    assert forall|a: int| 0 <= a < d.len() implies is_dec_digit(#[trigger] d[a]) by {
        assert(d[a] == v@[a + ds]);
    }
    true
}

/// Whether `v[lo..hi]` is a valid floating-point literal (see `valid_float`).
fn float_ok(v: &Vec<char>, lo: usize, hi: usize) -> (b: bool)
    requires
        lo <= hi <= v.len(),
    ensures
        b == valid_float(v@.subrange(lo as int, hi as int)),
{
    let ghost s = v@.subrange(lo as int, hi as int);
    let mut k = lo;
    while k < hi && v[k] != 'e' && v[k] != 'E'
        invariant
            lo <= k <= hi,
            hi <= v.len(),
            forall|j: int| lo <= j < k ==> v@[j] != 'e' && v@[j] != 'E',
        decreases hi - k,
    {
        k = k + 1;
    }
    if k == hi {
        assert(s =~= v@.subrange(lo as int, hi as int));
        assert forall|j: int| 0 <= j < s.len() implies !(s[j] == 'e' || s[j] == 'E') by {
            assert(s[j] == v@[j + lo]);
        }
        mantissa_ok(v, lo, hi)
    } else {
        let ghost kk: int = k - lo;
        assert(s[kk] == v@[k as int]);
        assert(s.take(kk) =~= v@.subrange(lo as int, k as int));
        assert(s.skip(kk + 1) =~= v@.subrange(k + 1, hi as int));
        assert(!valid_mantissa(s)) by {
            assert(!(is_dec_digit(s[kk]) || s[kk] == '.'));
        }
        let b = mantissa_ok(v, lo, k) && exponent_ok(v, k + 1, hi);
        assert(b ==> valid_float(s)) by {
            if b {
                assert(valid_mantissa(s.take(kk)));
            }
        }
        assert(valid_float(s) ==> b) by {
            if valid_float(s) {
                let k2 = choose|k2: int|
                    0 <= k2 < s.len() && (s[k2] == 'e' || s[k2] == 'E') && valid_mantissa(
                        #[trigger] s.take(k2),
                    ) && valid_exponent(s.skip(k2 + 1));
                if k2 < kk {
                    assert(s[k2] == v@[k2 + lo]);
                } else if k2 > kk {
                    assert(s.take(k2)[kk] == s[kk]);
                    assert(!(is_dec_digit(s.take(k2)[kk]) || s.take(k2)[kk] == '.'));
                }
            }
        }
        b
    }
}

/// Splits an expression into tokens (see `tokenise_spec`).
pub fn tokenise(input: &str) -> (r: Result<Vec<Token>, String>)
    ensures
        r matches Ok(v) ==> tokenise_spec(input@) == Ok::<Seq<TokenV>, Seq<char>>(tokens_view(v@)),
        r matches Err(e) ==> tokenise_spec(input@) == Err::<Seq<TokenV>, Seq<char>>(e@),
{
    let cs = chars_of(input);
    let ghost s = input@;
    let n = cs.len();
    let mut toks: Vec<Token> = Vec::new();
    let mut i: usize = 0;
    assert(tokens_view(toks@) =~= Seq::<TokenV>::empty());
    assert(prefixed(Seq::<TokenV>::empty(), tokens_from(s, 0)) == tokens_from(s, 0)) by {
        match tokens_from(s, 0) {
            Ok(ts) => {
                assert(Seq::<TokenV>::empty() + ts =~= ts);
            },
            Err(e) => {},
        }
    }
    while i < n
        invariant
            s == input@,
            cs@ == s,
            n == cs.len(),
            i <= n,
            tokens_from(s, 0) == prefixed(tokens_view(toks@), tokens_from(s, i as int)),
        decreases n - i,
    {
        let c = cs[i];
        let ghost before = toks@;
        if c == ' ' || c == '\t' {
            i = i + 1;
        } else if ('0' <= c && c <= '9') || c == '.' {
            let start = i;
            let mut j = i;
            let mut after_e = false;
            while j < n
                invariant
                    cs@ == s,
                    n == cs.len(),
                    start <= j <= n,
                    number_end(s, start as int, false) == number_end(s, j as int, after_e),
                ensures
                    start <= j <= n,
                    number_end(s, start as int, false) == j,
                decreases n - j,
            {
                let d = cs[j];
                if ('0' <= d && d <= '9') || d == '.' {
                    after_e = false;
                } else if d == 'e' || d == 'E' {
                    after_e = true;
                } else if after_e && (d == '+' || d == '-') {
                    after_e = false;
                } else {
                    break;
                }
                j = j + 1;
            }
            proof {
                lemma_number_end_ge(s, start + 1, false);
            }
            if !float_ok(&cs, start, j) {
                let mut m = String::new();
                m.append("Bad number: ");
                let text = string_of_range(&cs, start, j);
                m.append(text.as_str());
                assert(m@ =~= bad_number_msg(s.subrange(start as int, j as int)));
                assert(tokens_from(s, start as int) == Err::<Seq<TokenV>, Seq<char>>(m@));
                return Err(m);
            }
            let text = string_of_range(&cs, start, j);
            toks.push(Token::Num(text));
            i = j;
            proof {
                lemma_prefixed_push(before, toks@, TokenV::Num(s.subrange(start as int, j as int)), tokens_from(s, j as int));
            }
        } else if ('a' <= c && c <= 'z') || ('A' <= c && c <= 'Z') || c == '_' || c == '\u{3c0}' {
            let start = i;
            let mut j = i + 1;
            while j < n
                invariant
                    cs@ == s,
                    n == cs.len(),
                    start < j <= n,
                    ident_end(s, start + 1) == ident_end(s, j as int),
                ensures
                    start < j <= n,
                    ident_end(s, start + 1) == j,
                decreases n - j,
            {
                let d = cs[j];
                if char_is_alphanumeric(d) || d == '_' || d == '\u{3c0}' {
                    j = j + 1;
                } else {
                    break;
                }
            }
            proof {
                lemma_ident_end_ge(s, start + 1);
            }
            let text = string_of_range(&cs, start, j);
            toks.push(Token::Ident(text));
            i = j;
            proof {
                lemma_prefixed_push(before, toks@, TokenV::Ident(s.subrange(start as int, j as int)), tokens_from(s, j as int));
            }
        } else {
            let t = if c == '+' {
                Token::Plus
            } else if c == '-' {
                Token::Minus
            } else if c == '*' || c == '\u{d7}' {
                Token::Star
            } else if c == '/' || c == '\u{f7}' {
                Token::Slash
            } else if c == '%' {
                Token::Percent
            } else if c == '^' {
                Token::Caret
            } else if c == '(' {
                Token::LParen
            } else if c == ')' {
                Token::RParen
            } else {
                let mut m = String::new();
                m.append("Unknown character '");
                push_char(&mut m, c);
                m.append("'");
                assert(m@ =~= unknown_char_msg(c));
                assert(tokens_from(s, i as int) == Err::<Seq<TokenV>, Seq<char>>(m@));
                return Err(m);
            };
            let ghost tv = t@;
            toks.push(t);
            i = i + 1;
            proof {
                lemma_prefixed_push(before, toks@, tv, tokens_from(s, i as int));
            }
        }
    }
    let ghost pre = toks@;
    assert(tokens_from(s, i as int) == Ok::<Seq<TokenV>, Seq<char>>(seq![TokenV::End]));
    toks.push(Token::End);
    assert(tokens_view(toks@) =~= tokens_view(pre) + seq![TokenV::End]);
    Ok(toks)
}

proof fn lemma_prefixed_push(
    before: Seq<Token>,
    after: Seq<Token>,
    t: TokenV,
    rest: Result<Seq<TokenV>, Seq<char>>,
)
    requires
        after == before.push(after.last()),
        after.len() > 0,
        after.last()@ == t,
    ensures
        prefixed(tokens_view(before), prepend(t, rest)) == prefixed(tokens_view(after), rest),
{
    assert(tokens_view(after) =~= tokens_view(before).push(t));
    match rest {
        Ok(ts) => {
            assert(tokens_view(before) + (seq![t] + ts) =~= tokens_view(after) + ts);
        },
        Err(e) => {},
    }
}

} // verus!
