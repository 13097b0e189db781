//! The tokenizer: turns source text into a token stream.
//!
//! Scanning works over the decoded characters of the input with an explicit
//! position and a one-character lookahead; every scanning step is specified
//! against the character sequence, and numeric literals are parsed by
//! verified code whose value is pinned down digit by digit.

use vstd::prelude::*;

use crate::strutil::{push_char, str_eq};

verus! {

/// What can go wrong while tokenizing.
#[derive(Debug, Clone, Copy, PartialEq, Eq, Structural)]
pub enum LexerError {
    /// A character no token can start with, or a malformed number.
    InvalidToken,
    /// A run of operator characters that is no known operator.
    InvalidSymbol,
}

/// A byte-position range in the source text.
pub type Span = core::ops::Range<usize>;

/// A value paired with the span it was scanned from.
#[derive(Debug, PartialEq)]
pub struct Spanned<T>(Span, pub T);

impl<T> Spanned<T> {
    /// The start of the span.
    pub closed spec fn spec_start(&self) -> int {
        self.0.start as int
    }

    /// The end of the span.
    pub closed spec fn spec_end(&self) -> int {
        self.0.end as int
    }

    /// The carried value.
    pub closed spec fn spec_val(&self) -> T {
        self.1
    }
}

/// One token of the language.
#[derive(Debug, PartialEq)]
pub enum Token {
    Number(Spanned<i32>),
    Identifier(Spanned<String>),
    String(Spanned<String>),
    Return(Span),
    Function(Span),
    Var(Span),
    Asm(Span),
    If(Span),
    Then(Span),
    Else(Span),
    Namespace(Span),
    Here(Span),
    Plus(Span),
    Minus(Span),
    Mul(Span),
    Div(Span),
    Pow(Span),
    Increment(Span),
    Decrease(Span),
    Semicolon(Span),
    Colon(Span),
    Dollar(Span),
    Eqq(Span),
    Eq(Span),
    Not(Span),
    NotEq(Span),
    LParen(Span),
    RParen(Span),
    LBrace(Span),
    RBrace(Span),
    LBracket(Span),
    RBracket(Span),
    Comma(Span),
    Dot(Span),
    Greater(Span),
    Less(Span),
    Comment(Span),
}

/// A decimal digit.
pub open spec fn is_dec_digit(c: char) -> bool {
    48 <= c as u32 <= 57
}

/// A hexadecimal digit, either case.
pub open spec fn is_hex_digit(c: char) -> bool {
    is_dec_digit(c) || (97 <= c as u32 <= 102) || (65 <= c as u32 <= 70)
}

/// A character that may continue a numeric literal: a hexadecimal digit or
/// one of the radix markers.
pub open spec fn is_num_char(c: char) -> bool {
    c == '0' || c == 'b' || c == 'x' || is_hex_digit(c)
}

/// The value of one digit character; 16 (never a valid digit) for anything
/// else.
pub open spec fn digit_val(c: char) -> int {
    if 48 <= c as u32 <= 57 {
        c as u32 - 48
    } else if 97 <= c as u32 <= 102 {
        c as u32 - 97 + 10
    } else if 65 <= c as u32 <= 70 {
        c as u32 - 65 + 10
    } else {
        16
    }
}

/// Whether every character of `t` is a digit of the given base.
pub open spec fn digits_ok(t: Seq<char>, base: int) -> bool {
    forall|i: int| 0 <= i < t.len() ==> digit_val(#[trigger] t[i]) < base
}

/// The value of a digit string in the given base, most significant digit
/// first.
pub open spec fn digits_val(t: Seq<char>, base: int) -> int
    decreases t,
{
    if t.len() == 0 {
        0
    } else {
        digits_val(t.drop_last(), base) * base + digit_val(t.last())
    }
}

/// The digit string with every leading repetition of the two-character
/// radix marker removed, the way `trim_start_matches` strips it.
pub open spec fn strip_marker(t: Seq<char>, m0: char, m1: char) -> Seq<char>
    decreases t,
{
    if t.len() >= 2 && t[0] == m0 && t[1] == m1 {
        strip_marker(t.skip(2), m0, m1)
    } else {
        t
    }
}

/// The base of a scanned numeric literal: a `0x` prefix means 16, a `0b`
/// prefix means 2, anything else decimal.
pub open spec fn lit_base(t: Seq<char>) -> int {
    if t.len() >= 2 && t[0] == '0' && t[1] == 'x' {
        16
    } else if t.len() >= 2 && t[0] == '0' && t[1] == 'b' {
        2
    } else {
        10
    }
}

/// The digit string of a scanned numeric literal, marker stripped.
pub open spec fn lit_digits(t: Seq<char>) -> Seq<char> {
    if lit_base(t) == 16 {
        strip_marker(t, '0', 'x')
    } else if lit_base(t) == 2 {
        strip_marker(t, '0', 'b')
    } else {
        t
    }
}

/// Whether a scanned numeric literal parses: its digit string is nonempty,
/// every character is a digit of its base, and the value fits an `i32`.
pub open spec fn lit_ok(t: Seq<char>) -> bool {
    &&& lit_digits(t).len() > 0
    &&& digits_ok(lit_digits(t), lit_base(t))
    &&& digits_val(lit_digits(t), lit_base(t)) <= i32::MAX
}

/// The value of a scanned numeric literal.
pub open spec fn lit_val(t: Seq<char>) -> int {
    digits_val(lit_digits(t), lit_base(t))
}

/// A digit string's value is never negative.
proof fn lemma_digits_val_nonneg(t: Seq<char>, base: int)
    requires
        base >= 2,
    ensures
        digits_val(t, base) >= 0,
    decreases t,
{
    if t.len() > 0 {
        lemma_digits_val_nonneg(t.drop_last(), base);
        assert(digits_val(t.drop_last(), base) * base >= 0) by (nonlinear_arith)
            requires
                digits_val(t.drop_last(), base) >= 0,
                base >= 2,
        ;
    }
}

/// Dropping trailing digits never increases the value.
proof fn lemma_digits_val_prefix(t: Seq<char>, base: int, k: int)
    requires
        base >= 2,
        0 <= k <= t.len(),
    ensures
        digits_val(t.take(k), base) <= digits_val(t, base),
    decreases t.len() - k,
{
    if k < t.len() {
        lemma_digits_val_prefix(t, base, k + 1);
        let u = t.take(k + 1);
        assert(u.drop_last() =~= t.take(k));
        lemma_digits_val_nonneg(t.take(k), base);
        assert(digits_val(t.take(k), base) * base + digit_val(u.last()) >= digits_val(
            t.take(k),
            base,
        )) by (nonlinear_arith)
            requires
                digits_val(t.take(k), base) >= 0,
                base >= 2,
                digit_val(u.last()) >= 0,
        ;
    } else {
        assert(t.take(k) =~= t);
    }
}

/// The value of one digit character.
fn digit_val_exec(c: char) -> (d: u32)
    ensures
        d as int == digit_val(c),
{
    let u = c as u32;
    if 48 <= u && u <= 57 {
        u - 48
    } else if 97 <= u && u <= 102 {
        u - 97 + 10
    } else if 65 <= u && u <= 70 {
        u - 65 + 10
    } else {
        16
    }
}

/// Parse the characters `from .. to` of `v` as a numeric literal: an `0x`
/// or `0b` marker picks the base, and the digit string must be nonempty,
/// valid for the base, and fit an `i32`.
#[verifier::loop_isolation(false)]
fn parse_literal(v: &Vec<char>, from: usize, to: usize) -> (r: Result<i32, LexerError>)
    requires
        from <= to <= v@.len(),
    ensures
        ({
            let t = v@.subrange(from as int, to as int);
            match r {
                Ok(n) => lit_ok(t) && n as int == lit_val(t),
                Err(e) => !lit_ok(t) && e == LexerError::InvalidToken,
            }
        }),
{
    let ghost t = v@.subrange(from as int, to as int);
    let base: u64;
    let m1: char;
    if to - from >= 2 && v[from] == '0' && v[from + 1] == 'x' {
        base = 16;
        m1 = 'x';
    } else if to - from >= 2 && v[from] == '0' && v[from + 1] == 'b' {
        base = 2;
        m1 = 'b';
    } else {
        base = 10;
        m1 = ' ';
    }
    proof {
        assert(base == lit_base(t));
    }
    let mut st: usize = from;
    if base != 10 {
        while to - st >= 2 && v[st] == '0' && v[st + 1] == m1
            invariant
                from <= st <= to <= v@.len(),
                base == 16 || base == 2,
                m1 == (if base == 16 {
                    'x'
                } else {
                    'b'
                }),
                strip_marker(t, '0', m1) == strip_marker(
                    v@.subrange(st as int, to as int),
                    '0',
                    m1,
                ),
            decreases to - st,
        {
            proof {
                let u = v@.subrange(st as int, to as int);
                assert(u.skip(2) =~= v@.subrange(st + 2, to as int));
            }
            st += 2;
        }
        proof {
            let u = v@.subrange(st as int, to as int);
            assert(!(u.len() >= 2 && u[0] == '0' && u[1] == m1));
            assert(strip_marker(u, '0', m1) == u);
            assert(lit_digits(t) == v@.subrange(st as int, to as int));
        }
    } else {
        proof {
            assert(lit_digits(t) == v@.subrange(st as int, to as int));
        }
    }
    let ghost digits = v@.subrange(st as int, to as int);
    if st == to {
        return Err(LexerError::InvalidToken);
    }
    let mut acc: u64 = 0;
    let mut i: usize = st;
    while i < to
        invariant
            st <= i <= to <= v@.len(),
            2 <= base <= 16,
            digits == v@.subrange(st as int, to as int),
            digits_ok(digits.take(i - st), base as int),
            acc as int == digits_val(digits.take(i - st), base as int),
            acc <= i32::MAX as u64,
        decreases to - i,
    {
        let d = digit_val_exec(v[i]);
        if d as u64 >= base {
            proof {
                assert(digits[i - st] == v@[i as int]);
                assert(!digits_ok(digits, base as int));
            }
            return Err(LexerError::InvalidToken);
        }
        proof {
            assert(acc * base + d <= 0x7fffffffu64 * 16 + 15) by (nonlinear_arith)
                requires
                    acc <= 0x7fffffffu64,
                    base <= 16,
                    d < 16,
            ;
        }
        let next: u64 = acc * base + d as u64;
        proof {
            let p = digits.take(i - st + 1);
            assert(p.drop_last() =~= digits.take(i - st));
            assert(p.last() == v@[i as int]);
        }
        if next > 0x7fffffff {
            proof {
                lemma_digits_val_prefix(digits, base as int, i - st + 1);
            }
            return Err(LexerError::InvalidToken);
        }
        acc = next;
        i += 1;
    }
    proof {
        assert(digits.take(to - st) =~= digits);
    }
    Ok(acc as i32)
}


/// The span `a .. b`.
pub open spec fn spec_span(a: int, b: int) -> Span {
    core::ops::Range { start: a as usize, end: b as usize }
}

/// Relies on `char::is_alphanumeric`: a pure function of the character,
/// defined by the Unicode tables, named here rather than restated.
pub uninterp spec fn char_alphanumeric(c: char) -> bool;

pub assume_specification[ char::is_alphanumeric ](c: char) -> (r: bool)
    ensures
        r == char_alphanumeric(c),
        (is_letter(c) || is_dec_digit(c)) ==> r,
        c == '\0' ==> !r,
;

/// An ASCII letter, the characters an identifier may start with.
pub open spec fn is_letter(c: char) -> bool {
    (97 <= c as u32 <= 122) || (65 <= c as u32 <= 90)
}

/// A character an operator may start with.
pub open spec fn is_symbol_start(c: char) -> bool {
    ||| 43 <= c as u32 <= 47
    ||| c == '{'
    ||| c == '}'
    ||| c == '['
    ||| c == ']'
    ||| c == '('
    ||| c == ')'
    ||| c == '='
    ||| c == ';'
    ||| c == ':'
    ||| c == '>'
    ||| c == '<'
    ||| c == '!'
    ||| c == '$'
}

/// Whitespace the tokenizer skips.
pub open spec fn is_space(c: char) -> bool {
    c == ' ' || c == '\n' || c == '\t'
}

/// Whether `w` is one of the operator spellings.
pub open spec fn is_op(w: Seq<char>) -> bool {
    ||| w == "+"@
    ||| w == "-"@
    ||| w == "*"@
    ||| w == "/"@
    ||| w == "**"@
    ||| w == "++"@
    ||| w == "--"@
    ||| w == ";"@
    ||| w == ":"@
    ||| w == "$"@
    ||| w == "="@
    ||| w == "=="@
    ||| w == "!"@
    ||| w == "!="@
    ||| w == "("@
    ||| w == ")"@
    ||| w == "{"@
    ||| w == "}"@
    ||| w == "["@
    ||| w == "]"@
    ||| w == ","@
    ||| w == "."@
    ||| w == ">"@
    ||| w == "<"@
    ||| w == "//"@
}

/// The token for an operator spelling, carrying the given span.
pub open spec fn spec_operator(w: Seq<char>, sp: Span) -> Option<Token> {
    if w == "+"@ {
        Some(Token::Plus(sp))
    } else if w == "-"@ {
        Some(Token::Minus(sp))
    } else if w == "*"@ {
        Some(Token::Mul(sp))
    } else if w == "/"@ {
        Some(Token::Div(sp))
    } else if w == "**"@ {
        Some(Token::Pow(sp))
    } else if w == "++"@ {
        Some(Token::Increment(sp))
    } else if w == "--"@ {
        Some(Token::Decrease(sp))
    } else if w == ";"@ {
        Some(Token::Semicolon(sp))
    } else if w == ":"@ {
        Some(Token::Colon(sp))
    } else if w == "$"@ {
        Some(Token::Dollar(sp))
    } else if w == "=="@ {
        Some(Token::Eqq(sp))
    } else if w == "="@ {
        Some(Token::Eq(sp))
    } else if w == "!="@ {
        Some(Token::NotEq(sp))
    } else if w == "!"@ {
        Some(Token::Not(sp))
    } else if w == "("@ {
        Some(Token::LParen(sp))
    } else if w == ")"@ {
        Some(Token::RParen(sp))
    } else if w == "{"@ {
        Some(Token::LBrace(sp))
    } else if w == "}"@ {
        Some(Token::RBrace(sp))
    } else if w == "["@ {
        Some(Token::LBracket(sp))
    } else if w == "]"@ {
        Some(Token::RBracket(sp))
    } else if w == ","@ {
        Some(Token::Comma(sp))
    } else if w == "."@ {
        Some(Token::Dot(sp))
    } else if w == ">"@ {
        Some(Token::Greater(sp))
    } else if w == "<"@ {
        Some(Token::Less(sp))
    } else if w == "//"@ {
        Some(Token::Comment(sp))
    } else {
        None
    }
}

/// The token for a keyword spelling, carrying the given span.
pub open spec fn spec_keyword(w: Seq<char>, sp: Span) -> Option<Token> {
    if w == "return"@ {
        Some(Token::Return(sp))
    } else if w == "function"@ {
        Some(Token::Function(sp))
    } else if w == "var"@ {
        Some(Token::Var(sp))
    } else if w == "asm"@ {
        Some(Token::Asm(sp))
    } else if w == "if"@ {
        Some(Token::If(sp))
    } else if w == "then"@ {
        Some(Token::Then(sp))
    } else if w == "else"@ {
        Some(Token::Else(sp))
    } else if w == "namespace"@ {
        Some(Token::Namespace(sp))
    } else if w == "here"@ {
        Some(Token::Here(sp))
    } else {
        None
    }
}

/// End of the numeric-literal run that starts at `i`.
pub open spec fn num_run_end(s: Seq<char>, i: int) -> int
    decreases s.len() - i,
{
    if 0 <= i < s.len() && is_num_char(s[i]) {
        num_run_end(s, i + 1)
    } else {
        i
    }
}

/// End of the alphanumeric run that starts at `i`.
pub open spec fn alnum_run_end(s: Seq<char>, i: int) -> int
    decreases s.len() - i,
{
    if 0 <= i < s.len() && char_alphanumeric(s[i]) {
        alnum_run_end(s, i + 1)
    } else {
        i
    }
}

/// First position at or after `i` holding the given character, or the end.
pub open spec fn find_char(s: Seq<char>, i: int, c: char) -> int
    decreases s.len() - i,
{
    if 0 <= i < s.len() && s[i] != c {
        find_char(s, i + 1, c)
    } else {
        i
    }
}

/// End of the maximal-munch operator scan: the run starting at `start` is
/// extended one character at a time as long as the extension still spells
/// an operator.
pub open spec fn op_run_end(s: Seq<char>, start: int, i: int) -> int
    decreases s.len() - i,
{
    if 0 <= i < s.len() && is_op(s.subrange(start, i + 1)) {
        op_run_end(s, start, i + 1)
    } else {
        i
    }
}

/// The tokenizer's state: the decoded input, the next position, the
/// one-character lookahead, and the tokens produced so far.
pub struct Lexer {
    input: Vec<char>,
    pos: usize,
    tokens: Vec<Token>,
    current: (usize, char),
}

impl Lexer {
    /// The decoded input characters.
    pub closed spec fn spec_input(&self) -> Seq<char> {
        self.input@
    }

    /// The position of the next character to load.
    pub closed spec fn spec_pos(&self) -> int {
        self.pos as int
    }

    /// The tokens produced so far, in order.
    pub closed spec fn spec_tokens(&self) -> Seq<Token> {
        self.tokens@
    }

    /// The lookahead: the last loaded position and character.
    pub closed spec fn spec_cur(&self) -> (usize, char) {
        self.current
    }

    /// The position never runs past the input.
    pub open spec fn wf(&self) -> bool {
        self.spec_pos() <= self.spec_input().len()
    }

    /// The lookahead holds the character just before `pos`.
    pub open spec fn in_sync(&self) -> bool {
        &&& 0 < self.spec_pos() <= self.spec_input().len()
        &&& self.spec_cur().0 as int == self.spec_pos() - 1
        &&& self.spec_cur().1 == self.spec_input()[self.spec_pos() - 1]
    }

    /// All input consumed and the lookahead cleared.
    pub open spec fn done(&self) -> bool {
        &&& self.spec_pos() == self.spec_input().len()
        &&& self.spec_cur() == (0usize, '\0')
    }

    /// A fresh tokenizer over the decoded characters of `src`.
    pub fn new(src: &str) -> (l: Lexer)
        ensures
            l.spec_input() == src@,
            l.spec_pos() == 0,
            l.spec_tokens() == Seq::<Token>::empty(),
            l.spec_cur() == (0usize, '\0'),
            l.wf(),
    {
        let n = src.unicode_len();
        let mut input: Vec<char> = Vec::new();
        let mut i: usize = 0;
        while i < n
            invariant
                i <= n,
                n == src@.len(),
                input@ == src@.take(i as int),
            decreases n - i,
        {
            input.push(src.get_char(i));
            proof {
                assert(input@ =~= src@.take(i + 1));
            }
            i += 1;
        }
        proof {
            assert(src@.take(n as int) =~= src@);
        }
        let l = Lexer { input, pos: 0, tokens: Vec::new(), current: (0, '\0') };
        proof {
            assert(l.spec_tokens() =~= Seq::<Token>::empty());
        }
        l
    }

    /// Load the next character into the lookahead, or clear it at the end.
    fn advance(&mut self)
        requires
            old(self).wf(),
        ensures
            final(self).wf(),
            final(self).spec_input() == old(self).spec_input(),
            final(self).spec_tokens() == old(self).spec_tokens(),
            if old(self).spec_pos() < old(self).spec_input().len() {
                final(self).spec_pos() == old(self).spec_pos() + 1 && final(self).in_sync()
            } else {
                final(self).spec_pos() == old(self).spec_pos() && final(self).spec_cur() == (
                    0usize,
                '\0')
            },
    {
        if self.pos < self.input.len() {
            self.current = (self.pos, self.input[self.pos]);
            self.pos = self.pos + 1;
        } else {
            self.current = (0, '\0');
        }
    }
}


/// A run end never moves backwards and never passes the end.
proof fn lemma_num_run_end_bounds(s: Seq<char>, i: int)
    requires
        0 <= i <= s.len(),
    ensures
        i <= num_run_end(s, i) <= s.len(),
    decreases s.len() - i,
{
    if i < s.len() && is_num_char(s[i]) {
        lemma_num_run_end_bounds(s, i + 1);
    }
}

/// A run end never moves backwards and never passes the end.
proof fn lemma_alnum_run_end_bounds(s: Seq<char>, i: int)
    requires
        0 <= i <= s.len(),
    ensures
        i <= alnum_run_end(s, i) <= s.len(),
    decreases s.len() - i,
{
    if i < s.len() && char_alphanumeric(s[i]) {
        lemma_alnum_run_end_bounds(s, i + 1);
    }
}

/// A character search never moves backwards and never passes the end.
proof fn lemma_find_char_bounds(s: Seq<char>, i: int, c: char)
    requires
        0 <= i <= s.len(),
    ensures
        i <= find_char(s, i, c) <= s.len(),
    decreases s.len() - i,
{
    if i < s.len() && s[i] != c {
        lemma_find_char_bounds(s, i + 1, c);
    }
}

/// An operator scan never moves backwards and never passes the end.
proof fn lemma_op_run_end_bounds(s: Seq<char>, start: int, i: int)
    requires
        0 <= i <= s.len(),
    ensures
        i <= op_run_end(s, start, i) <= s.len(),
    decreases s.len() - i,
{
    if i < s.len() && is_op(s.subrange(start, i + 1)) {
        lemma_op_run_end_bounds(s, start, i + 1);
    }
}

/// Whether the character is a decimal digit.
fn is_dec_digit_exec(c: char) -> (r: bool)
    ensures
        r == is_dec_digit(c),
{
    let u = c as u32;
    48 <= u && u <= 57
}

/// Whether the character may continue a numeric literal.
fn is_num_char_exec(c: char) -> (r: bool)
    ensures
        r == is_num_char(c),
{
    let u = c as u32;
    c == '0' || c == 'b' || c == 'x' || (48 <= u && u <= 57) || (97 <= u && u <= 102) || (65 <= u
        && u <= 70)
}

/// Whether the character is an ASCII letter.
fn is_letter_exec(c: char) -> (r: bool)
    ensures
        r == is_letter(c),
{
    let u = c as u32;
    (97 <= u && u <= 122) || (65 <= u && u <= 90)
}

/// Whether the character can start an operator.
fn is_symbol_start_exec(c: char) -> (r: bool)
    ensures
        r == is_symbol_start(c),
{
    let u = c as u32;
    (43 <= u && u <= 47) || c == '{' || c == '}' || c == '[' || c == ']' || c == '(' || c == ')'
        || c == '=' || c == ';' || c == ':' || c == '>' || c == '<' || c == '!' || c == '$'
}

/// The keyword token for a word, if the word is a keyword.
fn keyword_token(w: &str, sp: Span) -> (r: Option<Token>)
    ensures
        r == spec_keyword(w@, sp),
{
    if str_eq(w, "return") {
        Some(Token::Return(sp))
    } else if str_eq(w, "function") {
        Some(Token::Function(sp))
    } else if str_eq(w, "var") {
        Some(Token::Var(sp))
    } else if str_eq(w, "asm") {
        Some(Token::Asm(sp))
    } else if str_eq(w, "if") {
        Some(Token::If(sp))
    } else if str_eq(w, "then") {
        Some(Token::Then(sp))
    } else if str_eq(w, "else") {
        Some(Token::Else(sp))
    } else if str_eq(w, "namespace") {
        Some(Token::Namespace(sp))
    } else if str_eq(w, "here") {
        Some(Token::Here(sp))
    } else {
        None
    }
}

/// Whether the word is an operator spelling.
fn is_operator(w: &str) -> (r: bool)
    ensures
        r == is_op(w@),
{
    str_eq(w, "+") || str_eq(w, "-") || str_eq(w, "*") || str_eq(w, "/") || str_eq(w, "**")
        || str_eq(w, "++") || str_eq(w, "--") || str_eq(w, ";") || str_eq(w, ":") || str_eq(w, "$")
        || str_eq(w, "=") || str_eq(w, "==") || str_eq(w, "!") || str_eq(w, "!=") || str_eq(w, "(")
        || str_eq(w, ")") || str_eq(w, "{") || str_eq(w, "}") || str_eq(w, "[") || str_eq(w, "]")
        || str_eq(w, ",") || str_eq(w, ".") || str_eq(w, ">") || str_eq(w, "<") || str_eq(w, "//")
}

/// The operator token for a spelling, if it is one.
fn op_token(w: &str, sp: Span) -> (r: Option<Token>)
    ensures
        r == spec_operator(w@, sp),
{
    if str_eq(w, "+") {
        Some(Token::Plus(sp))
    } else if str_eq(w, "-") {
        Some(Token::Minus(sp))
    } else if str_eq(w, "*") {
        Some(Token::Mul(sp))
    } else if str_eq(w, "/") {
        Some(Token::Div(sp))
    } else if str_eq(w, "**") {
        Some(Token::Pow(sp))
    } else if str_eq(w, "++") {
        Some(Token::Increment(sp))
    } else if str_eq(w, "--") {
        Some(Token::Decrease(sp))
    } else if str_eq(w, ";") {
        Some(Token::Semicolon(sp))
    } else if str_eq(w, ":") {
        Some(Token::Colon(sp))
    } else if str_eq(w, "$") {
        Some(Token::Dollar(sp))
    } else if str_eq(w, "==") {
        Some(Token::Eqq(sp))
    } else if str_eq(w, "=") {
        Some(Token::Eq(sp))
    } else if str_eq(w, "!=") {
        Some(Token::NotEq(sp))
    } else if str_eq(w, "!") {
        Some(Token::Not(sp))
    } else if str_eq(w, "(") {
        Some(Token::LParen(sp))
    } else if str_eq(w, ")") {
        Some(Token::RParen(sp))
    } else if str_eq(w, "{") {
        Some(Token::LBrace(sp))
    } else if str_eq(w, "}") {
        Some(Token::RBrace(sp))
    } else if str_eq(w, "[") {
        Some(Token::LBracket(sp))
    } else if str_eq(w, "]") {
        Some(Token::RBracket(sp))
    } else if str_eq(w, ",") {
        Some(Token::Comma(sp))
    } else if str_eq(w, ".") {
        Some(Token::Dot(sp))
    } else if str_eq(w, ">") {
        Some(Token::Greater(sp))
    } else if str_eq(w, "<") {
        Some(Token::Less(sp))
    } else if str_eq(w, "//") {
        Some(Token::Comment(sp))
    } else {
        None
    }
}

impl Lexer {
    /// Scan one numeric literal starting at the lookahead: consume the
    /// maximal run of numeric characters, parse it, and append one number
    /// token; a malformed or overflowing literal is an error.
    #[verifier::loop_isolation(false)]
    fn process_digit(&mut self) -> (r: Result<(), LexerError>)
        requires
            old(self).in_sync(),
            is_num_char(old(self).spec_cur().1),
        ensures
            final(self).wf(),
            final(self).spec_input() == old(self).spec_input(),
            ({
                let s = old(self).spec_input();
                let start = old(self).spec_pos() - 1;
                let e = num_run_end(s, start);
                let run = s.subrange(start, e);
                &&& e >= start + 1
                &&& final(self).spec_pos() == (if e < s.len() {
                    e + 1
                } else {
                    e
                })
                &&& (if e < s.len() {
                    final(self).in_sync()
                } else {
                    final(self).done()
                })
                &&& match r {
                    Ok(_) => lit_ok(run) && final(self).spec_tokens() == old(self).spec_tokens()
                        .push(
                        Token::Number(Spanned(spec_span(start, e), lit_val(run) as i32)),
                    ),
                    Err(err) => !lit_ok(run) && err == LexerError::InvalidToken && final(self).spec_tokens() == old(self).spec_tokens(),
                }
            }),
    {
        let ghost s = self.spec_input();
        let ghost start = self.spec_pos() - 1;
        let ghost e = num_run_end(s, start);
        let start_idx = self.current.0;
        proof {
            lemma_num_run_end_bounds(s, start);
        }
        while is_num_char_exec(self.current.1)
            invariant
                self.spec_input() == s,
                self.spec_tokens() == old(self).spec_tokens(),
                self.in_sync() || self.done(),
                ({
                    let p = if self.in_sync() {
                        self.spec_pos() - 1
                    } else {
                        s.len() as int
                    };
                    &&& start <= p <= s.len()
                    &&& num_run_end(s, p) == e
                }),
            decreases s.len() - self.spec_pos() + (if self.done() {
                0int
            } else {
                1int
            }),
        {
            self.advance();
        }
        proof {
            if self.in_sync() {
                assert(self.spec_pos() - 1 == e);
            } else {
                assert(e == s.len());
            }
            assert(start <= e <= s.len());
        }
        let end_idx: usize;
        if self.current.0 == 0 && self.current.1 == '\0' {
            end_idx = self.pos;
        } else {
            end_idx = self.current.0;
        }
        proof {
            assert(end_idx as int == e);
        }
        match parse_literal(&self.input, start_idx, end_idx) {
            Ok(n) => {
                self.tokens.push(Token::Number(Spanned(start_idx..end_idx, n)));
                proof {
                    let run = s.subrange(start, e);
                    assert(lit_val(run) as i32 == n);
                }
                Ok(())
            },
            Err(err) => Err(err),
        }
    }

    /// Scan one word starting at the lookahead: consume the maximal
    /// alphanumeric run and append its keyword token, or an identifier
    /// token carrying the word.
    #[verifier::loop_isolation(false)]
    fn process_identifier(&mut self) -> (r: Result<(), LexerError>)
        requires
            old(self).in_sync(),
            is_letter(old(self).spec_cur().1),
        ensures
            final(self).wf(),
            final(self).spec_input() == old(self).spec_input(),
            r is Ok,
            ({
                let s = old(self).spec_input();
                let start = old(self).spec_pos() - 1;
                let e = alnum_run_end(s, start);
                let run = s.subrange(start, e);
                let toks = final(self).spec_tokens();
                &&& final(self).spec_pos() == (if e < s.len() {
                    e + 1
                } else {
                    e
                })
                &&& (if e < s.len() {
                    final(self).in_sync()
                } else {
                    final(self).done()
                })
                &&& final(self).spec_pos() > old(self).spec_pos() || final(self).done()
                &&& toks.len() == old(self).spec_tokens().len() + 1
                &&& toks.take(toks.len() - 1) == old(self).spec_tokens()
                &&& match spec_keyword(run, spec_span(start, e)) {
                    Some(t) => toks.last() == t,
                    None => toks.last() matches Token::Identifier(sp) && sp.spec_start() == start
                        && sp.spec_end() == e && sp.1@ == run,
                }
            }),
    {
        let ghost s = self.spec_input();
        let ghost start = self.spec_pos() - 1;
        let ghost e = alnum_run_end(s, start);
        let start_idx = self.current.0;
        let mut strep = String::new();
        proof {
            lemma_alnum_run_end_bounds(s, start);
            assert(strep@ =~= s.subrange(start, start));
        }
        while self.current.1.is_alphanumeric()
            invariant
                self.spec_input() == s,
                self.spec_tokens() == old(self).spec_tokens(),
                self.in_sync() || self.done(),
                ({
                    let p = if self.in_sync() {
                        self.spec_pos() - 1
                    } else {
                        s.len() as int
                    };
                    &&& start <= p <= s.len()
                    &&& alnum_run_end(s, p) == e
                    &&& strep@ == s.subrange(start, p)
                }),
            decreases s.len() - self.spec_pos() + (if self.done() {
                0int
            } else {
                1int
            }),
        {
            push_char(&mut strep, self.current.1);
            proof {
                let p = self.spec_pos() - 1;
                assert(strep@ =~= s.subrange(start, p + 1));
            }
            self.advance();
        }
        proof {
            if self.in_sync() {
                assert(self.spec_pos() - 1 == e);
            } else {
                assert(e == s.len());
            }
            assert(strep@ == s.subrange(start, e));
        }
        let end_idx: usize;
        if self.current.0 == 0 && self.current.1 == '\0' {
            end_idx = self.pos;
        } else {
            end_idx = self.current.0;
        }
        proof {
            assert(end_idx as int == e);
        }
        match keyword_token(strep.as_str(), start_idx..end_idx) {
            Some(t) => {
                self.tokens.push(t);
            },
            None => {
                self.tokens.push(Token::Identifier(Spanned(start_idx..end_idx, strep)));
            },
        }
        proof {
            let toks = self.spec_tokens();
            assert(toks.take(toks.len() - 1) =~= old(self).spec_tokens());
        }
        Ok(())
    }

    /// Scan one string literal: the lookahead holds the opening quote;
    /// collect everything up to the closing quote and append one string
    /// token.  A literal that never closes is an error.
    #[verifier::loop_isolation(false)]
    fn process_string(&mut self) -> (r: Result<(), LexerError>)
        requires
            old(self).in_sync(),
            old(self).spec_cur().1 == '"',
        ensures
            final(self).wf(),
            final(self).spec_input() == old(self).spec_input(),
            ({
                let s = old(self).spec_input();
                let q = old(self).spec_pos() - 1;
                let e = find_char(s, q + 1, '"');
                let toks = final(self).spec_tokens();
                &&& e >= q + 1
                &&& match r {
                    Ok(_) => e < s.len() && final(self).spec_pos() == (if e + 1 < s.len() {
                        e + 2
                    } else {
                        e + 1
                    }) && (if e + 1 < s.len() {
                        final(self).in_sync()
                    } else {
                        final(self).done()
                    }) && toks.len() == old(self).spec_tokens().len() + 1 && toks.take(
                        toks.len() - 1,
                    ) == old(self).spec_tokens() && (toks.last() matches Token::String(sp)
                        && sp.spec_start() == q && sp.spec_end() == e && sp.1@ == s.subrange(
                        q + 1,
                        e,
                    )),
                    Err(err) => e == s.len() && err == LexerError::InvalidToken && toks == old(self).spec_tokens(),
                }
            }),
    {
        let ghost s = self.spec_input();
        let ghost q = self.spec_pos() - 1;
        let ghost e = find_char(s, q + 1, '"');
        let q_idx = self.current.0;
        let mut strep = String::new();
        proof {
            lemma_find_char_bounds(s, q + 1, '"');
        }
        self.advance();
        proof {
            assert(strep@ =~= s.subrange(q + 1, q + 1));
        }
        loop
            invariant
                self.spec_input() == s,
                self.spec_tokens() == old(self).spec_tokens(),
                self.in_sync() || self.done(),
                0 <= q < s.len(),
                ({
                    let p = if self.in_sync() {
                        self.spec_pos() - 1
                    } else {
                        s.len() as int
                    };
                    &&& q + 1 <= p <= s.len()
                    &&& find_char(s, p, '"') == e
                    &&& strep@ == s.subrange(q + 1, p)
                    &&& (self.in_sync() ==> self.spec_cur().0 >= 1)
                }),
            decreases s.len() - self.spec_pos() + (if self.done() {
                0int
            } else {
                1int
            }),
        {
            if self.current.1 == '"' {
                break ;
            }
            if self.current.0 == 0 && self.current.1 == '\0' {
                return Err(LexerError::InvalidToken);
            }
            push_char(&mut strep, self.current.1);
            proof {
                let p = self.spec_pos() - 1;
                assert(strep@ =~= s.subrange(q + 1, p + 1));
            }
            self.advance();
        }
        proof {
            assert(self.in_sync());
            assert(self.spec_pos() - 1 == e);
        }
        let end_idx = self.current.0;
        self.advance();
        self.tokens.push(Token::String(Spanned(q_idx..end_idx, strep)));
        proof {
            let toks = self.spec_tokens();
            assert(toks.take(toks.len() - 1) =~= old(self).spec_tokens());
        }
        Ok(())
    }
}


/// A scan end clamped into `i + 1 ..= s.len()`, so recursion over the
/// remaining input is well founded; on every state the tokenizer reaches
/// the clamp changes nothing.
pub open spec fn clamp_scan(s: Seq<char>, i: int, e: int) -> int {
    if e < i + 1 {
        i + 1
    } else if e > s.len() {
        s.len() as int
    } else {
        e
    }
}

/// The outcome of tokenizing from the character at index `i` to the end:
/// `Ok` exactly when every remaining character is consumed (a NUL, like the
/// end of the input, stops the scan cleanly); `InvalidToken` at the first
/// character that starts no token class or heads a malformed or
/// overflowing literal or an unterminated string; `InvalidSymbol` when a
/// run of operator characters spells no operator.  Recursion indices are
/// clamped forward so the definition is total; the clamps are inert on the
/// states the tokenizer reaches.
pub open spec fn spec_lex_outcome(s: Seq<char>, i: int) -> Result<(), LexerError>
    decreases s.len() - i,
{
    if i < 0 || i >= s.len() || s[i] == '\0' {
        Ok(())
    } else {
        let c = s[i];
        if is_dec_digit(c) {
            let e = num_run_end(s, i);
            let j = clamp_scan(s, i, e);
            if lit_ok(s.subrange(i, e)) {
                spec_lex_outcome(s, j)
            } else {
                Err(LexerError::InvalidToken)
            }
        } else if is_letter(c) {
            let e = alnum_run_end(s, i);
            let j = clamp_scan(s, i, e);
            spec_lex_outcome(s, j)
        } else if c == '"' {
            let e = find_char(s, i + 1, '"');
            if e < s.len() {
                let j = clamp_scan(s, i, e + 1);
                spec_lex_outcome(s, j)
            } else {
                Err(LexerError::InvalidToken)
            }
        } else if is_symbol_start(c) {
            let e = op_run_end(s, i, i);
            match spec_operator(s.subrange(i, e), spec_span(i, e)) {
                None => Err(LexerError::InvalidSymbol),
                Some(t) => {
                    let j = if t matches Token::Comment(_) {
                        clamp_scan(s, i, find_char(s, e, '\n'))
                    } else {
                        clamp_scan(s, i, e)
                    };
                    spec_lex_outcome(s, j)
                },
            }
        } else if is_space(c) {
            spec_lex_outcome(s, i + 1)
        } else {
            Err(LexerError::InvalidToken)
        }
    }
}

/// The tokens produced when tokenizing from the character at index `i`:
/// one entry per scanned token, in scan order, stopping at the end of the
/// input or at the first failure (which contributes nothing).
pub open spec fn lex_tokens_ok(s: Seq<char>, i: int, toks: Seq<Token>) -> bool
    decreases s.len() - i,
{
    if i < 0 || i >= s.len() || s[i] == '\0' {
        toks.len() == 0
    } else {
        let c = s[i];
        if is_dec_digit(c) {
            let e = num_run_end(s, i);
            let j = clamp_scan(s, i, e);
            let run = s.subrange(i, e);
            if lit_ok(run) {
                &&& toks.len() >= 1
                &&& (toks[0] matches Token::Number(sp) && sp.spec_start() == i && sp.spec_end()
                    == e && sp.spec_val() == lit_val(run) as i32)
                &&& lex_tokens_ok(s, j, toks.drop_first())
            } else {
                toks.len() == 0
            }
        } else if is_letter(c) {
            let e = alnum_run_end(s, i);
            let j = clamp_scan(s, i, e);
            let run = s.subrange(i, e);
            &&& toks.len() >= 1
            &&& (match spec_keyword(run, spec_span(i, e)) {
                Some(t) => toks[0] == t,
                None => toks[0] matches Token::Identifier(sp) && sp.spec_start() == i
                    && sp.spec_end() == e && sp.spec_val()@ == run,
            })
            &&& lex_tokens_ok(s, j, toks.drop_first())
        } else if c == '"' {
            let e = find_char(s, i + 1, '"');
            if e < s.len() {
                let j = clamp_scan(s, i, e + 1);
                &&& toks.len() >= 1
                &&& (toks[0] matches Token::String(sp) && sp.spec_start() == i && sp.spec_end()
                    == e && sp.spec_val()@ == s.subrange(i + 1, e))
                &&& lex_tokens_ok(s, j, toks.drop_first())
            } else {
                toks.len() == 0
            }
        } else if is_symbol_start(c) {
            let e = op_run_end(s, i, i);
            match spec_operator(s.subrange(i, e), spec_span(i, e)) {
                None => toks.len() == 0,
                Some(t) => {
                    let j = if t matches Token::Comment(_) {
                        clamp_scan(s, i, find_char(s, e, '\n'))
                    } else {
                        clamp_scan(s, i, e)
                    };
                    &&& toks.len() >= 1
                    &&& toks[0] == t
                    &&& lex_tokens_ok(s, j, toks.drop_first())
                },
            }
        } else if is_space(c) {
            lex_tokens_ok(s, i + 1, toks)
        } else {
            toks.len() == 0
        }
    }
}


impl Lexer {
    /// Scan one operator starting at the lookahead by maximal munch: grow
    /// the spelling while the extension is still an operator, then append
    /// its token.  A comment first skips to the end of the line.  A run
    /// that spells no operator is an error.
    #[verifier::loop_isolation(false)]
    #[verifier::rlimit(60)]
    fn process_symbol(&mut self) -> (r: Result<(), LexerError>)
        requires
            old(self).in_sync(),
            is_symbol_start(old(self).spec_cur().1),
        ensures
            final(self).wf(),
            final(self).spec_input() == old(self).spec_input(),
            final(self).in_sync() || final(self).done(),
            ({
                let s = old(self).spec_input();
                let start = old(self).spec_pos() - 1;
                let e = op_run_end(s, start, start);
                let run = s.subrange(start, e);
                let toks = final(self).spec_tokens();
                match r {
                    Ok(_) => (match spec_operator(run, spec_span(start, e)) {
                        Some(t) => toks == old(self).spec_tokens().push(t) && (if t
                            matches Token::Comment(_) {
                            let nl = find_char(s, e, '\n');
                            &&& final(self).spec_pos() == (if nl < s.len() {
                                nl + 1
                            } else {
                                nl
                            })
                            &&& (if nl < s.len() {
                                final(self).in_sync()
                            } else {
                                final(self).done()
                            })
                        } else {
                            &&& final(self).spec_pos() == (if e < s.len() {
                                e + 1
                            } else {
                                e
                            })
                            &&& (if e < s.len() {
                                final(self).in_sync()
                            } else {
                                final(self).done()
                            })
                        }),
                        None => false,
                    }) && (final(self).spec_pos() > old(self).spec_pos() || final(self).done()),
                    Err(err) => err == LexerError::InvalidSymbol && spec_operator(
                        run,
                        spec_span(start, e),
                    ) is None && toks == old(self).spec_tokens() && final(self).spec_pos() == old(self).spec_pos() && final(self).in_sync(),
                }
            }),
    {
        let ghost s = self.spec_input();
        let ghost start = self.spec_pos() - 1;
        let ghost e = op_run_end(s, start, start);
        let start_idx = self.current.0;
        let mut strep = String::new();
        proof {
            lemma_op_run_end_bounds(s, start, start);
            assert(strep@ =~= s.subrange(start, start));
        }
        let mut scan = true;
        while scan
            invariant
                self.spec_input() == s,
                self.spec_tokens() == old(self).spec_tokens(),
                self.in_sync() || self.done(),
                ({
                    let p = if self.in_sync() {
                        self.spec_pos() - 1
                    } else {
                        s.len() as int
                    };
                    &&& start <= p <= s.len()
                    &&& strep@ == s.subrange(start, p)
                    &&& (scan ==> op_run_end(s, start, p) == e)
                    &&& (!scan ==> p == e)
                    &&& (p > start ==> is_op(s.subrange(start, p)))
                }),
            decreases 2 * (s.len() - self.spec_pos()) + (if self.done() {
                0int
            } else {
                1int
            }) + (if scan {
                1int
            } else {
                0int
            }),
        {
            if self.current.0 == 0 && self.current.1 == '\0' {
                scan = false;
            } else {
                let mut cand = strep.clone();
                push_char(&mut cand, self.current.1);
                proof {
                    let p = self.spec_pos() - 1;
                    assert(cand@ =~= s.subrange(start, p + 1));
                }
                if is_operator(cand.as_str()) {
                    strep = cand;
                    self.advance();
                } else {
                    scan = false;
                }
            }
        }
        let end_idx: usize;
        if self.current.0 == 0 && self.current.1 == '\0' {
            end_idx = self.pos;
        } else {
            end_idx = self.current.0;
        }
        proof {
            assert(end_idx as int == e);
            assert(strep@ == s.subrange(start, e));
            reveal_strlit("+");
            reveal_strlit("-");
            reveal_strlit("*");
            reveal_strlit("/");
            reveal_strlit("**");
            reveal_strlit("++");
            reveal_strlit("--");
            reveal_strlit(";");
            reveal_strlit(":");
            reveal_strlit("$");
            reveal_strlit("=");
            reveal_strlit("==");
            reveal_strlit("!");
            reveal_strlit("!=");
            reveal_strlit("(");
            reveal_strlit(")");
            reveal_strlit("{");
            reveal_strlit("}");
            reveal_strlit("[");
            reveal_strlit("]");
            reveal_strlit(",");
            reveal_strlit(".");
            reveal_strlit(">");
            reveal_strlit("<");
            reveal_strlit("//");
        }
        match op_token(strep.as_str(), start_idx..end_idx) {
            None => Err(LexerError::InvalidSymbol),
            Some(tok) => {
                let is_comment = matches!(tok, Token::Comment(_));
                proof {
                    assert(s.subrange(start, e).len() >= 1);
                }
                if is_comment {
                    let ghost nl = find_char(s, e, '\n');
                    proof {
                        assert(s.subrange(start, e).len() == 2);
                        lemma_find_char_bounds(s, e, '\n');
                    }
                    loop
                        invariant
                            self.spec_input() == s,
                            self.spec_tokens() == old(self).spec_tokens(),
                            self.in_sync() || self.done(),
                            self.in_sync() ==> self.spec_cur().0 >= 1,
                            self.in_sync() ==> self.spec_pos() >= e + 1,
                            self.spec_pos() >= old(self).spec_pos(),
                            ({
                                let p = if self.in_sync() {
                                    self.spec_pos() - 1
                                } else {
                                    s.len() as int
                                };
                                &&& e <= p <= s.len()
                                &&& find_char(s, p, '\n') == nl
                            }),
                        decreases 2 * (s.len() - self.spec_pos()) + (if self.done() {
                            0int
                        } else {
                            1int
                        }),
                    {
                        if self.current.0 == 0 && self.current.1 == '\0' {
                            break ;
                        }
                        if self.current.1 == '\n' {
                            break ;
                        }
                        self.advance();
                    }
                    proof {
                        if self.in_sync() {
                            assert(self.spec_pos() - 1 == nl);
                        } else {
                            assert(nl == s.len());
                        }
                    }
                }
                self.tokens.push(tok);
                Ok(())
            },
        }
    }

    /// Tokenize the whole input: dispatch on the lookahead until the end,
    /// skipping whitespace, and stop at the first failure.  The outcome and
    /// the run of tokens appended are exactly those of the lexing model;
    /// tokens collected before a failure are kept.
    #[verifier::loop_isolation(false)]
    #[verifier::rlimit(100)]
    #[verifier::spinoff_prover]
    pub fn process(&mut self) -> (r: Result<(), LexerError>)
        requires
            old(self).wf(),
        ensures
            final(self).wf(),
            final(self).spec_input() == old(self).spec_input(),
            r == spec_lex_outcome(old(self).spec_input(), old(self).spec_pos()),
            final(self).spec_tokens().len() >= old(self).spec_tokens().len(),
            final(self).spec_tokens().take(old(self).spec_tokens().len() as int) == old(self).spec_tokens(),
            lex_tokens_ok(
                old(self).spec_input(),
                old(self).spec_pos(),
                final(self).spec_tokens().skip(old(self).spec_tokens().len() as int),
            ),
    {
        let ghost s = self.spec_input();
        let ghost toks0 = self.spec_tokens();
        let ghost p0 = self.spec_pos();
        let ghost mut emitted: Seq<Token> = Seq::empty();
        proof {
            assert(self.spec_tokens() =~= toks0 + emitted);
        }
        self.advance();
        proof {
            assert forall|rest: Seq<Token>| lex_tokens_ok(s, p0, rest) implies #[trigger] lex_tokens_ok(
                s,
                p0,
                emitted + rest,
            ) by {
                assert(emitted + rest =~= rest);
            }
        }
        while self.current.1 != '\0'
            invariant
                self.wf(),
                self.spec_input() == s,
                self.in_sync() || self.done(),
                self.spec_tokens() == toks0 + emitted,
                ({
                    let p = if self.in_sync() {
                        self.spec_pos() - 1
                    } else {
                        s.len() as int
                    };
                    &&& 0 <= p <= s.len()
                    &&& spec_lex_outcome(s, p0) == spec_lex_outcome(s, p)
                    &&& forall|rest: Seq<Token>| lex_tokens_ok(s, p, rest)
                        ==> #[trigger] lex_tokens_ok(s, p0, emitted + rest)
                }),
            decreases 2 * (s.len() - self.spec_pos()) + (if self.done() {
                0int
            } else {
                1int
            }),
        {
            let ghost p = self.spec_pos() - 1;
            let ghost emitted0 = emitted;
            let c = self.current.1;
            proof {
                assert(self.in_sync());
                assert(s[p] == c);
            }
            if is_dec_digit_exec(c) {
                match self.process_digit() {
                    Ok(_) => {
                    },
                    Err(err) => {
                        proof {
                            lemma_lex_tokens_close(s, p0, p, emitted);
                            assert((toks0 + emitted).take(toks0.len() as int) =~= toks0);
                            assert((toks0 + emitted).skip(toks0.len() as int) =~= emitted);
                        }
                        return Err(err);
                    },
                }
                proof {
                    let e = num_run_end(s, p);
                    let jp = if self.in_sync() {
                        self.spec_pos() - 1
                    } else {
                        s.len() as int
                    };
                    assert(jp == clamp_scan(s, p, e));
                    let tok = self.spec_tokens().last();
                    assert forall|rest: Seq<Token>| lex_tokens_ok(s, jp, rest)
                        implies #[trigger] lex_tokens_ok(s, p, seq![tok] + rest) by {
                        assert((seq![tok] + rest).drop_first() =~= rest);
                        assert((seq![tok] + rest)[0] == tok);
                    }
                    lemma_lex_tokens_step(s, p0, p, jp, emitted0, tok);
                    emitted = emitted0.push(tok);
                    assert(self.spec_tokens() =~= toks0 + emitted);
                }
            } else if is_letter_exec(c) {
                match self.process_identifier() {
                    Ok(_) => {
                    },
                    Err(err) => {
                        // the word scanner promises success
                        proof {
                            assert(false);
                        }
                        return Err(err);
                    },
                }
                proof {
                    broadcast use vstd::seq_lib::lemma_seq_take_index, vstd::seq_lib::lemma_seq_take_len;

                    let e = alnum_run_end(s, p);
                    let jp = if self.in_sync() {
                        self.spec_pos() - 1
                    } else {
                        s.len() as int
                    };
                    assert(jp == clamp_scan(s, p, e));
                    let tok = self.spec_tokens().last();
                    assert(self.spec_tokens() =~= (toks0 + emitted0).push(tok));
                    assert forall|rest: Seq<Token>| lex_tokens_ok(s, jp, rest)
                        implies #[trigger] lex_tokens_ok(s, p, seq![tok] + rest) by {
                        assert((seq![tok] + rest).drop_first() =~= rest);
                        assert((seq![tok] + rest)[0] == tok);
                    }
                    lemma_lex_tokens_step(s, p0, p, jp, emitted0, tok);
                    emitted = emitted0.push(tok);
                    assert(self.spec_tokens() =~= toks0 + emitted);
                }
            } else if c == '"' {
                match self.process_string() {
                    Ok(_) => {
                    },
                    Err(err) => {
                        proof {
                            lemma_lex_tokens_close(s, p0, p, emitted);
                            assert((toks0 + emitted).take(toks0.len() as int) =~= toks0);
                            assert((toks0 + emitted).skip(toks0.len() as int) =~= emitted);
                        }
                        return Err(err);
                    },
                }
                proof {
                    broadcast use vstd::seq_lib::lemma_seq_take_index, vstd::seq_lib::lemma_seq_take_len;

                    let e = find_char(s, p + 1, '"');
                    let jp = if self.in_sync() {
                        self.spec_pos() - 1
                    } else {
                        s.len() as int
                    };
                    assert(jp == clamp_scan(s, p, e + 1));
                    let tok = self.spec_tokens().last();
                    assert(self.spec_tokens() =~= (toks0 + emitted0).push(tok));
                    assert forall|rest: Seq<Token>| lex_tokens_ok(s, jp, rest)
                        implies #[trigger] lex_tokens_ok(s, p, seq![tok] + rest) by {
                        assert((seq![tok] + rest).drop_first() =~= rest);
                        assert((seq![tok] + rest)[0] == tok);
                    }
                    lemma_lex_tokens_step(s, p0, p, jp, emitted0, tok);
                    emitted = emitted0.push(tok);
                    assert(self.spec_tokens() =~= toks0 + emitted);
                }
            } else if is_symbol_start_exec(c) {
                match self.process_symbol() {
                    Ok(_) => {
                    },
                    Err(err) => {
                        proof {
                            lemma_lex_tokens_close(s, p0, p, emitted);
                            assert((toks0 + emitted).take(toks0.len() as int) =~= toks0);
                            assert((toks0 + emitted).skip(toks0.len() as int) =~= emitted);
                        }
                        return Err(err);
                    },
                }
                proof {
                    let e = op_run_end(s, p, p);
                    let t = spec_operator(s.subrange(p, e), spec_span(p, e))->Some_0;
                    let jp = if self.in_sync() {
                        self.spec_pos() - 1
                    } else {
                        s.len() as int
                    };
                    if t matches Token::Comment(_) {
                        assert(jp == clamp_scan(s, p, find_char(s, e, '\n')));
                    } else {
                        assert(jp == clamp_scan(s, p, e));
                    }
                    let tok = self.spec_tokens().last();
                    assert(tok == t);
                    assert forall|rest: Seq<Token>| lex_tokens_ok(s, jp, rest)
                        implies #[trigger] lex_tokens_ok(s, p, seq![tok] + rest) by {
                        assert((seq![tok] + rest).drop_first() =~= rest);
                        assert((seq![tok] + rest)[0] == tok);
                    }
                    lemma_lex_tokens_step(s, p0, p, jp, emitted0, tok);
                    emitted = emitted0.push(tok);
                    assert(self.spec_tokens() =~= toks0 + emitted);
                }
            } else if c == ' ' || c == '\n' || c == '\t' {
                self.advance();
                proof {
                    let jp = if self.in_sync() {
                        self.spec_pos() - 1
                    } else {
                        s.len() as int
                    };
                    assert(jp == p + 1);
                    assert forall|rest: Seq<Token>| lex_tokens_ok(s, jp, rest)
                        implies #[trigger] lex_tokens_ok(s, p0, emitted + rest) by {
                        assert(lex_tokens_ok(s, p, rest));
                    }
                }
            } else {
                proof {
                    lemma_lex_tokens_close(s, p0, p, emitted);
                    assert((toks0 + emitted).take(toks0.len() as int) =~= toks0);
                    assert((toks0 + emitted).skip(toks0.len() as int) =~= emitted);
                }
                return Err(LexerError::InvalidToken);
            }
        }
        proof {
            let p = if self.in_sync() {
                self.spec_pos() - 1
            } else {
                s.len() as int
            };
            lemma_lex_tokens_close(s, p0, p, emitted);
            assert((toks0 + emitted).take(toks0.len() as int) =~= toks0);
            assert((toks0 + emitted).skip(toks0.len() as int) =~= emitted);
        }
        Ok(())
    }
}

/// Closing a finished or failed scan: the characters from `p` on produce
/// no further token, so what was emitted so far is the whole run.
proof fn lemma_lex_tokens_close(s: Seq<char>, p0: int, p: int, emitted: Seq<Token>)
    requires
        lex_tokens_ok(s, p, Seq::<Token>::empty()),
        forall|rest: Seq<Token>| lex_tokens_ok(s, p, rest) ==> #[trigger] lex_tokens_ok(
            s,
            p0,
            emitted + rest,
        ),
    ensures
        lex_tokens_ok(s, p0, emitted),
{
    assert(lex_tokens_ok(s, p0, emitted + Seq::<Token>::empty()));
    assert(emitted + Seq::<Token>::empty() =~= emitted);
}

/// One scanned token extends the emitted run.
proof fn lemma_lex_tokens_step(
    s: Seq<char>,
    p0: int,
    p: int,
    jp: int,
    emitted0: Seq<Token>,
    tok: Token,
)
    requires
        forall|rest: Seq<Token>| lex_tokens_ok(s, p, rest) ==> #[trigger] lex_tokens_ok(
            s,
            p0,
            emitted0 + rest,
        ),
        forall|rest: Seq<Token>| lex_tokens_ok(s, jp, rest) ==> #[trigger] lex_tokens_ok(
            s,
            p,
            seq![tok] + rest,
        ),
    ensures
        forall|rest: Seq<Token>| lex_tokens_ok(s, jp, rest) ==> #[trigger] lex_tokens_ok(
            s,
            p0,
            emitted0.push(tok) + rest,
        ),
{
    assert forall|rest: Seq<Token>| lex_tokens_ok(s, jp, rest) implies #[trigger] lex_tokens_ok(
        s,
        p0,
        emitted0.push(tok) + rest,
    ) by {
        assert(lex_tokens_ok(s, p, seq![tok] + rest));
        assert(lex_tokens_ok(s, p0, emitted0 + (seq![tok] + rest)));
        assert(emitted0 + (seq![tok] + rest) =~= emitted0.push(tok) + rest);
    }
}

/// Tokenize a source text: the returned tokens are exactly the run the
/// lexing model produces from the start of the input; whatever was scanned
/// before the first failure is returned, and the failure itself is
/// swallowed, as the front end expects.
pub fn lex(src: &str) -> (tokens: Vec<Token>)
    ensures
        lex_tokens_ok(src@, 0, tokens@),
{
    let mut l = Lexer::new(src);
    let _ = l.process();
    proof {
        assert(l.spec_tokens().skip(0) =~= l.spec_tokens());
    }
    l.tokens
}

/// Whether two tokens have the same kind, span, and payload text.
pub open spec fn spec_token_eq(a: Token, b: Token) -> bool {
    match (a, b) {
        (Token::Number(x), Token::Number(y)) => x.spec_start() == y.spec_start() && x.spec_end()
            == y.spec_end() && x.spec_val() == y.spec_val(),
        (Token::Identifier(x), Token::Identifier(y)) => x.spec_start() == y.spec_start()
            && x.spec_end() == y.spec_end() && x.spec_val()@ == y.spec_val()@,
        (Token::String(x), Token::String(y)) => x.spec_start() == y.spec_start() && x.spec_end()
            == y.spec_end() && x.spec_val()@ == y.spec_val()@,
        (Token::Return(x), Token::Return(y)) => x == y,
        (Token::Function(x), Token::Function(y)) => x == y,
        (Token::Var(x), Token::Var(y)) => x == y,
        (Token::Asm(x), Token::Asm(y)) => x == y,
        (Token::If(x), Token::If(y)) => x == y,
        (Token::Then(x), Token::Then(y)) => x == y,
        (Token::Else(x), Token::Else(y)) => x == y,
        (Token::Namespace(x), Token::Namespace(y)) => x == y,
        (Token::Here(x), Token::Here(y)) => x == y,
        (Token::Plus(x), Token::Plus(y)) => x == y,
        (Token::Minus(x), Token::Minus(y)) => x == y,
        (Token::Mul(x), Token::Mul(y)) => x == y,
        (Token::Div(x), Token::Div(y)) => x == y,
        (Token::Pow(x), Token::Pow(y)) => x == y,
        (Token::Increment(x), Token::Increment(y)) => x == y,
        (Token::Decrease(x), Token::Decrease(y)) => x == y,
        (Token::Semicolon(x), Token::Semicolon(y)) => x == y,
        (Token::Colon(x), Token::Colon(y)) => x == y,
        (Token::Dollar(x), Token::Dollar(y)) => x == y,
        (Token::Eqq(x), Token::Eqq(y)) => x == y,
        (Token::Eq(x), Token::Eq(y)) => x == y,
        (Token::Not(x), Token::Not(y)) => x == y,
        (Token::NotEq(x), Token::NotEq(y)) => x == y,
        (Token::LParen(x), Token::LParen(y)) => x == y,
        (Token::RParen(x), Token::RParen(y)) => x == y,
        (Token::LBrace(x), Token::LBrace(y)) => x == y,
        (Token::RBrace(x), Token::RBrace(y)) => x == y,
        (Token::LBracket(x), Token::LBracket(y)) => x == y,
        (Token::RBracket(x), Token::RBracket(y)) => x == y,
        (Token::Comma(x), Token::Comma(y)) => x == y,
        (Token::Dot(x), Token::Dot(y)) => x == y,
        (Token::Greater(x), Token::Greater(y)) => x == y,
        (Token::Less(x), Token::Less(y)) => x == y,
        (Token::Comment(x), Token::Comment(y)) => x == y,
        _ => false,
    }
}

/// Whether two spans are equal.
fn span_eq(a: &Span, b: &Span) -> (r: bool)
    ensures
        r == (a == b),
{
    a.start == b.start && a.end == b.end
}

/// Compare two tokens by kind, span, and payload text.
pub fn token_eq(a: &Token, b: &Token) -> (r: bool)
    ensures
        r == spec_token_eq(*a, *b),
{
    match (a, b) {
        (Token::Number(x), Token::Number(y)) => span_eq(&x.0, &y.0) && x.1 == y.1,
        (Token::Identifier(x), Token::Identifier(y)) => span_eq(&x.0, &y.0) && x.1 == y.1,
        (Token::String(x), Token::String(y)) => span_eq(&x.0, &y.0) && x.1 == y.1,
        (Token::Return(x), Token::Return(y)) => span_eq(x, y),
        (Token::Function(x), Token::Function(y)) => span_eq(x, y),
        (Token::Var(x), Token::Var(y)) => span_eq(x, y),
        (Token::Asm(x), Token::Asm(y)) => span_eq(x, y),
        (Token::If(x), Token::If(y)) => span_eq(x, y),
        (Token::Then(x), Token::Then(y)) => span_eq(x, y),
        (Token::Else(x), Token::Else(y)) => span_eq(x, y),
        (Token::Namespace(x), Token::Namespace(y)) => span_eq(x, y),
        (Token::Here(x), Token::Here(y)) => span_eq(x, y),
        (Token::Plus(x), Token::Plus(y)) => span_eq(x, y),
        (Token::Minus(x), Token::Minus(y)) => span_eq(x, y),
        (Token::Mul(x), Token::Mul(y)) => span_eq(x, y),
        (Token::Div(x), Token::Div(y)) => span_eq(x, y),
        (Token::Pow(x), Token::Pow(y)) => span_eq(x, y),
        (Token::Increment(x), Token::Increment(y)) => span_eq(x, y),
        (Token::Decrease(x), Token::Decrease(y)) => span_eq(x, y),
        (Token::Semicolon(x), Token::Semicolon(y)) => span_eq(x, y),
        (Token::Colon(x), Token::Colon(y)) => span_eq(x, y),
        (Token::Dollar(x), Token::Dollar(y)) => span_eq(x, y),
        (Token::Eqq(x), Token::Eqq(y)) => span_eq(x, y),
        (Token::Eq(x), Token::Eq(y)) => span_eq(x, y),
        (Token::Not(x), Token::Not(y)) => span_eq(x, y),
        (Token::NotEq(x), Token::NotEq(y)) => span_eq(x, y),
        (Token::LParen(x), Token::LParen(y)) => span_eq(x, y),
        (Token::RParen(x), Token::RParen(y)) => span_eq(x, y),
        (Token::LBrace(x), Token::LBrace(y)) => span_eq(x, y),
        (Token::RBrace(x), Token::RBrace(y)) => span_eq(x, y),
        (Token::LBracket(x), Token::LBracket(y)) => span_eq(x, y),
        (Token::RBracket(x), Token::RBracket(y)) => span_eq(x, y),
        (Token::Comma(x), Token::Comma(y)) => span_eq(x, y),
        (Token::Dot(x), Token::Dot(y)) => span_eq(x, y),
        (Token::Greater(x), Token::Greater(y)) => span_eq(x, y),
        (Token::Less(x), Token::Less(y)) => span_eq(x, y),
        (Token::Comment(x), Token::Comment(y)) => span_eq(x, y),
        _ => false,
    }
}

} // verus!



