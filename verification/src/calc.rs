//! Expression calculator for the launcher: tokenizer and recursive-descent parser.
//! Handles +, -, *, /, ^, unary minus, parentheses, the constants `pi` and `e`,
//! and common math functions. Parsing yields an expression tree whose numbers are the
//! literal text; computing its value in floating point is left to the caller.
use vstd::prelude::*;
use crate::strs::{chars_of, is_ws, push_char, string_of, trim, trim_range, trim_start};

verus! {

/// A number in an expression: a decimal literal (digits with at most one `.`),
/// or one of the constants `pi` and `e`.
pub enum Number {
    Digits(String),
    Pi,
    E,
}

pub enum NumberV {
    Digits(Seq<char>),
    Pi,
    E,
}

impl View for Number {
    type V = NumberV;

    open spec fn view(&self) -> NumberV {
        match self {
            Number::Digits(s) => NumberV::Digits(s@),
            Number::Pi => NumberV::Pi,
            Number::E => NumberV::E,
        }
    }
}

/// The math functions the calculator knows.
#[derive(Clone, Copy, PartialEq, Eq, Structural)]
pub enum Func {
    Sqrt,
    Abs,
    Sin,
    Cos,
    Tan,
    Ln,
    Log,
    Floor,
    Ceil,
    Round,
}

/// The binary operators.
#[derive(Clone, Copy, PartialEq, Eq, Structural)]
pub enum BinOp {
    Add,
    Sub,
    Mul,
    Div,
    Pow,
}

pub enum Token {
    Num(Number),
    Op(char),
    Neg,
    LParen,
    RParen,
    Func(String),
}

pub enum TokenV {
    Num(NumberV),
    Op(char),
    Neg,
    LParen,
    RParen,
    Func(Seq<char>),
}

impl View for Token {
    type V = TokenV;

    open spec fn view(&self) -> TokenV {
        match self {
            Token::Num(n) => TokenV::Num(n@),
            Token::Op(c) => TokenV::Op(*c),
            Token::Neg => TokenV::Neg,
            Token::LParen => TokenV::LParen,
            Token::RParen => TokenV::RParen,
            Token::Func(s) => TokenV::Func(s@),
        }
    }
}

/// A parsed expression.
pub enum Expr {
    Num(Number),
    Neg(Box<Expr>),
    Bin(BinOp, Box<Expr>, Box<Expr>),
    Call(Func, Box<Expr>),
}

pub enum ExprV {
    Num(NumberV),
    Neg(Box<ExprV>),
    Bin(BinOp, Box<ExprV>, Box<ExprV>),
    Call(Func, Box<ExprV>),
}

impl View for Expr {
    type V = ExprV;

    open spec fn view(&self) -> ExprV
        decreases self,
    {
        match self {
            Expr::Num(n) => ExprV::Num(n@),
            Expr::Neg(a) => ExprV::Neg(Box::new((**a).view())),
            Expr::Bin(op, a, b) => ExprV::Bin(*op, Box::new((**a).view()), Box::new((**b).view())),
            Expr::Call(f, a) => ExprV::Call(*f, Box::new((**a).view())),
        }
    }
}

pub open spec fn toks_view(ts: Seq<Token>) -> Seq<TokenV> {
    ts.map_values(|t: Token| t@)
}

// ── tokenizer ─────────────────────────────────────────────────────────────────

pub open spec fn is_digit(c: char) -> bool {
    '0' <= c <= '9'
}

pub open spec fn is_alpha(c: char) -> bool {
    ('a' <= c <= 'z') || ('A' <= c <= 'Z')
}

pub open spec fn is_num_char(c: char) -> bool {
    is_digit(c) || c == '.'
}

/// End of the run of number characters starting at `i`.
pub open spec fn num_end(s: Seq<char>, i: int) -> int
    decreases s.len() - i,
{
    if 0 <= i < s.len() && is_num_char(s[i]) {
        num_end(s, i + 1)
    } else {
        i
    }
}

/// End of the run of ASCII letters starting at `i`.
pub open spec fn alpha_end(s: Seq<char>, i: int) -> int
    decreases s.len() - i,
{
    if 0 <= i < s.len() && is_alpha(s[i]) {
        alpha_end(s, i + 1)
    } else {
        i
    }
}

pub open spec fn count_dots(s: Seq<char>) -> int
    decreases s.len(),
{
    if s.len() == 0 {
        0
    } else {
        count_dots(s.drop_last()) + if s.last() == '.' {
            1int
        } else {
            0int
        }
    }
}

pub open spec fn has_digit(s: Seq<char>) -> bool {
    exists|k: int| 0 <= k < s.len() && is_digit(s[k])
}

/// A run of digits and dots reads as a decimal number (`f64::from_str`) exactly
/// when it has at most one dot and at least one digit.
pub open spec fn valid_number(s: Seq<char>) -> bool {
    count_dots(s) <= 1 && has_digit(s)
}

/// ASCII lower case of a letter.
pub open spec fn ascii_lower(c: char) -> char {
    if 'A' <= c <= 'Z' {
        ((c as u32) + 32) as char
    } else {
        c
    }
}

pub open spec fn lower_word(s: Seq<char>) -> Seq<char> {
    s.map_values(|c: char| ascii_lower(c))
}

pub open spec fn is_unary_position(acc: Seq<TokenV>) -> bool {
    acc.len() == 0 || acc.last() is Op || acc.last() is Neg || acc.last() is LParen
}

proof fn lemma_num_end(s: Seq<char>, i: int)
    requires
        0 <= i <= s.len(),
    ensures
        i <= num_end(s, i) <= s.len(),
        i < s.len() && is_num_char(s[i]) ==> num_end(s, i) > i,
        forall|k: int| i <= k < num_end(s, i) ==> is_num_char(#[trigger] s[k]),
    decreases s.len() - i,
{
    if i < s.len() && is_num_char(s[i]) {
        lemma_num_end(s, i + 1);
    }
}

proof fn lemma_alpha_end(s: Seq<char>, i: int)
    requires
        0 <= i <= s.len(),
    ensures
        i <= alpha_end(s, i) <= s.len(),
        i < s.len() && is_alpha(s[i]) ==> alpha_end(s, i) > i,
        forall|k: int| i <= k < alpha_end(s, i) ==> is_alpha(#[trigger] s[k]),
    decreases s.len() - i,
{
    if i < s.len() && is_alpha(s[i]) {
        lemma_alpha_end(s, i + 1);
    }
}

#[via_fn]
proof fn tok_spec_decreases(s: Seq<char>, i: int, acc: Seq<TokenV>) {
    if 0 <= i < s.len() {
        lemma_num_end(s, i);
        lemma_alpha_end(s, i);
    }
}

/// Tokens of `s` from position `i`, after the tokens `acc` already read.
/// A `-` where a value cannot end (at the start, after an operator, a negation or
/// `(`) is a negation of what follows; a `+` there is dropped. Spaces separate
/// tokens; any other character fails.
pub open spec fn tok_spec(s: Seq<char>, i: int, acc: Seq<TokenV>) -> Option<Seq<TokenV>>
    decreases s.len() - i,
    via tok_spec_decreases
{
    if i < 0 || i >= s.len() {
        Some(acc)
    } else {
        let c = s[i];
        if c == ' ' {
            tok_spec(s, i + 1, acc)
        } else if c == '+' || c == '-' {
            if is_unary_position(acc) && c == '-' {
                tok_spec(s, i + 1, acc.push(TokenV::Neg))
            } else if is_unary_position(acc) {
                tok_spec(s, i + 1, acc)
            } else {
                tok_spec(s, i + 1, acc.push(TokenV::Op(c)))
            }
        } else if c == '*' || c == '/' || c == '^' {
            tok_spec(s, i + 1, acc.push(TokenV::Op(c)))
        } else if c == '(' {
            tok_spec(s, i + 1, acc.push(TokenV::LParen))
        } else if c == ')' {
            tok_spec(s, i + 1, acc.push(TokenV::RParen))
        } else if is_num_char(c) {
            let j = num_end(s, i);
            let lit = s.subrange(i, j);
            if valid_number(lit) {
                tok_spec(s, j, acc.push(TokenV::Num(NumberV::Digits(lit))))
            } else {
                None
            }
        } else if is_alpha(c) {
            let j = alpha_end(s, i);
            let name = lower_word(s.subrange(i, j));
            if name == seq!['p', 'i'] {
                tok_spec(s, j, acc.push(TokenV::Num(NumberV::Pi)))
            } else if name == seq!['e'] {
                tok_spec(s, j, acc.push(TokenV::Num(NumberV::E)))
            } else {
                tok_spec(s, j, acc.push(TokenV::Func(name)))
            }
        } else {
            None
        }
    }
}

fn lower_char(c: char) -> (r: char)
    ensures
        r == ascii_lower(c),
{
    if 'A' <= c && c <= 'Z' {
        let u = (c as u8) + 32;
        u as char
    } else {
        c
    }
}

fn last_allows_unary(tokens: &Vec<Token>) -> (b: bool)
    ensures
        b == is_unary_position(toks_view(tokens@)),
{
    if tokens.len() == 0 {
        return true;
    }
    let n = tokens.len();
    assert(toks_view(tokens@).last() == tokens@[n - 1]@);
    match &tokens[n - 1] {
        Token::Op(_) => true,
        Token::Neg => true,
        Token::LParen => true,
        _ => false,
    }
}

proof fn lemma_toks_push(ts: Seq<Token>, t: Token)
    ensures
        toks_view(ts.push(t)) == toks_view(ts).push(t@),
{
    assert(toks_view(ts.push(t)) =~= toks_view(ts).push(t@));
}

/// Split `s` into tokens (see `tok_spec`).
fn tokenize(s: &[char]) -> (r: Option<Vec<Token>>)
    ensures
        r is Some <==> tok_spec(s@, 0, Seq::empty()) is Some,
        r matches Some(ts) ==> toks_view(ts@) == tok_spec(s@, 0, Seq::empty())->0,
{
    let mut tokens: Vec<Token> = Vec::new();
    let mut i: usize = 0;
    assert(toks_view(tokens@) =~= Seq::<TokenV>::empty());
    while i < s.len()
        invariant
            0 <= i <= s@.len(),
            tok_spec(s@, 0, Seq::empty()) == tok_spec(s@, i as int, toks_view(tokens@)),
        decreases s.len() - i,
    {
        let c = s[i];
        let ghost acc = toks_view(tokens@);
        if c == ' ' {
            i = i + 1;
        } else if c == '+' || c == '-' {
            let unary = last_allows_unary(&tokens);
            if unary && c == '-' {
                proof { lemma_toks_push(tokens@, Token::Neg); }
                tokens.push(Token::Neg);
            } else if unary {
            } else {
                proof { lemma_toks_push(tokens@, Token::Op(c)); }
                tokens.push(Token::Op(c));
            }
            i = i + 1;
        } else if c == '*' || c == '/' || c == '^' {
            proof { lemma_toks_push(tokens@, Token::Op(c)); }
            tokens.push(Token::Op(c));
            i = i + 1;
        } else if c == '(' {
            proof { lemma_toks_push(tokens@, Token::LParen); }
            tokens.push(Token::LParen);
            i = i + 1;
        } else if c == ')' {
            proof { lemma_toks_push(tokens@, Token::RParen); }
            tokens.push(Token::RParen);
            i = i + 1;
        } else if ('0' <= c && c <= '9') || c == '.' {
            let start = i;
            let mut dots: usize = 0;
            let mut digit = false;
            while i < s.len() && (('0' <= s[i] && s[i] <= '9') || s[i] == '.')
                invariant
                    start < i || (start == i && is_num_char(s@[start as int])),
                    start <= i <= s@.len(),
                    num_end(s@, start as int) == num_end(s@, i as int),
                    dots == count_dots(s@.subrange(start as int, i as int)),
                    dots <= i - start,
                    digit == has_digit(s@.subrange(start as int, i as int)),
                decreases s.len() - i,
            {
                let ghost sub = s@.subrange(start as int, i as int);
                let ghost nsub = s@.subrange(start as int, i + 1);
                assert(nsub.drop_last() == sub);
                assert(nsub.last() == s@[i as int]);
                if s[i] == '.' {
                    dots = dots + 1;
                } else {
                    digit = true;
                    assert(is_digit(nsub[nsub.len() - 1]));
                }
                proof {
                    if !digit {
                        assert forall|k: int| 0 <= k < nsub.len() implies !is_digit(nsub[k]) by {
                            if k < sub.len() {
                                assert(nsub[k] == sub[k]);
                            }
                        }
                    } else if s@[i as int] == '.' {
                        let k = choose|k: int| 0 <= k < sub.len() && is_digit(sub[k]);
                        assert(nsub[k] == sub[k]);
                    }
                }
                i = i + 1;
            }
            if dots > 1 || !digit {
                return None;
            }
            let lit = string_of(s, start, i);
            let t = Token::Num(Number::Digits(lit));
            proof { lemma_toks_push(tokens@, t); }
            tokens.push(t);
            assert(num_end(s@, i as int) == i);
            assert(tok_spec(s@, start as int, acc) == tok_spec(s@, i as int, toks_view(tokens@)));
        } else if ('a' <= c && c <= 'z') || ('A' <= c && c <= 'Z') {
            let start = i;
            let mut name = String::new();
            while i < s.len() && (('a' <= s[i] && s[i] <= 'z') || ('A' <= s[i] && s[i] <= 'Z'))
                invariant
                    start < i || (start == i && is_alpha(s@[start as int])),
                    start <= i <= s@.len(),
                    alpha_end(s@, start as int) == alpha_end(s@, i as int),
                    name@ == lower_word(s@.subrange(start as int, i as int)),
                decreases s.len() - i,
            {
                push_char(&mut name, lower_char(s[i]));
                assert(lower_word(s@.subrange(start as int, i + 1)) == lower_word(
                    s@.subrange(start as int, i as int),
                ).push(ascii_lower(s@[i as int])));
                i = i + 1;
            }
            let nv = chars_of(name.as_str());
            let pi_v: Vec<char> = vec!['p', 'i'];
            let e_v: Vec<char> = vec!['e'];
            assert(pi_v@ == seq!['p', 'i']);
            assert(e_v@ == seq!['e']);
            let t = if crate::strs::eq_chars(nv.as_slice(), pi_v.as_slice()) {
                Token::Num(Number::Pi)
            } else if crate::strs::eq_chars(nv.as_slice(), e_v.as_slice()) {
                Token::Num(Number::E)
            } else {
                Token::Func(name)
            };
            proof { lemma_toks_push(tokens@, t); }
            tokens.push(t);
            assert(alpha_end(s@, i as int) == i);
            assert(tok_spec(s@, start as int, acc) == tok_spec(s@, i as int, toks_view(tokens@)));
        } else {
            return None;
        }
    }
    Some(tokens)
}

// ── parser ────────────────────────────────────────────────────────────────────

/// The function a (lower-case) name stands for.
pub open spec fn func_of(name: Seq<char>) -> Option<Func> {
    if name == seq!['s', 'q', 'r', 't'] {
        Some(Func::Sqrt)
    } else if name == seq!['a', 'b', 's'] {
        Some(Func::Abs)
    } else if name == seq!['s', 'i', 'n'] {
        Some(Func::Sin)
    } else if name == seq!['c', 'o', 's'] {
        Some(Func::Cos)
    } else if name == seq!['t', 'a', 'n'] {
        Some(Func::Tan)
    } else if name == seq!['l', 'n'] {
        Some(Func::Ln)
    } else if name == seq!['l', 'o', 'g'] {
        Some(Func::Log)
    } else if name == seq!['f', 'l', 'o', 'o', 'r'] {
        Some(Func::Floor)
    } else if name == seq!['c', 'e', 'i', 'l'] {
        Some(Func::Ceil)
    } else if name == seq!['r', 'o', 'u', 'n', 'd'] {
        Some(Func::Round)
    } else {
        None
    }
}

/// Position after an optional closing parenthesis at `p`.
pub open spec fn skip_close(ts: Seq<TokenV>, p: int) -> int {
    if 0 <= p < ts.len() && ts[p] is RParen {
        p + 1
    } else {
        p
    }
}

pub open spec fn add_op(t: TokenV) -> Option<BinOp> {
    match t {
        TokenV::Op(c) => if c == '+' {
            Some(BinOp::Add)
        } else if c == '-' {
            Some(BinOp::Sub)
        } else {
            None
        },
        _ => None,
    }
}

pub open spec fn mul_op(t: TokenV) -> Option<BinOp> {
    match t {
        TokenV::Op(c) => if c == '*' {
            Some(BinOp::Mul)
        } else if c == '/' {
            Some(BinOp::Div)
        } else {
            None
        },
        _ => None,
    }
}

/// expr → term ((+|-) term)*, left-associative.
pub open spec fn p_expr(ts: Seq<TokenV>, pos: int) -> Option<(ExprV, int)>
    decreases ts.len() - pos, 7int,
{
    match p_term(ts, pos) {
        None => None,
        Some(r) => if r.1 < pos || r.1 > ts.len() {
            None
        } else {
            p_expr_rest(ts, r.1, r.0)
        },
    }
}

pub open spec fn p_expr_rest(ts: Seq<TokenV>, pos: int, left: ExprV) -> Option<(ExprV, int)>
    decreases ts.len() - pos, 6int,
{
    if 0 <= pos < ts.len() && add_op(ts[pos]) is Some {
        match p_term(ts, pos + 1) {
            None => None,
            Some(r) => if r.1 <= pos || r.1 > ts.len() {
                None
            } else {
                p_expr_rest(ts, r.1, ExprV::Bin(add_op(ts[pos])->0, Box::new(left), Box::new(r.0)))
            },
        }
    } else {
        Some((left, pos))
    }
}

/// term → unary ((*|/) unary)*, left-associative.
pub open spec fn p_term(ts: Seq<TokenV>, pos: int) -> Option<(ExprV, int)>
    decreases ts.len() - pos, 5int,
{
    match p_unary(ts, pos) {
        None => None,
        Some(r) => if r.1 < pos || r.1 > ts.len() {
            None
        } else {
            p_term_rest(ts, r.1, r.0)
        },
    }
}

pub open spec fn p_term_rest(ts: Seq<TokenV>, pos: int, left: ExprV) -> Option<(ExprV, int)>
    decreases ts.len() - pos, 4int,
{
    if 0 <= pos < ts.len() && mul_op(ts[pos]) is Some {
        match p_unary(ts, pos + 1) {
            None => None,
            Some(r) => if r.1 <= pos || r.1 > ts.len() {
                None
            } else {
                p_term_rest(ts, r.1, ExprV::Bin(mul_op(ts[pos])->0, Box::new(left), Box::new(r.0)))
            },
        }
    } else {
        Some((left, pos))
    }
}

/// power → atom (^ unary)?, right-associative (the exponent may itself be a power,
/// or a negated one).
pub open spec fn p_power(ts: Seq<TokenV>, pos: int) -> Option<(ExprV, int)>
    decreases ts.len() - pos, 2int,
{
    match p_atom(ts, pos) {
        None => None,
        Some(r) => if r.1 < pos {
            None
        } else if 0 <= r.1 < ts.len() && ts[r.1] == TokenV::Op('^') {
            match p_unary(ts, r.1 + 1) {
                None => None,
                Some(e) => Some((ExprV::Bin(BinOp::Pow, Box::new(r.0), Box::new(e.0)), e.1)),
            }
        } else {
            Some(r)
        },
    }
}

/// unary → '-' unary | power: a negation applies to the power that follows it
/// (`-2^2` is `-(2^2)`) and binds tighter than `*`, `/`, `+` and `-`.
pub open spec fn p_unary(ts: Seq<TokenV>, pos: int) -> Option<(ExprV, int)>
    decreases ts.len() - pos, 3int,
{
    if 0 <= pos < ts.len() && ts[pos] is Neg {
        match p_unary(ts, pos + 1) {
            None => None,
            Some(r) => Some((ExprV::Neg(Box::new(r.0)), r.1)),
        }
    } else {
        p_power(ts, pos)
    }
}

/// atom → number | '(' expr ')'? | func '(' expr ')'?  (a missing `)` is tolerated).
pub open spec fn p_atom(ts: Seq<TokenV>, pos: int) -> Option<(ExprV, int)>
    decreases ts.len() - pos, 1int,
{
    if pos < 0 || pos >= ts.len() {
        None
    } else {
        match ts[pos] {
            TokenV::Num(n) => Some((ExprV::Num(n), pos + 1)),
            TokenV::LParen => match p_expr(ts, pos + 1) {
                None => None,
                Some(r) => Some((r.0, skip_close(ts, r.1))),
            },
            TokenV::Func(name) => if pos + 1 < ts.len() && ts[pos + 1] is LParen {
                match p_expr(ts, pos + 2) {
                    None => None,
                    Some(r) => match func_of(name) {
                        None => None,
                        Some(f) => Some((ExprV::Call(f, Box::new(r.0)), skip_close(ts, r.1))),
                    },
                }
            } else {
                None
            },
            _ => None,
        }
    }
}

/// The parse of `s`: its trimmed text must be non-empty, tokenize, and parse as
/// one expression using every token.
pub open spec fn calc_spec(s: Seq<char>) -> Option<ExprV> {
    let t = trim(s);
    if t.len() == 0 {
        None
    } else {
        match tok_spec(t, 0, Seq::empty()) {
            None => None,
            Some(ts) => match p_expr(ts, 0) {
                Some(r) => if r.1 == ts.len() {
                    Some(r.0)
                } else {
                    None
                },
                None => None,
            },
        }
    }
}

/// The outcome a parse function promises, for the spec result `s` from `pos0`.
pub open spec fn parsed(s: Option<(ExprV, int)>, r: Option<Expr>, pos0: int, pos: int) -> bool {
    match s {
        None => r is None,
        Some(x) => r matches Some(e) && e@ == x.0 && pos == x.1 && pos > pos0,
    }
}

fn func_from_name(name: &String) -> (r: Option<Func>)
    ensures
        r == func_of(name@),
{
    let v = chars_of(name.as_str());
    let vs = v.as_slice();
    if crate::strs::eq_chars(vs, vec!['s', 'q', 'r', 't'].as_slice()) {
        Some(Func::Sqrt)
    } else if crate::strs::eq_chars(vs, vec!['a', 'b', 's'].as_slice()) {
        Some(Func::Abs)
    } else if crate::strs::eq_chars(vs, vec!['s', 'i', 'n'].as_slice()) {
        Some(Func::Sin)
    } else if crate::strs::eq_chars(vs, vec!['c', 'o', 's'].as_slice()) {
        Some(Func::Cos)
    } else if crate::strs::eq_chars(vs, vec!['t', 'a', 'n'].as_slice()) {
        Some(Func::Tan)
    } else if crate::strs::eq_chars(vs, vec!['l', 'n'].as_slice()) {
        Some(Func::Ln)
    } else if crate::strs::eq_chars(vs, vec!['l', 'o', 'g'].as_slice()) {
        Some(Func::Log)
    } else if crate::strs::eq_chars(vs, vec!['f', 'l', 'o', 'o', 'r'].as_slice()) {
        Some(Func::Floor)
    } else if crate::strs::eq_chars(vs, vec!['c', 'e', 'i', 'l'].as_slice()) {
        Some(Func::Ceil)
    } else if crate::strs::eq_chars(vs, vec!['r', 'o', 'u', 'n', 'd'].as_slice()) {
        Some(Func::Round)
    } else {
        None
    }
}

fn copy_number(n: &Number) -> (r: Number)
    ensures
        r@ == n@,
{
    match n {
        Number::Digits(s) => Number::Digits(s.clone()),
        Number::Pi => Number::Pi,
        Number::E => Number::E,
    }
}

fn is_close(tokens: &[Token], p: usize) -> (b: bool)
    requires
        p <= tokens@.len(),
    ensures
        b == (p < tokens@.len() && toks_view(tokens@)[p as int] is RParen),
{
    if p < tokens.len() {
        match &tokens[p] {
            Token::RParen => true,
            _ => false,
        }
    } else {
        false
    }
}

fn add_op_at(tokens: &[Token], p: usize) -> (r: Option<BinOp>)
    requires
        p < tokens@.len(),
    ensures
        r == add_op(toks_view(tokens@)[p as int]),
{
    match &tokens[p] {
        Token::Op(c) => if *c == '+' {
            Some(BinOp::Add)
        } else if *c == '-' {
            Some(BinOp::Sub)
        } else {
            None
        },
        _ => None,
    }
}

fn mul_op_at(tokens: &[Token], p: usize) -> (r: Option<BinOp>)
    requires
        p < tokens@.len(),
    ensures
        r == mul_op(toks_view(tokens@)[p as int]),
{
    match &tokens[p] {
        Token::Op(c) => if *c == '*' {
            Some(BinOp::Mul)
        } else if *c == '/' {
            Some(BinOp::Div)
        } else {
            None
        },
        _ => None,
    }
}

// expr → term ((+|-) term)*
fn parse_expr(tokens: &[Token], pos: &mut usize) -> (r: Option<Expr>)
    requires
        *old(pos) <= tokens@.len(),
    ensures
        parsed(p_expr(toks_view(tokens@), *old(pos) as int), r, *old(pos) as int, *final(pos) as int),
        *final(pos) <= tokens@.len(),
    decreases tokens@.len() - *old(pos), 7int,
{
    let ghost ts = toks_view(tokens@);
    let ghost pos0 = *pos as int;
    let mut left = match parse_term(tokens, pos) {
        Some(e) => e,
        None => return None,
    };
    let mut more = true;
    while more && *pos < tokens.len()
        invariant
            ts == toks_view(tokens@),
            pos0 == *old(pos),
            pos0 < *pos <= tokens@.len(),
            p_expr(ts, pos0) == p_expr_rest(ts, *pos as int, left@),
            !more ==> p_expr_rest(ts, *pos as int, left@) == Some((left@, *pos as int)),
        decreases tokens@.len() - *pos + (if more { 1int } else { 0int }),
    {
        match add_op_at(tokens, *pos) {
            None => {
                more = false;
            },
            Some(op) => {
                *pos = *pos + 1;
                let right = match parse_term(tokens, pos) {
                    Some(e) => e,
                    None => return None,
                };
                left = Expr::Bin(op, Box::new(left), Box::new(right));
            },
        }
    }
    Some(left)
}

// term → unary ((*|/) unary)*
fn parse_term(tokens: &[Token], pos: &mut usize) -> (r: Option<Expr>)
    requires
        *old(pos) <= tokens@.len(),
    ensures
        parsed(p_term(toks_view(tokens@), *old(pos) as int), r, *old(pos) as int, *final(pos) as int),
        *final(pos) <= tokens@.len(),
    decreases tokens@.len() - *old(pos), 5int,
{
    let ghost ts = toks_view(tokens@);
    let ghost pos0 = *pos as int;
    let mut left = match parse_unary(tokens, pos) {
        Some(e) => e,
        None => return None,
    };
    let mut more = true;
    while more && *pos < tokens.len()
        invariant
            ts == toks_view(tokens@),
            pos0 == *old(pos),
            pos0 < *pos <= tokens@.len(),
            p_term(ts, pos0) == p_term_rest(ts, *pos as int, left@),
            !more ==> p_term_rest(ts, *pos as int, left@) == Some((left@, *pos as int)),
        decreases tokens@.len() - *pos + (if more { 1int } else { 0int }),
    {
        match mul_op_at(tokens, *pos) {
            None => {
                more = false;
            },
            Some(op) => {
                *pos = *pos + 1;
                let right = match parse_unary(tokens, pos) {
                    Some(e) => e,
                    None => return None,
                };
                left = Expr::Bin(op, Box::new(left), Box::new(right));
            },
        }
    }
    Some(left)
}

// power → atom (^ unary)?  (right-associative)
fn parse_power(tokens: &[Token], pos: &mut usize) -> (r: Option<Expr>)
    requires
        *old(pos) <= tokens@.len(),
    ensures
        parsed(p_power(toks_view(tokens@), *old(pos) as int), r, *old(pos) as int, *final(pos) as int),
        *final(pos) <= tokens@.len(),
    decreases tokens@.len() - *old(pos), 2int,
{
    let ghost ts = toks_view(tokens@);
    let base = match parse_atom(tokens, pos) {
        Some(e) => e,
        None => return None,
    };
    if *pos < tokens.len() && match &tokens[*pos] {
        Token::Op(c) => *c == '^',
        _ => false,
    } {
        *pos = *pos + 1;
        let exp = match parse_unary(tokens, pos) {
            Some(e) => e,
            None => return None,
        };
        Some(Expr::Bin(BinOp::Pow, Box::new(base), Box::new(exp)))
    } else {
        Some(base)
    }
}

// unary → '-' unary | power
fn parse_unary(tokens: &[Token], pos: &mut usize) -> (r: Option<Expr>)
    requires
        *old(pos) <= tokens@.len(),
    ensures
        parsed(p_unary(toks_view(tokens@), *old(pos) as int), r, *old(pos) as int, *final(pos) as int),
        *final(pos) <= tokens@.len(),
    decreases tokens@.len() - *old(pos), 3int,
{
    let ghost ts = toks_view(tokens@);
    let p0 = *pos;
    if p0 < tokens.len() && match &tokens[p0] {
        Token::Neg => true,
        _ => false,
    } {
        assert(ts[p0 as int] == tokens@[p0 as int]@);
        *pos = p0 + 1;
        match parse_unary(tokens, pos) {
            Some(e) => Some(Expr::Neg(Box::new(e))),
            None => None,
        }
    } else {
        assert(p0 < ts.len() ==> ts[p0 as int] == tokens@[p0 as int]@);
        parse_power(tokens, pos)
    }
}

// atom → number | '(' expr ')' | func '(' expr ')'
fn parse_atom(tokens: &[Token], pos: &mut usize) -> (r: Option<Expr>)
    requires
        *old(pos) <= tokens@.len(),
    ensures
        parsed(p_atom(toks_view(tokens@), *old(pos) as int), r, *old(pos) as int, *final(pos) as int),
        *final(pos) <= tokens@.len(),
    decreases tokens@.len() - *old(pos), 1int,
{
    let ghost ts = toks_view(tokens@);
    if *pos >= tokens.len() {
        return None;
    }
    let p0 = *pos;
    assert(ts[p0 as int] == tokens@[p0 as int]@);
    match &tokens[p0] {
        Token::Num(n) => {
            *pos = p0 + 1;
            Some(Expr::Num(copy_number(n)))
        },
        Token::LParen => {
            *pos = p0 + 1;
            let v = match parse_expr(tokens, pos) {
                Some(e) => e,
                None => return None,
            };
            if is_close(tokens, *pos) {
                *pos = *pos + 1;
            }
            Some(v)
        },
        Token::Func(name) => {
            if p0 + 1 >= tokens.len() || !match &tokens[p0 + 1] {
                Token::LParen => true,
                _ => false,
            } {
                assert(p0 + 1 < ts.len() ==> ts[p0 + 1] == tokens@[p0 + 1]@);
                return None;
            }
            assert(ts[p0 + 1] == tokens@[p0 + 1]@);
            *pos = p0 + 2;
            let arg = match parse_expr(tokens, pos) {
                Some(e) => e,
                None => return None,
            };
            if is_close(tokens, *pos) {
                *pos = *pos + 1;
            }
            match func_from_name(name) {
                Some(f) => Some(Expr::Call(f, Box::new(arg))),
                None => None,
            }
        },
        _ => None,
    }
}

/// Parse a calculator expression (see `calc_spec`): `None` for empty input,
/// an unknown character or function, a malformed number, or tokens left over.
pub fn parse_calc(expr: &str) -> (r: Option<Expr>)
    ensures
        match calc_spec(expr@) {
            None => r is None,
            Some(e) => r matches Some(x) && x@ == e,
        },
{
    let all = chars_of(expr);
    let (lo, hi) = trim_range(all.as_slice(), 0, all.len());
    assert(all@.subrange(0, all@.len() as int) == expr@);
    if lo == hi {
        return None;
    }
    let mut t: Vec<char> = Vec::new();
    let mut i = lo;
    while i < hi
        invariant
            lo <= i <= hi <= all@.len(),
            t@ == all@.subrange(lo as int, i as int),
        decreases hi - i,
    {
        t.push(all[i]);
        assert(all@.subrange(lo as int, i + 1) == all@.subrange(lo as int, i as int).push(all@[i as int]));
        i = i + 1;
    }
    let tokens = match tokenize(t.as_slice()) {
        Some(ts) => ts,
        None => return None,
    };
    let mut pos: usize = 0;
    let result = match parse_expr(tokens.as_slice(), &mut pos) {
        Some(e) => e,
        None => return None,
    };
    if pos != tokens.len() {
        return None;
    }
    Some(result)
}

// ── binary expressions of two numbers ───────────────────────────────────────

/// A run of number characters from `i` up to `j`, ending at `j`, is one literal.
proof fn lemma_num_end_run(s: Seq<char>, i: int, j: int)
    requires
        0 <= i <= j <= s.len(),
        forall|k: int| i <= k < j ==> is_num_char(#[trigger] s[k]),
        j == s.len() || !is_num_char(s[j]),
    ensures
        num_end(s, i) == j,
    decreases j - i,
{
    if i < j {
        lemma_num_end_run(s, i + 1, j);
    }
}

/// A string of digits holds no dot.
proof fn lemma_no_dots(a: Seq<char>)
    requires
        forall|k: int| 0 <= k < a.len() ==> '0' <= #[trigger] a[k] <= '9',
    ensures
        count_dots(a) == 0,
    decreases a.len(),
{
    if a.len() > 0 {
        lemma_no_dots(a.drop_last());
    }
}

/// The tokens of `a c b` for digit strings `a`, `b` and an operator `c`: the first
/// number, the operator, the second number.
proof fn lemma_binary_tokens(a: Seq<char>, c: char, b: Seq<char>)
    requires
        a.len() > 0 && b.len() > 0,
        forall|k: int| 0 <= k < a.len() ==> '0' <= #[trigger] a[k] <= '9',
        forall|k: int| 0 <= k < b.len() ==> '0' <= #[trigger] b[k] <= '9',
        c == '+' || c == '-' || c == '*' || c == '/' || c == '^',
    ensures
        tok_spec(a + seq![c] + b, 0, Seq::empty()) == Some(seq![
            TokenV::Num(NumberV::Digits(a)),
            TokenV::Op(c),
            TokenV::Num(NumberV::Digits(b)),
        ]),
{
    let s = a + seq![c] + b;
    let n = a.len() as int;
    assert(s.len() == n + 1 + b.len());
    assert forall|k: int| 0 <= k < n implies is_num_char(#[trigger] s[k]) by {
        assert(s[k] == a[k]);
    }
    assert(s[n] == c);
    lemma_num_end_run(s, 0, n);
    assert(s.subrange(0, n) =~= a);
    lemma_no_dots(a);
    assert(is_digit(a[0]));
    assert(valid_number(a));
    let acc1 = Seq::<TokenV>::empty().push(TokenV::Num(NumberV::Digits(a)));
    assert(tok_spec(s, 0, Seq::empty()) == tok_spec(s, n, acc1));
    assert(!is_unary_position(acc1));
    let acc2 = acc1.push(TokenV::Op(c));
    assert(tok_spec(s, n, acc1) == tok_spec(s, n + 1, acc2));
    assert forall|k: int| n + 1 <= k < s.len() implies is_num_char(#[trigger] s[k]) by {
        assert(s[k] == b[k - n - 1]);
    }
    lemma_num_end_run(s, n + 1, s.len() as int);
    assert(s.subrange(n + 1, s.len() as int) =~= b);
    lemma_no_dots(b);
    assert(s[n + 1] == b[0]);
    assert(is_digit(b[0]));
    assert(valid_number(b));
    let acc3 = acc2.push(TokenV::Num(NumberV::Digits(b)));
    assert(tok_spec(s, n + 1, acc2) == tok_spec(s, s.len() as int, acc3));
    assert(acc3 =~= seq![TokenV::Num(NumberV::Digits(a)), TokenV::Op(c), TokenV::Num(NumberV::Digits(b))]);
}

/// Two numbers joined by one of `+ - * / ^` parse as that one operation on them:
/// `a + b` is an addition, `a - b` a subtraction, `a * b` a product, `a / b` a
/// division (not a product) and `a ^ b` a power, with `a` on the left.
pub proof fn lemma_binary_of_numbers(a: Seq<char>, c: char, b: Seq<char>)
    requires
        a.len() > 0 && b.len() > 0,
        forall|k: int| 0 <= k < a.len() ==> '0' <= #[trigger] a[k] <= '9',
        forall|k: int| 0 <= k < b.len() ==> '0' <= #[trigger] b[k] <= '9',
        c == '+' || c == '-' || c == '*' || c == '/' || c == '^',
    ensures
        calc_spec(a + seq![c] + b) == Some(ExprV::Bin(
            if c == '+' {
                BinOp::Add
            } else if c == '-' {
                BinOp::Sub
            } else if c == '*' {
                BinOp::Mul
            } else if c == '/' {
                BinOp::Div
            } else {
                BinOp::Pow
            },
            Box::new(ExprV::Num(NumberV::Digits(a))),
            Box::new(ExprV::Num(NumberV::Digits(b))),
        )),
{
    let s = a + seq![c] + b;
    assert(s[0] == a[0]);
    assert(s.last() == b.last());
    assert(!is_ws(s[0]) && !is_ws(s.last()));
    assert(trim_start(s) == s);
    assert(trim(s) == s);
    lemma_binary_tokens(a, c, b);
    let ts = seq![TokenV::Num(NumberV::Digits(a)), TokenV::Op(c), TokenV::Num(NumberV::Digits(b))];
    let na = ExprV::Num(NumberV::Digits(a));
    let nb = ExprV::Num(NumberV::Digits(b));
    assert(p_atom(ts, 0) == Some((na, 1int)));
    assert(p_atom(ts, 2) == Some((nb, 3int)));
    assert(p_power(ts, 2) == Some((nb, 3int)));
    assert(p_unary(ts, 2) == Some((nb, 3int)));
    if c == '^' {
        assert(p_power(ts, 0) == Some((ExprV::Bin(BinOp::Pow, Box::new(na), Box::new(nb)), 3int)));
        assert(p_unary(ts, 0) == p_power(ts, 0));
        assert(p_term_rest(ts, 3, ExprV::Bin(BinOp::Pow, Box::new(na), Box::new(nb)))
            == Some((ExprV::Bin(BinOp::Pow, Box::new(na), Box::new(nb)), 3int)));
        assert(p_term(ts, 0) == Some((ExprV::Bin(BinOp::Pow, Box::new(na), Box::new(nb)), 3int)));
        assert(p_expr_rest(ts, 3, ExprV::Bin(BinOp::Pow, Box::new(na), Box::new(nb)))
            == Some((ExprV::Bin(BinOp::Pow, Box::new(na), Box::new(nb)), 3int)));
    } else {
        assert(p_power(ts, 0) == Some((na, 1int)));
        assert(p_unary(ts, 0) == Some((na, 1int)));
        if c == '*' || c == '/' {
            let op = if c == '*' { BinOp::Mul } else { BinOp::Div };
            let e = ExprV::Bin(op, Box::new(na), Box::new(nb));
            assert(mul_op(ts[1]) == Some(op));
            assert(p_term_rest(ts, 3, e) == Some((e, 3int)));
            assert(p_term_rest(ts, 1, na) == Some((e, 3int)));
            assert(p_term(ts, 0) == Some((e, 3int)));
            assert(p_expr_rest(ts, 3, e) == Some((e, 3int)));
        } else {
            let op = if c == '+' { BinOp::Add } else { BinOp::Sub };
            let e = ExprV::Bin(op, Box::new(na), Box::new(nb));
            assert(mul_op(ts[1]) is None);
            assert(p_term_rest(ts, 1, na) == Some((na, 1int)));
            assert(p_term(ts, 0) == Some((na, 1int)));
            assert(p_term_rest(ts, 3, nb) == Some((nb, 3int)));
            assert(p_term(ts, 2) == Some((nb, 3int)));
            assert(add_op(ts[1]) == Some(op));
            assert(p_expr_rest(ts, 3, e) == Some((e, 3int)));
            assert(p_expr_rest(ts, 1, na) == Some((e, 3int)));
        }
    }
}

/// A run of digits from `i` to `j` (followed by no number character) reads as one
/// number token.
proof fn lemma_tok_number(s: Seq<char>, i: int, j: int, acc: Seq<TokenV>)
    requires
        0 <= i < j <= s.len(),
        forall|k: int| i <= k < j ==> '0' <= #[trigger] s[k] <= '9',
        j == s.len() || !is_num_char(s[j]),
    ensures
        tok_spec(s, i, acc) == tok_spec(s, j, acc.push(TokenV::Num(NumberV::Digits(s.subrange(i, j))))),
{
    lemma_num_end_run(s, i, j);
    let lit = s.subrange(i, j);
    assert forall|k: int| 0 <= k < lit.len() implies '0' <= #[trigger] lit[k] <= '9' by {
        assert(lit[k] == s[i + k]);
    }
    lemma_no_dots(lit);
    assert(is_digit(lit[0]));
    assert(valid_number(lit));
}

/// A binary operator character after a number reads as an operator token.
proof fn lemma_tok_operator(s: Seq<char>, i: int, acc: Seq<TokenV>)
    requires
        0 <= i < s.len(),
        s[i] == '+' || s[i] == '-' || s[i] == '*' || s[i] == '/' || s[i] == '^',
        acc.len() > 0 && acc.last() is Num,
    ensures
        tok_spec(s, i, acc) == tok_spec(s, i + 1, acc.push(TokenV::Op(s[i]))),
{
}

/// The operation an operator character names.
pub open spec fn op_named(c: char) -> BinOp {
    if c == '+' {
        BinOp::Add
    } else if c == '-' {
        BinOp::Sub
    } else if c == '*' {
        BinOp::Mul
    } else if c == '/' {
        BinOp::Div
    } else {
        BinOp::Pow
    }
}

/// All characters of `a` are decimal digits, and there is one at least.
pub open spec fn digits(a: Seq<char>) -> bool {
    a.len() > 0 && forall|k: int| 0 <= k < a.len() ==> '0' <= #[trigger] a[k] <= '9'
}

/// The expression three numbers joined by `c1` and `c2` (two of `+ - * /`) stand
/// for: `*` and `/` bind tighter than `+` and `-`, and operators of the same
/// strength group to the left.
pub open spec fn grouped(na: ExprV, c1: char, nb: ExprV, c2: char, nd: ExprV) -> ExprV {
    if (c1 == '+' || c1 == '-') && (c2 == '*' || c2 == '/') {
        ExprV::Bin(op_named(c1), Box::new(na), Box::new(ExprV::Bin(op_named(c2), Box::new(nb), Box::new(nd))))
    } else {
        ExprV::Bin(op_named(c2), Box::new(ExprV::Bin(op_named(c1), Box::new(na), Box::new(nb))), Box::new(nd))
    }
}

proof fn lemma_ternary_tokens(a: Seq<char>, c1: char, b: Seq<char>, c2: char, d: Seq<char>)
    requires
        digits(a) && digits(b) && digits(d),
        c1 == '+' || c1 == '-' || c1 == '*' || c1 == '/',
        c2 == '+' || c2 == '-' || c2 == '*' || c2 == '/',
    ensures
        trim(a + seq![c1] + b + seq![c2] + d) == a + seq![c1] + b + seq![c2] + d,
        tok_spec(a + seq![c1] + b + seq![c2] + d, 0, Seq::empty()) == Some(seq![
            TokenV::Num(NumberV::Digits(a)),
            TokenV::Op(c1),
            TokenV::Num(NumberV::Digits(b)),
            TokenV::Op(c2),
            TokenV::Num(NumberV::Digits(d)),
        ]),
{
    let s = a + seq![c1] + b + seq![c2] + d;
    let la = a.len() as int;
    let lb = b.len() as int;
    assert forall|k: int| 0 <= k < la implies '0' <= #[trigger] s[k] <= '9' by {
        assert(s[k] == a[k]);
    }
    assert(s[la] == c1);
    assert forall|k: int| la + 1 <= k < la + 1 + lb implies '0' <= #[trigger] s[k] <= '9' by {
        assert(s[k] == b[k - la - 1]);
    }
    assert(s[la + 1 + lb] == c2);
    assert forall|k: int| la + 2 + lb <= k < s.len() implies '0' <= #[trigger] s[k] <= '9' by {
        assert(s[k] == d[k - la - 2 - lb]);
    }
    let t0 = Seq::<TokenV>::empty();
    lemma_tok_number(s, 0, la, t0);
    assert(s.subrange(0, la) =~= a);
    let t1 = t0.push(TokenV::Num(NumberV::Digits(a)));
    lemma_tok_operator(s, la, t1);
    let t2 = t1.push(TokenV::Op(c1));
    lemma_tok_number(s, la + 1, la + 1 + lb, t2);
    assert(s.subrange(la + 1, la + 1 + lb) =~= b);
    let t3 = t2.push(TokenV::Num(NumberV::Digits(b)));
    lemma_tok_operator(s, la + 1 + lb, t3);
    let t4 = t3.push(TokenV::Op(c2));
    lemma_tok_number(s, la + 2 + lb, s.len() as int, t4);
    assert(s.subrange(la + 2 + lb, s.len() as int) =~= d);
    let ts = t4.push(TokenV::Num(NumberV::Digits(d)));
    assert(ts =~= seq![
        TokenV::Num(NumberV::Digits(a)),
        TokenV::Op(c1),
        TokenV::Num(NumberV::Digits(b)),
        TokenV::Op(c2),
        TokenV::Num(NumberV::Digits(d)),
    ]);
    assert(s[0] == a[0]);
    assert(s.last() == d.last());
    assert(trim_start(s) == s);
}

proof fn lemma_ternary_parse(x: NumberV, c1: char, y: NumberV, c2: char, z: NumberV, ts: Seq<TokenV>)
    requires
        c1 == '+' || c1 == '-' || c1 == '*' || c1 == '/',
        c2 == '+' || c2 == '-' || c2 == '*' || c2 == '/',
        ts == seq![TokenV::Num(x), TokenV::Op(c1), TokenV::Num(y), TokenV::Op(c2), TokenV::Num(z)],
    ensures
        p_expr(ts, 0) == Some((grouped(ExprV::Num(x), c1, ExprV::Num(y), c2, ExprV::Num(z)), 5int)),
{
    let na = ExprV::Num(x);
    let nb = ExprV::Num(y);
    let nd = ExprV::Num(z);
    assert(p_atom(ts, 0) == Some((na, 1int)));
    assert(p_power(ts, 0) == Some((na, 1int)));
    assert(p_unary(ts, 0) == Some((na, 1int)));
    assert(p_atom(ts, 2) == Some((nb, 3int)));
    assert(p_power(ts, 2) == Some((nb, 3int)));
    assert(p_unary(ts, 2) == Some((nb, 3int)));
    assert(p_atom(ts, 4) == Some((nd, 5int)));
    assert(p_power(ts, 4) == Some((nd, 5int)));
    assert(p_unary(ts, 4) == Some((nd, 5int)));
    let m1 = c1 == '*' || c1 == '/';
    let m2 = c2 == '*' || c2 == '/';
    if m1 {
        assert(mul_op(ts[1]) == Some(op_named(c1)));
    } else {
        assert(mul_op(ts[1]) is None && add_op(ts[1]) == Some(op_named(c1)));
    }
    if m2 {
        assert(mul_op(ts[3]) == Some(op_named(c2)));
    } else {
        assert(mul_op(ts[3]) is None && add_op(ts[3]) == Some(op_named(c2)));
    }
    if m1 && m2 {
        let e1 = ExprV::Bin(op_named(c1), Box::new(na), Box::new(nb));
        let e2 = ExprV::Bin(op_named(c2), Box::new(e1), Box::new(nd));
        assert(p_term_rest(ts, 5, e2) == Some((e2, 5int)));
        assert(p_term_rest(ts, 3, e1) == Some((e2, 5int)));
        assert(p_term_rest(ts, 1, na) == Some((e2, 5int)));
        assert(p_term(ts, 0) == Some((e2, 5int)));
        assert(p_expr_rest(ts, 5, e2) == Some((e2, 5int)));
    } else if m1 && !m2 {
        let e1 = ExprV::Bin(op_named(c1), Box::new(na), Box::new(nb));
        let e2 = ExprV::Bin(op_named(c2), Box::new(e1), Box::new(nd));
        assert(p_term_rest(ts, 3, e1) == Some((e1, 3int)));
        assert(p_term_rest(ts, 1, na) == Some((e1, 3int)));
        assert(p_term(ts, 0) == Some((e1, 3int)));
        assert(p_term_rest(ts, 5, nd) == Some((nd, 5int)));
        assert(p_term(ts, 4) == Some((nd, 5int)));
        assert(p_expr_rest(ts, 5, e2) == Some((e2, 5int)));
        assert(p_expr_rest(ts, 3, e1) == Some((e2, 5int)));
    } else if !m1 && m2 {
        let e1 = ExprV::Bin(op_named(c2), Box::new(nb), Box::new(nd));
        let e2 = ExprV::Bin(op_named(c1), Box::new(na), Box::new(e1));
        assert(p_term_rest(ts, 1, na) == Some((na, 1int)));
        assert(p_term(ts, 0) == Some((na, 1int)));
        assert(p_term_rest(ts, 5, e1) == Some((e1, 5int)));
        assert(p_term_rest(ts, 3, nb) == Some((e1, 5int)));
        assert(p_term(ts, 2) == Some((e1, 5int)));
        assert(p_expr_rest(ts, 5, e2) == Some((e2, 5int)));
        assert(p_expr_rest(ts, 1, na) == Some((e2, 5int)));
    } else {
        let e1 = ExprV::Bin(op_named(c1), Box::new(na), Box::new(nb));
        let e2 = ExprV::Bin(op_named(c2), Box::new(e1), Box::new(nd));
        assert(p_term_rest(ts, 1, na) == Some((na, 1int)));
        assert(p_term(ts, 0) == Some((na, 1int)));
        assert(p_term_rest(ts, 3, nb) == Some((nb, 3int)));
        assert(p_term(ts, 2) == Some((nb, 3int)));
        assert(p_term_rest(ts, 5, nd) == Some((nd, 5int)));
        assert(p_term(ts, 4) == Some((nd, 5int)));
        assert(p_expr_rest(ts, 5, e2) == Some((e2, 5int)));
        assert(p_expr_rest(ts, 3, e1) == Some((e2, 5int)));
        assert(p_expr_rest(ts, 1, na) == Some((e2, 5int)));
    }
}

/// Three numbers joined by two of `+ - * /` parse as `grouped` says: `a + b * c`
/// is `a + (b * c)`, while `a * b + c`, `a - b - c` and `a / b / c` group as
/// `(a . b) . c`.
pub proof fn lemma_precedence_of_numbers(a: Seq<char>, c1: char, b: Seq<char>, c2: char, d: Seq<char>)
    requires
        digits(a) && digits(b) && digits(d),
        c1 == '+' || c1 == '-' || c1 == '*' || c1 == '/',
        c2 == '+' || c2 == '-' || c2 == '*' || c2 == '/',
    ensures
        calc_spec(a + seq![c1] + b + seq![c2] + d) == Some(grouped(
            ExprV::Num(NumberV::Digits(a)),
            c1,
            ExprV::Num(NumberV::Digits(b)),
            c2,
            ExprV::Num(NumberV::Digits(d)),
        )),
{
    lemma_ternary_tokens(a, c1, b, c2, d);
    let ts = seq![
        TokenV::Num(NumberV::Digits(a)),
        TokenV::Op(c1),
        TokenV::Num(NumberV::Digits(b)),
        TokenV::Op(c2),
        TokenV::Num(NumberV::Digits(d)),
    ];
    lemma_ternary_parse(NumberV::Digits(a), c1, NumberV::Digits(b), c2, NumberV::Digits(d), ts);
}

/// A `-` where no value ends (at the start or after an operator) reads as a
/// negation.
proof fn lemma_tok_negation(s: Seq<char>, i: int, acc: Seq<TokenV>)
    requires
        0 <= i < s.len(),
        s[i] == '-',
        acc.len() == 0 || acc.last() is Op,
    ensures
        tok_spec(s, i, acc) == tok_spec(s, i + 1, acc.push(TokenV::Neg)),
{
}

/// A minus sign negates the number right after it, at any place: `a . -b` is `a`
/// and the negation of `b` joined by the operation, for each of `+ - * / ^`.
pub proof fn lemma_minus_negates_next_number(a: Seq<char>, c: char, b: Seq<char>)
    requires
        digits(a) && digits(b),
        c == '+' || c == '-' || c == '*' || c == '/' || c == '^',
    ensures
        calc_spec(a + seq![c, '-'] + b) == Some(ExprV::Bin(
            op_named(c),
            Box::new(ExprV::Num(NumberV::Digits(a))),
            Box::new(ExprV::Neg(Box::new(ExprV::Num(NumberV::Digits(b))))),
        )),
{
    let s = a + seq![c, '-'] + b;
    let la = a.len() as int;
    assert forall|k: int| 0 <= k < la implies '0' <= #[trigger] s[k] <= '9' by {
        assert(s[k] == a[k]);
    }
    assert(s[la] == c && s[la + 1] == '-');
    assert forall|k: int| la + 2 <= k < s.len() implies '0' <= #[trigger] s[k] <= '9' by {
        assert(s[k] == b[k - la - 2]);
    }
    let t0 = Seq::<TokenV>::empty();
    lemma_tok_number(s, 0, la, t0);
    assert(s.subrange(0, la) =~= a);
    let t1 = t0.push(TokenV::Num(NumberV::Digits(a)));
    lemma_tok_operator(s, la, t1);
    let t2 = t1.push(TokenV::Op(c));
    lemma_tok_negation(s, la + 1, t2);
    let t3 = t2.push(TokenV::Neg);
    lemma_tok_number(s, la + 2, s.len() as int, t3);
    assert(s.subrange(la + 2, s.len() as int) =~= b);
    let ts = t3.push(TokenV::Num(NumberV::Digits(b)));
    assert(ts =~= seq![TokenV::Num(NumberV::Digits(a)), TokenV::Op(c), TokenV::Neg, TokenV::Num(NumberV::Digits(b))]);
    assert(s[0] == a[0]);
    assert(s.last() == b.last());
    assert(trim_start(s) == s);
    assert(trim(s) == s);
    let na = ExprV::Num(NumberV::Digits(a));
    let nb = ExprV::Num(NumberV::Digits(b));
    let ng = ExprV::Neg(Box::new(nb));
    let e = ExprV::Bin(op_named(c), Box::new(na), Box::new(ng));
    assert(p_atom(ts, 0) == Some((na, 1int)));
    assert(p_atom(ts, 3) == Some((nb, 4int)));
    assert(p_power(ts, 3) == Some((nb, 4int)));
    assert(p_unary(ts, 3) == Some((nb, 4int)));
    assert(p_unary(ts, 2) == Some((ng, 4int)));
    if c == '^' {
        assert(p_power(ts, 0) == Some((e, 4int)));
        assert(p_unary(ts, 0) == Some((e, 4int)));
        assert(p_term_rest(ts, 4, e) == Some((e, 4int)));
        assert(p_term(ts, 0) == Some((e, 4int)));
        assert(p_expr_rest(ts, 4, e) == Some((e, 4int)));
    } else {
        assert(p_power(ts, 0) == Some((na, 1int)));
        assert(p_unary(ts, 0) == Some((na, 1int)));
        if c == '*' || c == '/' {
            assert(mul_op(ts[1]) == Some(op_named(c)));
            assert(p_term_rest(ts, 4, e) == Some((e, 4int)));
            assert(p_term_rest(ts, 1, na) == Some((e, 4int)));
            assert(p_term(ts, 0) == Some((e, 4int)));
            assert(p_expr_rest(ts, 4, e) == Some((e, 4int)));
        } else {
            assert(mul_op(ts[1]) is None && add_op(ts[1]) == Some(op_named(c)));
            assert(p_term_rest(ts, 1, na) == Some((na, 1int)));
            assert(p_term(ts, 0) == Some((na, 1int)));
            assert(p_term_rest(ts, 4, ng) == Some((ng, 4int)));
            assert(p_term(ts, 2) == Some((ng, 4int)));
            assert(p_expr_rest(ts, 4, e) == Some((e, 4int)));
            assert(p_expr_rest(ts, 1, na) == Some((e, 4int)));
        }
    }
}

proof fn lemma_neg_power_tokens(a: Seq<char>, b: Seq<char>)
    requires
        digits(a) && digits(b),
    ensures
        trim(seq!['-'] + a + seq!['^'] + b) == seq!['-'] + a + seq!['^'] + b,
        tok_spec(seq!['-'] + a + seq!['^'] + b, 0, Seq::empty()) == Some(
            seq![TokenV::Neg, TokenV::Num(NumberV::Digits(a)), TokenV::Op('^'), TokenV::Num(NumberV::Digits(b))],
        ),
{
    let s = seq!['-'] + a + seq!['^'] + b;
    let la = a.len() as int;
    assert(s[0] == '-');
    assert forall|k: int| 1 <= k < la + 1 implies '0' <= #[trigger] s[k] <= '9' by {
        assert(s[k] == a[k - 1]);
    }
    assert(s[la + 1] == '^');
    assert forall|k: int| la + 2 <= k < s.len() implies '0' <= #[trigger] s[k] <= '9' by {
        assert(s[k] == b[k - la - 2]);
    }
    let t0 = Seq::<TokenV>::empty();
    lemma_tok_negation(s, 0, t0);
    let t1 = t0.push(TokenV::Neg);
    lemma_tok_number(s, 1, la + 1, t1);
    assert(s.subrange(1, la + 1) =~= a);
    let t2 = t1.push(TokenV::Num(NumberV::Digits(a)));
    lemma_tok_operator(s, la + 1, t2);
    let t3 = t2.push(TokenV::Op('^'));
    lemma_tok_number(s, la + 2, s.len() as int, t3);
    assert(s.subrange(la + 2, s.len() as int) =~= b);
    let ts = t3.push(TokenV::Num(NumberV::Digits(b)));
    assert(ts =~= seq![TokenV::Neg, TokenV::Num(NumberV::Digits(a)), TokenV::Op('^'), TokenV::Num(NumberV::Digits(b))]);
    assert(!is_ws(s[0]));
    assert(s.last() == b.last());
    assert(trim_start(s) == s);
}

/// A leading minus negates the whole power after it: `-a ^ b` is `-(a ^ b)`.
pub proof fn lemma_minus_applies_to_power(a: Seq<char>, b: Seq<char>)
    requires
        digits(a) && digits(b),
    ensures
        calc_spec(seq!['-'] + a + seq!['^'] + b) == Some(ExprV::Neg(Box::new(ExprV::Bin(
            BinOp::Pow,
            Box::new(ExprV::Num(NumberV::Digits(a))),
            Box::new(ExprV::Num(NumberV::Digits(b))),
        )))),
{
    lemma_neg_power_tokens(a, b);
    let ts = seq![TokenV::Neg, TokenV::Num(NumberV::Digits(a)), TokenV::Op('^'), TokenV::Num(NumberV::Digits(b))];
    let na = ExprV::Num(NumberV::Digits(a));
    let nb = ExprV::Num(NumberV::Digits(b));
    let pw = ExprV::Bin(BinOp::Pow, Box::new(na), Box::new(nb));
    let e = ExprV::Neg(Box::new(pw));
    assert(p_atom(ts, 3) == Some((nb, 4int)));
    assert(p_power(ts, 3) == Some((nb, 4int)));
    assert(p_unary(ts, 3) == Some((nb, 4int)));
    assert(p_atom(ts, 1) == Some((na, 2int)));
    assert(p_power(ts, 1) == Some((pw, 4int)));
    assert(p_unary(ts, 1) == Some((pw, 4int)));
    assert(p_unary(ts, 0) == Some((e, 4int)));
    assert(p_term_rest(ts, 4, e) == Some((e, 4int)));
    assert(p_term(ts, 0) == Some((e, 4int)));
    assert(p_expr_rest(ts, 4, e) == Some((e, 4int)));
}

} // verus!
