//! Lexical tokens of the template language and the tokenizer that
//! produces them from raw text.

use crate::language::error::{Error, SpecError};
use crate::language::rational::{spec_normalize, Rational};
use crate::language::value::{
    digits_value, is_digit, wf_value, view_value, SpecValue, Value,
};
use vstd::prelude::*;

verus! {

/// One lexical token.
#[derive(Debug, PartialEq)]
pub enum Token {
    /// A literal value: an integer, a fraction, a string or a boolean.
    Value(Value),
    /// An identifier: a variable reference or a method name.
    Variable(String),
    Plus,
    Minus,
    Star,
    Slash,
    Not,
    Equals,
    NotEquals,
    LessThan,
    GreaterThan,
    LessThanEqual,
    GreaterThanEqual,
    And,
    Or,
    Dot,
    Comma,
    RoundBracketStart,
    RoundBracketEnd,
    SquareBracketStart,
    SquareBracketEnd,
    /// The `<%` sentinel opening an expression region.
    BlockStart,
    /// The `%>` sentinel closing an expression region.
    BlockEnd,
}

/// The model of one token.
pub enum SpecToken {
    Value(SpecValue),
    Variable(Seq<char>),
    Plus,
    Minus,
    Star,
    Slash,
    Not,
    Equals,
    NotEquals,
    LessThan,
    GreaterThan,
    LessThanEqual,
    GreaterThanEqual,
    And,
    Or,
    Dot,
    Comma,
    RoundBracketStart,
    RoundBracketEnd,
    SquareBracketStart,
    SquareBracketEnd,
    BlockStart,
    BlockEnd,
}

/// The model of one token.
pub open spec fn view_token(t: Token) -> SpecToken {
    match t {
        Token::Value(v) => SpecToken::Value(view_value(v)),
        Token::Variable(s) => SpecToken::Variable(s@),
        Token::Plus => SpecToken::Plus,
        Token::Minus => SpecToken::Minus,
        Token::Star => SpecToken::Star,
        Token::Slash => SpecToken::Slash,
        Token::Not => SpecToken::Not,
        Token::Equals => SpecToken::Equals,
        Token::NotEquals => SpecToken::NotEquals,
        Token::LessThan => SpecToken::LessThan,
        Token::GreaterThan => SpecToken::GreaterThan,
        Token::LessThanEqual => SpecToken::LessThanEqual,
        Token::GreaterThanEqual => SpecToken::GreaterThanEqual,
        Token::And => SpecToken::And,
        Token::Or => SpecToken::Or,
        Token::Dot => SpecToken::Dot,
        Token::Comma => SpecToken::Comma,
        Token::RoundBracketStart => SpecToken::RoundBracketStart,
        Token::RoundBracketEnd => SpecToken::RoundBracketEnd,
        Token::SquareBracketStart => SpecToken::SquareBracketStart,
        Token::SquareBracketEnd => SpecToken::SquareBracketEnd,
        Token::BlockStart => SpecToken::BlockStart,
        Token::BlockEnd => SpecToken::BlockEnd,
    }
}

impl DeepView for Token {
    type V = SpecToken;

    open spec fn deep_view(&self) -> SpecToken {
        view_token(*self)
    }
}

/// Validity of a token: any literal value inside it is valid.
pub open spec fn wf_token(t: Token) -> bool {
    match t {
        Token::Value(v) => wf_value(v),
        _ => true,
    }
}

/// A token together with where it starts in the source text, counted in
/// characters. The position is diagnostic pass-through data for error
/// messages.
#[derive(Debug, PartialEq)]
pub struct TokenWithContext {
    pub token: Token,
    pub offset: usize,
}

/// The model of a positioned token.
pub struct SpecTokenCtx {
    pub token: SpecToken,
    pub offset: int,
}

impl DeepView for TokenWithContext {
    type V = SpecTokenCtx;

    open spec fn deep_view(&self) -> SpecTokenCtx {
        SpecTokenCtx { token: view_token(self.token), offset: self.offset as int }
    }
}

impl TokenWithContext {
    /// The token itself.
    pub fn token(&self) -> (t: &Token)
        ensures
            t == &self.token,
    {
        &self.token
    }
}

/// A structural copy of a token, with the same model and validity.
pub fn clone_token(t: &Token) -> (r: Token)
    ensures
        r.deep_view() == t.deep_view(),
        wf_token(*t) ==> wf_token(r),
{
    match t {
        Token::Value(v) => Token::Value(crate::language::value::clone_value(v)),
        Token::Variable(name) => Token::Variable(name.clone()),
        Token::Plus => Token::Plus,
        Token::Minus => Token::Minus,
        Token::Star => Token::Star,
        Token::Slash => Token::Slash,
        Token::Not => Token::Not,
        Token::Equals => Token::Equals,
        Token::NotEquals => Token::NotEquals,
        Token::LessThan => Token::LessThan,
        Token::GreaterThan => Token::GreaterThan,
        Token::LessThanEqual => Token::LessThanEqual,
        Token::GreaterThanEqual => Token::GreaterThanEqual,
        Token::And => Token::And,
        Token::Or => Token::Or,
        Token::Dot => Token::Dot,
        Token::Comma => Token::Comma,
        Token::RoundBracketStart => Token::RoundBracketStart,
        Token::RoundBracketEnd => Token::RoundBracketEnd,
        Token::SquareBracketStart => Token::SquareBracketStart,
        Token::SquareBracketEnd => Token::SquareBracketEnd,
        Token::BlockStart => Token::BlockStart,
        Token::BlockEnd => Token::BlockEnd,
    }
}

impl TokenWithContext {
    /// A structural copy, with the same model and validity.
    pub fn copy(&self) -> (r: TokenWithContext)
        ensures
            r.deep_view() == self.deep_view(),
            wf_token(self.token) ==> wf_token(r.token),
    {
        TokenWithContext { token: clone_token(&self.token), offset: self.offset }
    }
}

/// The views of a positioned token sequence, elementwise.
pub open spec fn view_tokens(s: Seq<TokenWithContext>) -> Seq<SpecTokenCtx> {
    Seq::new(s.len(), |i: int| s[i].deep_view())
}

/// Validity of a positioned token sequence: every literal value carried
/// by a token is valid.
pub open spec fn wf_tokens(s: Seq<TokenWithContext>) -> bool {
    forall|i: int| 0 <= i < s.len() ==> wf_token(#[trigger] s[i].token)
}

/// The first position at or after `pos` that does not hold a decimal
/// digit.
pub open spec fn digits_end(s: Seq<char>, pos: int) -> int
    decreases s.len() - pos,
{
    if pos < 0 || pos >= s.len() || !is_digit(s[pos]) {
        pos
    } else {
        digits_end(s, pos + 1)
    }
}

/// Whether a character may appear in an identifier.
pub open spec fn is_ident_char(c: char) -> bool {
    (97 <= c as u32 <= 122) || (65 <= c as u32 <= 90) || is_digit(c) || c == '_'
}

/// The first position at or after `pos` that does not hold an identifier
/// character.
pub open spec fn ident_end(s: Seq<char>, pos: int) -> int
    decreases s.len() - pos,
{
    if pos < 0 || pos >= s.len() || !is_ident_char(s[pos]) {
        pos
    } else {
        ident_end(s, pos + 1)
    }
}

/// The first position at or after `pos` holding a double quote, or the
/// end of the text.
pub open spec fn quote_end(s: Seq<char>, pos: int) -> int
    decreases s.len() - pos,
{
    if pos < 0 || pos >= s.len() || s[pos] == '"' {
        pos
    } else {
        quote_end(s, pos + 1)
    }
}

/// Ten to the given power.
pub open spec fn pow10(k: nat) -> int
    decreases k,
{
    if k == 0 {
        1
    } else {
        10 * pow10((k - 1) as nat)
    }
}

/// A digit sequence names a number no smaller than zero.
pub proof fn lemma_digits_value_nonneg(s: Seq<char>)
    requires
        forall|i: int| 0 <= i < s.len() ==> is_digit(#[trigger] s[i]),
    ensures
        digits_value(s) >= 0,
    decreases s.len(),
{
    if s.len() > 0 {
        lemma_digits_value_nonneg(s.drop_last());
        assert(digits_value(s.drop_last()) * 10 >= 0) by (nonlinear_arith)
            requires
                digits_value(s.drop_last()) >= 0,
        ;
    }
}

/// A scan position reported by a helper, forced into the range the text
/// guarantees; real results always lie inside it.
pub open spec fn clamp_scan(lo: int, hi: int, p: int) -> int {
    if lo <= p <= hi {
        p
    } else {
        hi
    }
}

/// The tokens of the text from `pos` on: whitespace separates tokens, the
/// sentinels `<%` and `%>` open and close an expression region, numbers
/// are integers or decimal fractions, identifiers are variables unless
/// they spell `true`, `false` or `null`, text between double quotes is a
/// string literal, and the operators and brackets of the language stand
/// for themselves. A character that fits no token, a number outside the
/// machine range, and an unclosed string literal are errors.
pub open spec fn lex_spec(s: Seq<char>, pos: int) -> Result<Seq<SpecTokenCtx>, SpecError>
    decreases s.len() - pos, 1int,
{
    if pos < 0 || pos >= s.len() {
        Ok(Seq::empty())
    } else {
        let c = s[pos];
        if crate::language::value::is_space(c) {
            lex_spec(s, pos + 1)
        } else if c == '<' && pos + 1 < s.len() && s[pos + 1] == '%' {
            lex_cons(s, SpecToken::BlockStart, pos, pos + 2)
        } else if c == '%' && pos + 1 < s.len() && s[pos + 1] == '>' {
            lex_cons(s, SpecToken::BlockEnd, pos, pos + 2)
        } else if c == '&' && pos + 1 < s.len() && s[pos + 1] == '&' {
            lex_cons(s, SpecToken::And, pos, pos + 2)
        } else if c == '|' && pos + 1 < s.len() && s[pos + 1] == '|' {
            lex_cons(s, SpecToken::Or, pos, pos + 2)
        } else if c == '=' && pos + 1 < s.len() && s[pos + 1] == '=' {
            lex_cons(s, SpecToken::Equals, pos, pos + 2)
        } else if c == '!' && pos + 1 < s.len() && s[pos + 1] == '=' {
            lex_cons(s, SpecToken::NotEquals, pos, pos + 2)
        } else if c == '<' && pos + 1 < s.len() && s[pos + 1] == '=' {
            lex_cons(s, SpecToken::LessThanEqual, pos, pos + 2)
        } else if c == '>' && pos + 1 < s.len() && s[pos + 1] == '=' {
            lex_cons(s, SpecToken::GreaterThanEqual, pos, pos + 2)
        } else if c == '!' {
            lex_cons(s, SpecToken::Not, pos, pos + 1)
        } else if c == '<' {
            lex_cons(s, SpecToken::LessThan, pos, pos + 1)
        } else if c == '>' {
            lex_cons(s, SpecToken::GreaterThan, pos, pos + 1)
        } else if c == '+' {
            lex_cons(s, SpecToken::Plus, pos, pos + 1)
        } else if c == '-' {
            lex_cons(s, SpecToken::Minus, pos, pos + 1)
        } else if c == '*' {
            lex_cons(s, SpecToken::Star, pos, pos + 1)
        } else if c == '/' {
            lex_cons(s, SpecToken::Slash, pos, pos + 1)
        } else if c == '.' {
            lex_cons(s, SpecToken::Dot, pos, pos + 1)
        } else if c == ',' {
            lex_cons(s, SpecToken::Comma, pos, pos + 1)
        } else if c == '(' {
            lex_cons(s, SpecToken::RoundBracketStart, pos, pos + 1)
        } else if c == ')' {
            lex_cons(s, SpecToken::RoundBracketEnd, pos, pos + 1)
        } else if c == '[' {
            lex_cons(s, SpecToken::SquareBracketStart, pos, pos + 1)
        } else if c == ']' {
            lex_cons(s, SpecToken::SquareBracketEnd, pos, pos + 1)
        } else if is_digit(c) {
            let e1 = clamp_scan(pos + 1, s.len() as int, digits_end(s, pos + 1));
            if e1 < s.len() && s[e1] == '.' && e1 + 1 < s.len() && is_digit(s[e1 + 1]) {
                let e2 = clamp_scan(e1 + 2, s.len() as int, digits_end(s, e1 + 2));
                let k = e2 - (e1 + 1);
                let m = digits_value(s.subrange(pos, e1)) * pow10(k as nat) + digits_value(
                    s.subrange(e1 + 1, e2),
                );
                if k <= 18 && m <= i64::MAX {
                    match spec_normalize(m, pow10(k as nat)) {
                        Some(r) => lex_cons(s, SpecToken::Value(SpecValue::Float(r)), pos, e2),
                        None => Err(SpecError::InvalidToken { offset: pos }),
                    }
                } else {
                    Err(SpecError::InvalidToken { offset: pos })
                }
            } else {
                let m = digits_value(s.subrange(pos, e1));
                if m <= i64::MAX {
                    lex_cons(s, SpecToken::Value(SpecValue::Integer(m)), pos, e1)
                } else {
                    Err(SpecError::InvalidToken { offset: pos })
                }
            }
        } else if is_ident_char(c) {
            let e = clamp_scan(pos + 1, s.len() as int, ident_end(s, pos + 1));
            let name = s.subrange(pos, e);
            if name == "true"@ {
                lex_cons(s, SpecToken::Value(SpecValue::Boolean(true)), pos, e)
            } else if name == "false"@ {
                lex_cons(s, SpecToken::Value(SpecValue::Boolean(false)), pos, e)
            } else if name == "null"@ {
                lex_cons(s, SpecToken::Value(SpecValue::Null), pos, e)
            } else {
                lex_cons(s, SpecToken::Variable(name), pos, e)
            }
        } else if c == '"' {
            let q = clamp_scan(pos + 1, s.len() as int, quote_end(s, pos + 1));
            if q >= s.len() {
                Err(SpecError::Eof("string literal"@))
            } else {
                lex_cons(
                    s,
                    SpecToken::Value(SpecValue::Str(s.subrange(pos + 1, q))),
                    pos,
                    q + 1,
                )
            }
        } else {
            Err(SpecError::InvalidToken { offset: pos })
        }
    }
}

/// One token starting at `at`, followed by the tokens from `next` on.
pub open spec fn lex_cons(
    s: Seq<char>,
    t: SpecToken,
    at: int,
    next: int,
) -> Result<Seq<SpecTokenCtx>, SpecError>
    decreases s.len() - at, 0int,
{
    if !(0 <= at < s.len()) {
        Ok(seq![SpecTokenCtx { token: t, offset: at }])
    } else {
        let nextc = if at < next <= s.len() {
            next
        } else {
            s.len() as int
        };
        match lex_spec(s, nextc) {
            Ok(rest) => Ok(seq![SpecTokenCtx { token: t, offset: at }] + rest),
            Err(e) => Err(e),
        }
    }
}

/// A power of ten is positive.
proof fn lemma_pow10_pos(k: nat)
    ensures
        pow10(k) >= 1,
    decreases k,
{
    if k > 0 {
        lemma_pow10_pos((k - 1) as nat);
        assert(10 * pow10((k - 1) as nat) >= pow10((k - 1) as nat)) by (nonlinear_arith)
            requires
                pow10((k - 1) as nat) >= 1,
        ;
    }
}

/// Powers of ten do not shrink as the exponent grows.
proof fn lemma_pow10_mono(a: nat, b: nat)
    requires
        a <= b,
    ensures
        1 <= pow10(a) <= pow10(b),
    decreases b,
{
    lemma_pow10_pos(a);
    if a < b {
        lemma_pow10_mono(a, (b - 1) as nat);
        lemma_pow10_pos((b - 1) as nat);
        assert(10 * pow10((b - 1) as nat) >= pow10((b - 1) as nat)) by (nonlinear_arith)
            requires
                pow10((b - 1) as nat) >= 1,
        ;
    }
}

/// Ten to the given small power, exactly.
fn pow10_u64(k: usize) -> (r: u64)
    requires
        k <= 18,
    ensures
        r as int == pow10(k as nat),
        1 <= r <= 1000000000000000000u64,
{
    proof {
        reveal_with_fuel(pow10, 20);
    }
    let mut p: u64 = 1;
    let mut i: usize = 0;
    while i < k
        invariant
            i <= k <= 18,
            p as int == pow10(i as nat),
            p <= 1000000000000000000u64,
        decreases k - i,
    {
        proof {
            lemma_pow10_mono(i as nat + 1, 18);
            reveal_with_fuel(pow10, 20);
        }
        p = p * 10;
        i = i + 1;
    }
    proof {
        lemma_pow10_mono(k as nat, 18);
        reveal_with_fuel(pow10, 20);
    }
    p
}

/// Whether the character is a decimal digit.
fn digit_char_exec(c: char) -> (r: bool)
    ensures
        r == is_digit(c),
{
    let u = c as u32;
    48 <= u && u <= 57
}

/// Scans a run of decimal digits, reporting where it ends and its value,
/// saturated one above the machine-word range.
fn scan_digits(chars: &Vec<char>, pos: usize) -> (r: (usize, u128))
    requires
        pos <= chars@.len(),
    ensures
        r.0 as int == digits_end(chars@, pos as int),
        pos <= r.0 <= chars@.len(),
        forall|j: int| pos <= j < r.0 ==> is_digit(#[trigger] chars@[j]),
        digits_value(chars@.subrange(pos as int, r.0 as int)) >= 0,
        digits_value(chars@.subrange(pos as int, r.0 as int)) <= u64::MAX ==> r.1 as int
            == digits_value(chars@.subrange(pos as int, r.0 as int)),
        digits_value(chars@.subrange(pos as int, r.0 as int)) > u64::MAX ==> r.1
            == 0x10000000000000000u128,
{
    let n = chars.len();
    let mut i: usize = pos;
    let mut acc: u128 = 0;
    proof {
        assert(chars@.subrange(pos as int, pos as int) =~= Seq::<char>::empty());
    }
    while i < n && digit_char_exec(chars[i])
        invariant
            n == chars@.len(),
            pos <= i <= n,
            digits_end(chars@, pos as int) == digits_end(chars@, i as int),
            forall|j: int| pos <= j < i ==> is_digit(#[trigger] chars@[j]),
            digits_value(chars@.subrange(pos as int, i as int)) >= 0,
            digits_value(chars@.subrange(pos as int, i as int)) <= u64::MAX ==> acc as int
                == digits_value(chars@.subrange(pos as int, i as int)),
            digits_value(chars@.subrange(pos as int, i as int)) > u64::MAX ==> acc
                == 0x10000000000000000u128,
            acc <= 0x10000000000000000u128,
        decreases n - i,
    {
        let c = chars[i];
        let u = c as u32;
        let ghost before = chars@.subrange(pos as int, i as int);
        let ghost after = chars@.subrange(pos as int, i as int + 1);
        proof {
            assert(after.drop_last() =~= before);
            assert(after[after.len() - 1] == chars@[i as int]);
            if digits_value(before) > u64::MAX {
                assert(digits_value(before) * 10 >= digits_value(before)) by (nonlinear_arith)
                    requires
                        digits_value(before) >= 0,
                ;
            }
        }
        let v = acc * 10 + (u - 48) as u128;
        if v > u64::MAX as u128 {
            acc = 0x10000000000000000u128;
        } else {
            acc = v;
        }
        i = i + 1;
    }
    proof {
        if i < n {
            assert(!is_digit(chars@[i as int]));
        }
    }
    (i, acc)
}

/// Whether the character may appear in an identifier.
fn ident_char(c: char) -> (r: bool)
    ensures
        r == is_ident_char(c),
{
    let u = c as u32;
    (97 <= u && u <= 122) || (65 <= u && u <= 90) || (48 <= u && u <= 57) || c == '_'
}

/// Scans to the end of an identifier.
fn scan_ident(chars: &Vec<char>, pos: usize) -> (r: usize)
    requires
        pos <= chars@.len(),
    ensures
        r as int == ident_end(chars@, pos as int),
        pos <= r <= chars@.len(),
{
    let n = chars.len();
    let mut i: usize = pos;
    while i < n && ident_char(chars[i])
        invariant
            n == chars@.len(),
            pos <= i <= n,
            ident_end(chars@, pos as int) == ident_end(chars@, i as int),
        decreases n - i,
    {
        i = i + 1;
    }
    i
}

/// Scans to the closing double quote, or the end of the text.
fn scan_quote(chars: &Vec<char>, pos: usize) -> (r: usize)
    requires
        pos <= chars@.len(),
    ensures
        r as int == quote_end(chars@, pos as int),
        pos <= r <= chars@.len(),
        r < chars@.len() ==> chars@[r as int] == '"',
{
    let n = chars.len();
    let mut i: usize = pos;
    while i < n && chars[i] != '"'
        invariant
            n == chars@.len(),
            pos <= i <= n,
            quote_end(chars@, pos as int) == quote_end(chars@, i as int),
        decreases n - i,
    {
        i = i + 1;
    }
    i
}

/// A digit scan neither moves backward nor runs past the end.
proof fn lemma_digits_end_bounds(s: Seq<char>, pos: int)
    requires
        0 <= pos <= s.len(),
    ensures
        pos <= digits_end(s, pos) <= s.len(),
    decreases s.len() - pos,
{
    if pos < s.len() && is_digit(s[pos]) {
        lemma_digits_end_bounds(s, pos + 1);
    }
}

/// Joining already-produced tokens with the tokens still to come.
pub open spec fn lex_concat(
    a: Seq<SpecTokenCtx>,
    r: Result<Seq<SpecTokenCtx>, SpecError>,
) -> Result<Seq<SpecTokenCtx>, SpecError> {
    match r {
        Ok(t) => Ok(a + t),
        Err(e) => Err(e),
    }
}

/// Splits raw text into tokens, each tagged with the character offset
/// where it starts.
#[verifier::rlimit(80)]
pub fn tokenize(input: &str) -> (r: Result<Vec<TokenWithContext>, Error>)
    ensures
        match r {
            Ok(toks) => lex_spec(input@, 0) == Ok::<Seq<SpecTokenCtx>, SpecError>(
                view_tokens(toks@),
            ) && wf_tokens(toks@),
            Err(e) => lex_spec(input@, 0) == Err::<Seq<SpecTokenCtx>, SpecError>(
                e.deep_view(),
            ),
        },
{
    let chars = crate::text::str_chars(input);
    let n = chars.len();
    let mut out: Vec<TokenWithContext> = Vec::new();
    let mut i: usize = 0;
    proof {
        if lex_spec(input@, 0) is Ok {
            assert(Seq::<SpecTokenCtx>::empty() + lex_spec(input@, 0)->Ok_0 =~= lex_spec(
                input@,
                0,
            )->Ok_0);
        }
        assert(view_tokens(out@) =~= Seq::<SpecTokenCtx>::empty());
    }
    while i < n
        invariant
            chars@ == input@,
            n == chars@.len(),
            i <= n,
            wf_tokens(out@),
            lex_concat(view_tokens(out@), lex_spec(input@, i as int)) == lex_spec(input@, 0),
        decreases n - i,
    {
        let c = chars[i];
        if crate::language::value::space_char(c) {
            i = i + 1;
        } else {
            let pair: (Token, usize);
            if c == '<' && i + 1 < n && chars[i + 1] == '%' {
                pair = (Token::BlockStart, i + 2);
            } else if c == '%' && i + 1 < n && chars[i + 1] == '>' {
                pair = (Token::BlockEnd, i + 2);
            } else if c == '&' && i + 1 < n && chars[i + 1] == '&' {
                pair = (Token::And, i + 2);
            } else if c == '|' && i + 1 < n && chars[i + 1] == '|' {
                pair = (Token::Or, i + 2);
            } else if c == '=' && i + 1 < n && chars[i + 1] == '=' {
                pair = (Token::Equals, i + 2);
            } else if c == '!' && i + 1 < n && chars[i + 1] == '=' {
                pair = (Token::NotEquals, i + 2);
            } else if c == '<' && i + 1 < n && chars[i + 1] == '=' {
                pair = (Token::LessThanEqual, i + 2);
            } else if c == '>' && i + 1 < n && chars[i + 1] == '=' {
                pair = (Token::GreaterThanEqual, i + 2);
            } else if c == '!' {
                pair = (Token::Not, i + 1);
            } else if c == '<' {
                pair = (Token::LessThan, i + 1);
            } else if c == '>' {
                pair = (Token::GreaterThan, i + 1);
            } else if c == '+' {
                pair = (Token::Plus, i + 1);
            } else if c == '-' {
                pair = (Token::Minus, i + 1);
            } else if c == '*' {
                pair = (Token::Star, i + 1);
            } else if c == '/' {
                pair = (Token::Slash, i + 1);
            } else if c == '.' {
                pair = (Token::Dot, i + 1);
            } else if c == ',' {
                pair = (Token::Comma, i + 1);
            } else if c == '(' {
                pair = (Token::RoundBracketStart, i + 1);
            } else if c == ')' {
                pair = (Token::RoundBracketEnd, i + 1);
            } else if c == '[' {
                pair = (Token::SquareBracketStart, i + 1);
            } else if c == ']' {
                pair = (Token::SquareBracketEnd, i + 1);
            } else if digit_char_exec(c) {
                let (e1, v1) = scan_digits(&chars, i);
                proof {
                    lemma_digits_end_bounds(input@, i as int + 1);
                    assert(digits_end(input@, i as int) == digits_end(input@, i as int + 1));
                }
                if e1 < n && chars[e1] == '.' && e1 + 1 < n && digit_char_exec(chars[e1 + 1]) {
                    let (e2, v2) = scan_digits(&chars, e1 + 1);
                    proof {
                        lemma_digits_end_bounds(input@, e1 as int + 2);
                        assert(digits_end(input@, e1 as int + 1) == digits_end(
                            input@,
                            e1 as int + 2,
                        ));
                        lemma_digits_value_nonneg(input@.subrange(i as int, e1 as int));
                        lemma_digits_value_nonneg(input@.subrange(e1 as int + 1, e2 as int));
                    }
                    let k = e2 - (e1 + 1);
                    let ghost dv1 = digits_value(input@.subrange(i as int, e1 as int));
                    let ghost dv2 = digits_value(input@.subrange(e1 as int + 1, e2 as int));
                    let ghost m = dv1 * pow10(k as nat) + dv2;
                    proof {
                        lemma_pow10_pos(k as nat);
                        assert(dv1 * pow10(k as nat) >= dv1 && dv1 * pow10(k as nat) >= 0)
                            by (nonlinear_arith)
                            requires
                                dv1 >= 0,
                                pow10(k as nat) >= 1,
                        ;
                    }
                    if k > 18 {
                        return Err(Error::InvalidToken { offset: i });
                    }
                    if v1 > u64::MAX as u128 || v2 > u64::MAX as u128 {
                        return Err(Error::InvalidToken { offset: i });
                    }
                    let p10 = pow10_u64(k);
                    proof {
                        assert(v1 * p10 as u128 <= 0xffffffffffffffffu128
                            * 1000000000000000000u128) by (nonlinear_arith)
                            requires
                                v1 <= 0xffffffffffffffffu128,
                                p10 as u128 <= 1000000000000000000u128,
                                v1 >= 0,
                        ;
                    }
                    let m128 = v1 * p10 as u128 + v2;
                    if m128 > i64::MAX as u128 {
                        return Err(Error::InvalidToken { offset: i });
                    }
                    let rat = Rational::from_decimal(m128 as i64, p10 as i64);
                    pair = (Token::Value(Value::Float(rat)), e2);
                } else {
                    proof {
                        lemma_digits_value_nonneg(input@.subrange(i as int, e1 as int));
                    }
                    if v1 > i64::MAX as u128 {
                        return Err(Error::InvalidToken { offset: i });
                    }
                    pair = (Token::Value(Value::Integer(v1 as i64)), e1);
                }
            } else if ident_char(c) {
                let e = scan_ident(&chars, i);
                proof {
                    lemma_ident_end_bounds(input@, i as int + 1);
                    assert(ident_end(input@, i as int) == ident_end(input@, i as int + 1));
                }
                let namevec = crate::text::chars_range(&chars, i, e);
                let name = crate::text::chars_to_string(&namevec);
                if crate::language::value::str_eq(name.as_str(), "true") {
                    pair = (Token::Value(Value::Boolean(true)), e);
                } else if crate::language::value::str_eq(name.as_str(), "false") {
                    pair = (Token::Value(Value::Boolean(false)), e);
                } else if crate::language::value::str_eq(name.as_str(), "null") {
                    pair = (Token::Value(Value::Null), e);
                } else {
                    pair = (Token::Variable(name), e);
                }
            } else if c == '"' {
                let q = scan_quote(&chars, i + 1);
                if q >= n {
                    return Err(Error::Eof("string literal"));
                }
                let sv = crate::text::chars_to_string(
                    &crate::text::chars_range(&chars, i + 1, q),
                );
                pair = (Token::Value(Value::String(sv)), q + 1);
            } else {
                return Err(Error::InvalidToken { offset: i });
            }
            let (tok, next) = pair;
            let ghost tokview = view_token(tok);
            let ghost beforeviews = view_tokens(out@);
            proof {
                assert(lex_spec(input@, i as int) == lex_cons(input@, tokview, i as int, next as int));
            }
            out.push(TokenWithContext { token: tok, offset: i });
            proof {
                assert(view_tokens(out@) =~= beforeviews.push(
                    SpecTokenCtx { token: tokview, offset: i as int },
                ));
                let rest = lex_spec(input@, next as int);
                if rest is Ok {
                    assert(beforeviews + (seq![
                        SpecTokenCtx { token: tokview, offset: i as int },
                    ] + rest->Ok_0) =~= view_tokens(out@) + rest->Ok_0);
                }
            }
            i = next;
        }
    }
    proof {
        assert(view_tokens(out@) + Seq::<SpecTokenCtx>::empty() =~= view_tokens(out@));
    }
    Ok(out)
}

/// An identifier scan neither moves backward nor runs past the end.
proof fn lemma_ident_end_bounds(s: Seq<char>, pos: int)
    requires
        0 <= pos <= s.len(),
    ensures
        pos <= ident_end(s, pos) <= s.len(),
    decreases s.len() - pos,
{
    if pos < s.len() && is_ident_char(s[pos]) {
        lemma_ident_end_bounds(s, pos + 1);
    }
}

} // verus!
