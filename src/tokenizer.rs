use vstd::prelude::*;
use crate::error::ExprError;
use crate::text::chars_of;

verus! {

/// A lexical token of an arithmetic expression.
#[derive(Debug, Clone, Copy, PartialEq, Eq, Structural)]
pub enum Tokens {
    Number(u32),
    Plus,
    Minus,
    Asterisk,
    Slash,
    Caret,
    ParenLeft,
    ParenRight,
}

pub open spec fn is_digit(c: char) -> bool {
    '0' <= c && c <= '9'
}

pub open spec fn digit_val(c: char) -> nat {
    (c as int - '0' as int) as nat
}

/// The length of the run of digits at the start of `s`.
pub open spec fn digit_run(s: Seq<char>) -> nat
    decreases s.len(),
{
    if s.len() > 0 && is_digit(s[0]) {
        1 + digit_run(s.skip(1))
    } else {
        0
    }
}

/// The number that a sequence of decimal digits denotes.
pub open spec fn digits_value(d: Seq<char>) -> nat
    decreases d.len(),
{
    if d.len() == 0 {
        0
    } else {
        digits_value(d.drop_last()) * 10 + digit_val(d.last())
    }
}

/// The token of a one-character symbol, if `c` is one.
pub open spec fn symbol_token(c: char) -> Option<Tokens> {
    if c == '+' {
        Some(Tokens::Plus)
    } else if c == '-' {
        Some(Tokens::Minus)
    } else if c == '*' {
        Some(Tokens::Asterisk)
    } else if c == '/' {
        Some(Tokens::Slash)
    } else if c == '^' {
        Some(Tokens::Caret)
    } else if c == '(' {
        Some(Tokens::ParenLeft)
    } else if c == ')' {
        Some(Tokens::ParenRight)
    } else {
        None
    }
}

/// The operator character of an operator token; `None` for a number or a
/// parenthesis.
pub open spec fn op_char_of(t: Tokens) -> Option<char> {
    match t {
        Tokens::Plus => Some('+'),
        Tokens::Minus => Some('-'),
        Tokens::Asterisk => Some('*'),
        Tokens::Slash => Some('/'),
        Tokens::Caret => Some('^'),
        _ => None,
    }
}

impl Tokens {
    /// The operator character of an operator token; `None` for a number or
    /// a parenthesis.
    pub fn operator_char(&self) -> (r: Option<char>)
        ensures
            r == op_char_of(*self),
    {
        match self {
            Tokens::Plus => Some('+'),
            Tokens::Minus => Some('-'),
            Tokens::Asterisk => Some('*'),
            Tokens::Slash => Some('/'),
            Tokens::Caret => Some('^'),
            _ => None,
        }
    }
}

/// `p` put in front of a successful result; an error passes through.
pub open spec fn prepend(p: Seq<Tokens>, r: Result<Seq<Tokens>, ExprError>) -> Result<Seq<Tokens>, ExprError> {
    match r {
        Ok(t) => Ok(p + t),
        Err(e) => Err(e),
    }
}

/// The tokens of `s`, read left to right: a maximal run of digits is one
/// number, each of `+ - * / ^ ( )` is one token, a space is skipped. The
/// first digit run too large for `u32` or character outside that alphabet
/// is the error.
pub open spec fn lex(s: Seq<char>) -> Result<Seq<Tokens>, ExprError>
    decreases s.len() via lex_decreases
{
    if s.len() == 0 {
        Ok(Seq::empty())
    } else if is_digit(s[0]) {
        let n = digit_run(s);
        let v = digits_value(s.take(n as int));
        if v > u32::MAX {
            Err(ExprError::NumericOverflow)
        } else {
            prepend(seq![Tokens::Number(v as u32)], lex(s.skip(n as int)))
        }
    } else if s[0] == ' ' {
        lex(s.skip(1))
    } else {
        match symbol_token(s[0]) {
            Some(t) => prepend(seq![t], lex(s.skip(1))),
            None => Err(ExprError::UnexpectedCharacter(s[0])),
        }
    }
}

#[via_fn]
proof fn lex_decreases(s: Seq<char>) {
    if s.len() > 0 && is_digit(s[0]) {
        lemma_digit_run_bounded(s);
    }
}

/// A run of digits lies within the text, and is not empty where the text
/// starts with a digit.
pub proof fn lemma_digit_run_bounded(s: Seq<char>)
    ensures
        digit_run(s) <= s.len(),
        s.len() > 0 && is_digit(s[0]) ==> digit_run(s) >= 1,
    decreases s.len(),
{
    if s.len() > 0 && is_digit(s[0]) {
        lemma_digit_run_bounded(s.skip(1));
    }
}

/// A run of `k` digits followed by the end or by a non-digit is the run.
pub proof fn lemma_digit_run_exact(s: Seq<char>, k: int)
    requires
        0 <= k <= s.len(),
        forall|i: int| 0 <= i < k ==> is_digit(#[trigger] s[i]),
        k == s.len() || !is_digit(s[k]),
    ensures
        digit_run(s) == k,
    decreases k,
{
    if k > 0 {
        let t = s.skip(1);
        assert forall|i: int| 0 <= i < k - 1 implies is_digit(#[trigger] t[i]) by {
            assert(t[i] == s[i + 1]);
        }
        if k < s.len() {
            assert(t[k - 1] == s[k]);
        }
        lemma_digit_run_exact(t, k - 1);
    }
}

/// Where `s` starts with `k` digits, its run has at least that length.
pub proof fn lemma_digit_run_at_least(s: Seq<char>, k: int)
    requires
        0 <= k <= s.len(),
        forall|i: int| 0 <= i < k ==> is_digit(#[trigger] s[i]),
    ensures
        digit_run(s) >= k,
    decreases k,
{
    if k > 0 {
        let t = s.skip(1);
        assert forall|i: int| 0 <= i < k - 1 implies is_digit(#[trigger] t[i]) by {
            assert(t[i] == s[i + 1]);
        }
        lemma_digit_run_at_least(t, k - 1);
    }
}

/// Putting `q` and then `p` in front is putting `p + q` in front.
pub proof fn lemma_prepend_assoc(p: Seq<Tokens>, q: Seq<Tokens>, r: Result<Seq<Tokens>, ExprError>)
    ensures
        prepend(p, prepend(q, r)) == prepend(p + q, r),
{
    if let Ok(t) = r {
        assert(p + (q + t) =~= (p + q) + t);
    }
}

/// Appending digits never makes the number smaller.
pub proof fn lemma_digits_value_prefix(d: Seq<char>, k: int)
    requires
        0 <= k <= d.len(),
    ensures
        digits_value(d.take(k)) <= digits_value(d),
    decreases d.len(),
{
    if k < d.len() {
        lemma_digits_value_prefix(d.drop_last(), k);
        assert(d.drop_last().take(k) =~= d.take(k));
    } else {
        assert(d.take(k) =~= d);
    }
}

/// The tokens of `input`; see `lex`.
pub fn tokenize(input: &str) -> (r: Result<Vec<Tokens>, ExprError>)
    ensures
        match r {
            Ok(v) => lex(input@) == Ok::<Seq<Tokens>, ExprError>(v@),
            Err(e) => lex(input@) == Err::<Seq<Tokens>, ExprError>(e),
        },
{
    let chars = chars_of(input);
    let n = chars.len();
    let mut tokens: Vec<Tokens> = Vec::new();
    let mut i: usize = 0;
    assert(chars@.skip(0) =~= chars@);
    proof {
        if let Ok(t) = lex(chars@) {
            assert(tokens@ + t =~= t);
        }
    }
    while i < n
        invariant
            n == chars@.len(),
            chars@ == input@,
            i <= n,
            lex(input@) == prepend(tokens@, lex(chars@.skip(i as int))),
        decreases n - i,
    {
        let c = chars[i];
        let ghost rest = chars@.skip(i as int);
        assert(rest[0] == c);
        if '0' <= c && c <= '9' {
            let mut j: usize = i;
            let mut v: u32 = 0;
            while j < n && '0' <= chars[j] && chars[j] <= '9'
                invariant
                    n == chars@.len(),
                    chars@ == input@,
                    rest == chars@.skip(i as int),
                    lex(input@) == prepend(tokens@, lex(rest)),
                    i < n,
                    i <= j <= n,
                    forall|k: int| i <= k < j ==> is_digit(#[trigger] chars@[k]),
                    v == digits_value(chars@.subrange(i as int, j as int)),
                decreases n - j,
            {
                let ghost old_sub = chars@.subrange(i as int, j as int);
                let d = (chars[j] as u32) - ('0' as u32);
                assert(chars@.subrange(i as int, j + 1).drop_last() =~= old_sub);
                let m = v.checked_mul(10);
                let w = match m {
                    Some(m) => m.checked_add(d),
                    None => None,
                };
                match w {
                    Some(w) => {
                        v = w;
                    },
                    None => {
                        proof {
                            lemma_digit_run_at_least(rest, j - i + 1);
                            lemma_digit_run_bounded(rest);
                            let full = rest.take(digit_run(rest) as int);
                            assert(full.take(j - i + 1) =~= chars@.subrange(i as int, j + 1));
                            lemma_digits_value_prefix(full, j - i + 1);
                            let sub = chars@.subrange(i as int, j + 1);
                            assert(sub.last() == chars@[j as int]);
                            assert(digits_value(sub) == v * 10 + d);
                            assert(digits_value(sub) > u32::MAX);
                            assert(digits_value(full) > u32::MAX);
                            assert(lex(rest) == Err::<Seq<Tokens>, ExprError>(ExprError::NumericOverflow));
                        }
                        return Err(ExprError::NumericOverflow);
                    },
                }
                j = j + 1;
            }
            proof {
                assert forall|k: int| 0 <= k < j - i implies is_digit(#[trigger] rest[k]) by {
                    assert(rest[k] == chars@[i + k]);
                }
                if j < n {
                    assert(rest[j - i] == chars@[j as int]);
                }
                lemma_digit_run_exact(rest, j - i);
                assert(rest.take(j - i) =~= chars@.subrange(i as int, j as int));
                assert(rest.skip(j - i) =~= chars@.skip(j as int));
                assert(tokens@.push(Tokens::Number(v)) =~= tokens@ + seq![Tokens::Number(v)]);
                lemma_prepend_assoc(tokens@, seq![Tokens::Number(v)], lex(chars@.skip(j as int)));
            }
            tokens.push(Tokens::Number(v));
            i = j;
        } else if c == ' ' {
            assert(rest.skip(1) =~= chars@.skip(i + 1));
            i = i + 1;
        } else {
            let t = match c {
                '+' => Tokens::Plus,
                '-' => Tokens::Minus,
                '*' => Tokens::Asterisk,
                '/' => Tokens::Slash,
                '^' => Tokens::Caret,
                '(' => Tokens::ParenLeft,
                ')' => Tokens::ParenRight,
                _ => {
                    return Err(ExprError::UnexpectedCharacter(c));
                },
            };
            assert(rest.skip(1) =~= chars@.skip(i + 1));
            assert(tokens@.push(t) =~= tokens@ + seq![t]);
            proof { lemma_prepend_assoc(tokens@, seq![t], lex(chars@.skip(i + 1))); }
            tokens.push(t);
            i = i + 1;
        }
    }
    assert(chars@.skip(n as int) =~= Seq::<char>::empty());
    assert(tokens@ + Seq::<Tokens>::empty() =~= tokens@);
    Ok(tokens)
}

/// An expression and its tokens.
pub struct Tokenizer {
    pub tokens: Vec<Tokens>,
    pub raw_input: String,
}

impl Tokenizer {
    /// Tokenizes `input`; see `lex`.
    pub fn new(input: String) -> (r: Result<Tokenizer, ExprError>)
        ensures
            match lex(input@) {
                Ok(ts) => r matches Ok(t) && t.tokens@ == ts && t.raw_input@ == input@,
                Err(e) => r matches Err(e2) && e2 == e,
            },
    {
        match tokenize(input.as_str()) {
            Ok(tokens) => Ok(Tokenizer { tokens, raw_input: input }),
            Err(e) => Err(e),
        }
    }

    /// No input and no tokens.
    pub fn default() -> (r: Tokenizer)
        ensures
            r.tokens@.len() == 0,
            r.raw_input@.len() == 0,
    {
        Tokenizer { tokens: Vec::new(), raw_input: String::new() }
    }

    /// The tokens, in order.
    pub fn iter(&self) -> (r: &[Tokens])
        ensures
            r@ == self.tokens@,
    {
        self.tokens.as_slice()
    }
}

} // verus!
