use vstd::prelude::*;
use crate::error::ExprError;
use crate::operator::{is_op_char, yields_to, Associativity, Operator};
use crate::stack::Stack;
use crate::text::push_char;
use crate::tokenizer::{lex, op_char_of, tokenize, Tokens};

verus! {

/// The token of an operator character.
pub open spec fn op_token(c: char) -> Tokens {
    if c == '+' {
        Tokens::Plus
    } else if c == '-' {
        Tokens::Minus
    } else if c == '*' {
        Tokens::Asterisk
    } else if c == '/' {
        Tokens::Slash
    } else {
        Tokens::Caret
    }
}

/// Every entry of an operator stack is `(` or an operator.
pub open spec fn ops_ok(ops: Seq<char>) -> bool {
    forall|i: int| 0 <= i < ops.len() ==> #[trigger] ops[i] == '(' || is_op_char(ops[i])
}

/// On `)`: operators move from the stack to the output `out` until a `(`,
/// which is dropped. A stack that runs out first underflows.
pub open spec fn conv_close(out: Seq<Tokens>, ops: Seq<char>) -> Result<(Seq<Tokens>, Seq<char>), ExprError>
    decreases ops.len(),
{
    if ops.len() == 0 {
        Err(ExprError::StackUnderflow)
    } else if ops.last() == '(' {
        Ok((out, ops.drop_last()))
    } else {
        conv_close(out.push(op_token(ops.last())), ops.drop_last())
    }
}

/// On an operator `o1`: operators move from the stack to the output while
/// the top yields to `o1` (see `yields_to`).
pub open spec fn conv_yield(out: Seq<Tokens>, ops: Seq<char>, o1: char) -> (Seq<Tokens>, Seq<char>)
    decreases ops.len(),
{
    if ops.len() > 0 && yields_to(ops.last(), o1) {
        conv_yield(out.push(op_token(ops.last())), ops.drop_last(), o1)
    } else {
        (out, ops)
    }
}

/// At the end of the input: the rest of the stack moves to the output; a
/// `(` left on it is unbalanced.
pub open spec fn conv_drain(out: Seq<Tokens>, ops: Seq<char>) -> Result<Seq<Tokens>, ExprError>
    decreases ops.len(),
{
    if ops.len() == 0 {
        Ok(out)
    } else if ops.last() == '(' {
        Err(ExprError::UnbalancedParentheses)
    } else {
        conv_drain(out.push(op_token(ops.last())), ops.drop_last())
    }
}

/// The shunting-yard algorithm from output `out` and operator stack `ops`
/// over the tokens `ts`: the whole postfix output, or the first error.
pub open spec fn conv_run(out: Seq<Tokens>, ops: Seq<char>, ts: Seq<Tokens>) -> Result<Seq<Tokens>, ExprError>
    decreases ts.len(),
{
    if ts.len() == 0 {
        conv_drain(out, ops)
    } else {
        let t = ts[0];
        let rest = ts.skip(1);
        match t {
            Tokens::Number(_) => conv_run(out.push(t), ops, rest),
            Tokens::ParenLeft => conv_run(out, ops.push('('), rest),
            Tokens::ParenRight => match conv_close(out, ops) {
                Ok((o, s)) => conv_run(o, s, rest),
                Err(e) => Err(e),
            },
            _ => {
                let c = op_char_of(t)->Some_0;
                let (o, s) = conv_yield(out, ops, c);
                conv_run(o, s.push(c), rest)
            },
        }
    }
}

/// The postfix form of the infix tokens `ts`.
pub open spec fn shunt(ts: Seq<Tokens>) -> Result<Seq<Tokens>, ExprError> {
    conv_run(Seq::empty(), Seq::empty(), ts)
}

/// The digit character of `d < 10`.
pub open spec fn digit_char(d: nat) -> char {
    ((d + 48) as u8) as char
}

/// The decimal digits of `v`, most significant first, without leading zeros.
pub open spec fn decimal(v: nat) -> Seq<char>
    decreases v,
{
    if v < 10 {
        seq![digit_char(v)]
    } else {
        decimal(v / 10).push(digit_char(v % 10))
    }
}

/// How a token is written.
pub open spec fn token_text(t: Tokens) -> Seq<char> {
    match t {
        Tokens::Number(v) => decimal(v as nat),
        Tokens::Plus => seq!['+'],
        Tokens::Minus => seq!['-'],
        Tokens::Asterisk => seq!['*'],
        Tokens::Slash => seq!['/'],
        Tokens::Caret => seq!['^'],
        Tokens::ParenLeft => seq!['('],
        Tokens::ParenRight => seq![')'],
    }
}

/// The tokens written out, one space between two of them.
pub open spec fn render(ts: Seq<Tokens>) -> Seq<char>
    decreases ts.len(),
{
    if ts.len() == 0 {
        Seq::empty()
    } else if ts.len() == 1 {
        token_text(ts[0])
    } else {
        render(ts.drop_last()) + seq![' '] + token_text(ts.last())
    }
}

/// The postfix text of the infix text `s`.
pub open spec fn infix_rpn_text(s: Seq<char>) -> Result<Seq<char>, ExprError> {
    match lex(s) {
        Ok(ts) => match shunt(ts) {
            Ok(out) => Ok(render(out)),
            Err(e) => Err(e),
        },
        Err(e) => Err(e),
    }
}

/// The token of an operator character; see `op_token`.
pub fn token_of_operator(c: char) -> (r: Tokens)
    ensures
        r == op_token(c),
{
    match c {
        '+' => Tokens::Plus,
        '-' => Tokens::Minus,
        '*' => Tokens::Asterisk,
        '/' => Tokens::Slash,
        _ => Tokens::Caret,
    }
}

/// Appends the decimal digits of `v` to `s`.
fn push_decimal(s: &mut String, v: u32)
    ensures
        final(s)@ == old(s)@ + decimal(v as nat),
    decreases v,
{
    if v >= 10 {
        push_decimal(s, v / 10);
    }
    let d = (v % 10) as u8;
    push_char(s, (d + 48) as char);
    assert(old(s)@ + decimal(v as nat) =~= final(s)@) by {
        if v < 10 {
        }
    };
}

/// Appends the text of `t` to `s`.
fn push_token(s: &mut String, t: Tokens)
    ensures
        final(s)@ == old(s)@ + token_text(t),
{
    match t {
        Tokens::Number(v) => push_decimal(s, v),
        Tokens::Plus => push_char(s, '+'),
        Tokens::Minus => push_char(s, '-'),
        Tokens::Asterisk => push_char(s, '*'),
        Tokens::Slash => push_char(s, '/'),
        Tokens::Caret => push_char(s, '^'),
        Tokens::ParenLeft => push_char(s, '('),
        Tokens::ParenRight => push_char(s, ')'),
    }
    assert(final(s)@ =~= old(s)@ + token_text(t));
}

/// The tokens written out with one space between two of them.
pub fn render_tokens(ts: &Vec<Tokens>) -> (r: String)
    ensures
        r@ == render(ts@),
{
    let mut s = String::new();
    let n = ts.len();
    let mut i: usize = 0;
    assert(ts@.take(0) =~= Seq::<Tokens>::empty());
    while i < n
        invariant
            n == ts@.len(),
            i <= n,
            s@ == render(ts@.take(i as int)),
        decreases n - i,
    {
        let ghost before = s@;
        if i > 0 {
            push_char(&mut s, ' ');
        }
        push_token(&mut s, ts[i]);
        assert(ts@.take(i + 1).drop_last() =~= ts@.take(i as int));
        i = i + 1;
    }
    assert(ts@.take(n as int) =~= ts@);
    s
}

/// Moves operators from `ops` to `out` up to the nearest `(`, which is
/// dropped; fails with `StackUnderflow` where there is none.
fn close_paren(out: &mut Vec<Tokens>, ops: &mut Stack<char>) -> (r: Result<(), ExprError>)
    requires
        ops_ok(old(ops)@),
    ensures
        ops_ok(final(ops)@),
        match conv_close(old(out)@, old(ops)@) {
            Ok((o, s)) => r is Ok && final(out)@ == o && final(ops)@ == s,
            Err(e) => r == Err::<(), ExprError>(e),
        },
{
    loop
        invariant
            ops_ok(ops@),
            conv_close(old(out)@, old(ops)@) == conv_close(out@, ops@),
        decreases ops@.len(),
    {
        let top = match ops.peek() {
            Some(t) => *t,
            None => {
                return Err(ExprError::StackUnderflow);
            },
        };
        let ghost before = ops@;
        let _ = ops.pop();
        assert(ops_ok(ops@)) by {
            assert forall|i: int| 0 <= i < ops@.len() implies #[trigger] ops@[i] == '(' || is_op_char(ops@[i]) by {
                assert(ops@[i] == before[i]);
            }
        };
        if top == '(' {
            return Ok(());
        }
        out.push(token_of_operator(top));
    }
}

/// Moves operators from `ops` to `out` while the top yields to the incoming
/// operator `o1`.
fn yield_to(out: &mut Vec<Tokens>, ops: &mut Stack<char>, o1: char) -> (r: Result<(), ExprError>)
    requires
        ops_ok(old(ops)@),
        is_op_char(o1),
    ensures
        ops_ok(final(ops)@),
        r is Ok,
        (final(out)@, final(ops)@) == conv_yield(old(out)@, old(ops)@, o1),
{
    let p1 = match Operator::get_precedence(&o1) {
        Ok(p) => p,
        Err(e) => {
            return Err(e);
        },
    };
    let left = match Operator::get_associativity(o1) {
        Ok(a) => a == Associativity::Left,
        Err(e) => {
            return Err(e);
        },
    };
    loop
        invariant
            ops_ok(ops@),
            is_op_char(o1),
            p1 == crate::operator::prec_of(o1),
            left == crate::operator::is_left_assoc(o1),
            conv_yield(old(out)@, old(ops)@, o1) == conv_yield(out@, ops@, o1),
        decreases ops@.len(),
    {
        let top = match ops.peek() {
            Some(t) => *t,
            None => {
                return Ok(());
            },
        };
        if top == '(' {
            return Ok(());
        }
        assert(is_op_char(top)) by {
            assert(ops@[ops@.len() - 1] == top);
        };
        let p2 = match Operator::get_precedence(&top) {
            Ok(p) => p,
            Err(e) => {
                return Err(e);
            },
        };
        if p2 > p1 || (p2 == p1 && left) {
            let ghost before = ops@;
            let _ = ops.pop();
            assert(ops_ok(ops@)) by {
                assert forall|i: int| 0 <= i < ops@.len() implies #[trigger] ops@[i] == '(' || is_op_char(ops@[i]) by {
                    assert(ops@[i] == before[i]);
                }
            };
            out.push(token_of_operator(top));
        } else {
            return Ok(());
        }
    }
}

/// Converts an infix expression such as `"1 + 2 * 3 - 4"` to postfix
/// (`"1 2 3 * + 4 -"`) with the shunting-yard algorithm: numbers go straight
/// to the output, operators wait on a stack until an operator that binds no
/// tighter (or, for the right-associative `^`, less tightly) arrives or a
/// `)` or the end of the input comes. Tokens in the result are separated by
/// single spaces. An unmatched `)` underflows the stack; an unmatched `(`
/// is unbalanced.
pub fn infix_to_rpn(input: String) -> (r: Result<String, ExprError>)
    ensures
        match infix_rpn_text(input@) {
            Ok(t) => r matches Ok(s) && s@ == t,
            Err(e) => r matches Err(e2) && e2 == e,
        },
{
    let tokens = match tokenize(input.as_str()) {
        Ok(t) => t,
        Err(e) => {
            return Err(e);
        },
    };
    let mut ops: Stack<char> = Stack::new();
    let mut out: Vec<Tokens> = Vec::new();
    let n = tokens.len();
    let mut i: usize = 0;
    assert(tokens@.skip(0) =~= tokens@);
    while i < n
        invariant
            n == tokens@.len(),
            i <= n,
            lex(input@) == Ok::<Seq<Tokens>, ExprError>(tokens@),
            ops_ok(ops@),
            shunt(tokens@) == conv_run(out@, ops@, tokens@.skip(i as int)),
        decreases n - i,
    {
        let t = tokens[i];
        assert(tokens@.skip(i as int)[0] == t);
        assert(tokens@.skip(i as int).skip(1) =~= tokens@.skip(i + 1));
        match t {
            Tokens::Number(_) => {
                out.push(t);
            },
            Tokens::ParenLeft => {
                ops.push('(');
            },
            Tokens::ParenRight => {
                match close_paren(&mut out, &mut ops) {
                    Ok(()) => {},
                    Err(e) => {
                        return Err(e);
                    },
                }
            },
            _ => {
                let c = match t.operator_char() {
                    Some(c) => c,
                    None => {
                        return Err(ExprError::UnsupportedOperator);
                    },
                };
                match yield_to(&mut out, &mut ops, c) {
                    Ok(()) => {},
                    Err(e) => {
                        return Err(e);
                    },
                }
                ops.push(c);
            },
        }
        i = i + 1;
    }
    assert(tokens@.skip(n as int).len() == 0);
    loop
        invariant
            ops_ok(ops@),
            shunt(tokens@) == conv_drain(out@, ops@),
            lex(input@) == Ok::<Seq<Tokens>, ExprError>(tokens@),
        ensures
            shunt(tokens@) == Ok::<Seq<Tokens>, ExprError>(out@),
            lex(input@) == Ok::<Seq<Tokens>, ExprError>(tokens@),
        decreases ops@.len(),
    {
        let top = match ops.peek() {
            Some(t) => *t,
            None => {
                break;
            },
        };
        if top == '(' {
            return Err(ExprError::UnbalancedParentheses);
        }
        let _ = ops.pop();
        out.push(token_of_operator(top));
    }
    Ok(render_tokens(&out))
}

} // verus!
