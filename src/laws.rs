use vstd::prelude::*;
use crate::arith::{apply_fused, apply_rpn};
use crate::error::ExprError;
use crate::fused::{fused_apply, fused_close, fused_drain, fused_run, fused_value, fused_yield};
use crate::operator::is_op_char;
use crate::rpn::{rpn_run, rpn_step, rpn_value};
use crate::shunting::{
    conv_close, conv_drain, conv_run, conv_yield, decimal, digit_char, infix_rpn_text, op_token,
    render, shunt, token_text,
};
use crate::tokenizer::{
    digit_run, digit_val, digits_value, is_digit, lemma_digit_run_bounded, lemma_digit_run_exact, lemma_prepend_assoc, lex,
    op_char_of, prepend, symbol_token, Tokens,
};

verus! {

/// No token is a parenthesis.
pub open spec fn no_parens(ts: Seq<Tokens>) -> bool {
    forall|i: int| 0 <= i < ts.len() ==> #[trigger] ts[i] != Tokens::ParenLeft && ts[i] != Tokens::ParenRight
}

/// No token is `^`.
pub open spec fn no_caret(ts: Seq<Tokens>) -> bool {
    forall|i: int| 0 <= i < ts.len() ==> #[trigger] ts[i] != Tokens::Caret
}

/// An operator stack of `(` and operators other than `^`.
pub open spec fn plain_ops(ops: Seq<char>) -> bool {
    forall|i: int| 0 <= i < ops.len() ==> #[trigger] ops[i] == '(' || (is_op_char(ops[i]) && ops[i] != '^')
}

/// The result of `lex(a)` followed by that of `lex(b)`.
pub open spec fn lex_join(a: Result<Seq<Tokens>, ExprError>, b: Result<Seq<Tokens>, ExprError>) -> Result<Seq<Tokens>, ExprError> {
    match a {
        Ok(p) => prepend(p, b),
        Err(e) => Err(e),
    }
}

proof fn lemma_digit_run_concat(a: Seq<char>, b: Seq<char>)
    requires
        b.len() > 0,
        !is_digit(b[0]),
    ensures
        digit_run(a + b) == digit_run(a),
    decreases a.len(),
{
    if a.len() == 0 {
        assert(a + b =~= b);
    } else {
        assert((a + b)[0] == a[0]);
        if is_digit(a[0]) {
            assert((a + b).skip(1) =~= a.skip(1) + b);
            lemma_digit_run_concat(a.skip(1), b);
        }
    }
}

/// Lexing text that is followed by a space: the tokens of the two parts.
proof fn lemma_lex_concat(a: Seq<char>, b: Seq<char>)
    requires
        b.len() > 0,
        b[0] == ' ',
    ensures
        lex(a + b) == lex_join(lex(a), lex(b)),
    decreases a.len(),
{
    let ab = a + b;
    if a.len() == 0 {
        assert(ab =~= b);
        if let Ok(t) = lex(b) {
            assert(Seq::<Tokens>::empty() + t =~= t);
        }
    } else {
        assert(ab[0] == a[0]);
        if is_digit(a[0]) {
            lemma_digit_run_concat(a, b);
            lemma_digit_run_bounded(a);
            let n = digit_run(a) as int;
            assert(ab.take(n) =~= a.take(n));
            assert(ab.skip(n) =~= a.skip(n) + b);
            lemma_lex_concat(a.skip(n), b);
            if digits_value(a.take(n)) <= u32::MAX {
                let v = digits_value(a.take(n)) as u32;
                lemma_prepend_assoc(seq![Tokens::Number(v)], Seq::empty(), lex(b));
                match lex(a.skip(n)) {
                    Ok(t) => {
                        lemma_prepend_assoc(seq![Tokens::Number(v)], t, lex(b));
                    },
                    Err(_) => {},
                }
            }
        } else {
            assert(ab.skip(1) =~= a.skip(1) + b);
            lemma_lex_concat(a.skip(1), b);
            if a[0] != ' ' {
                if let Some(tk) = symbol_token(a[0]) {
                    if let Ok(t) = lex(a.skip(1)) {
                        lemma_prepend_assoc(seq![tk], t, lex(b));
                    }
                }
            }
        }
    }
}

proof fn lemma_decimal_digits(v: nat)
    ensures
        decimal(v).len() >= 1,
        forall|i: int| 0 <= i < decimal(v).len() ==> is_digit(#[trigger] decimal(v)[i]),
        digits_value(decimal(v)) == v,
    decreases v,
{
    if v < 10 {
        assert(digit_val(digit_char(v)) == v);
        assert(seq![digit_char(v)].drop_last() =~= Seq::<char>::empty());
        assert(digits_value(Seq::<char>::empty()) == 0);
    } else {
        lemma_decimal_digits(v / 10);
        let d = decimal(v);
        assert(d.drop_last() =~= decimal(v / 10));
        assert(d.last() == digit_char(v % 10));
        assert(digit_val(digit_char(v % 10)) == v % 10);
        assert((v / 10) * 10 + v % 10 == v);
        assert forall|i: int| 0 <= i < d.len() implies is_digit(#[trigger] d[i]) by {
            if i < d.len() - 1 {
                assert(d[i] == decimal(v / 10)[i]);
            }
        }
    }
}

proof fn lemma_lex_token_text(t: Tokens)
    ensures
        lex(token_text(t)) == Ok::<Seq<Tokens>, ExprError>(seq![t]),
{
    let s = token_text(t);
    match t {
        Tokens::Number(v) => {
            lemma_decimal_digits(v as nat);
            assert(is_digit(s[0]));
            lemma_digit_run_exact(s, s.len() as int);
            assert(lex(Seq::<char>::empty()) == Ok::<Seq<Tokens>, ExprError>(Seq::empty()));
            assert(s.take(s.len() as int) =~= s);
            assert(s.skip(s.len() as int) =~= Seq::<char>::empty());
            assert(seq![t] + Seq::<Tokens>::empty() =~= seq![t]);
        },
        _ => {
            assert(s.skip(1) =~= Seq::<char>::empty());
            assert(seq![t] + Seq::<Tokens>::empty() =~= seq![t]);
        },
    }
}

/// Written-out tokens lex back to the same tokens.
pub proof fn lemma_lex_render(ts: Seq<Tokens>)
    ensures
        lex(render(ts)) == Ok::<Seq<Tokens>, ExprError>(ts),
    decreases ts.len(),
{
    if ts.len() == 0 {
        assert(ts =~= Seq::<Tokens>::empty());
        assert(render(ts) =~= Seq::<char>::empty());
    } else if ts.len() == 1 {
        lemma_lex_token_text(ts[0]);
        assert(seq![ts[0]] =~= ts);
    } else {
        let init = ts.drop_last();
        let tail = seq![' '] + token_text(ts.last());
        assert(render(ts) =~= render(init) + tail);
        lemma_lex_render(init);
        lemma_lex_concat(render(init), tail);
        lemma_lex_token_text(ts.last());
        assert(tail[0] == ' ');
        assert(tail.skip(1) =~= token_text(ts.last()));
        assert(lex(tail) == lex(tail.skip(1)));
        assert(lex(render(init) + tail) == lex_join(lex(render(init)), lex(tail)));
        assert(lex_join(lex(render(init)), lex(tail)) == prepend(init, Ok::<Seq<Tokens>, ExprError>(seq![ts.last()])));
        assert(init + seq![ts.last()] =~= ts);
    }
}

/// A value stack paired with an operator stack; an error passes through.
pub open spec fn with_ops(r: Result<Seq<u32>, ExprError>, ops: Seq<char>) -> Result<(Seq<u32>, Seq<char>), ExprError> {
    match r {
        Ok(v) => Ok((v, ops)),
        Err(e) => Err(e),
    }
}

proof fn lemma_rpn_run_push(st: Seq<u32>, a: Seq<Tokens>, t: Tokens)
    ensures
        rpn_run(st, a.push(t)) == match rpn_run(st, a) {
            Ok(s) => rpn_step(s, t),
            Err(e) => Err(e),
        },
    decreases a.len(),
{
    if a.len() == 0 {
        assert(a.push(t).skip(1) =~= Seq::<Tokens>::empty());
        assert(a.push(t)[0] == t);
        if let Ok(s2) = rpn_step(st, t) {
            assert(rpn_run(s2, a.push(t).skip(1)) == Ok::<Seq<u32>, ExprError>(s2));
        }
    } else {
        assert(a.push(t)[0] == a[0]);
        assert(a.push(t).skip(1) =~= a.skip(1).push(t));
        match rpn_step(st, a[0]) {
            Ok(s2) => lemma_rpn_run_push(s2, a.skip(1), t),
            Err(_) => {},
        }
    }
}

proof fn lemma_op_step(v: Seq<u32>, c: char)
    requires
        is_op_char(c),
        c != '^',
    ensures
        rpn_step(v, op_token(c)) == fused_apply(v, c),
{
    assert(op_char_of(op_token(c)) == Some(c));
    if v.len() >= 2 {
        assert(apply_rpn(c, v[v.len() - 2], v[v.len() - 1]) == apply_fused(c, v[v.len() - 2], v[v.len() - 1]));
    }
}

proof fn lemma_plain_ops_drop(ops: Seq<char>)
    requires
        plain_ops(ops),
        ops.len() > 0,
    ensures
        plain_ops(ops.drop_last()),
        ops.last() == '(' || (is_op_char(ops.last()) && ops.last() != '^'),
{
    let d = ops.drop_last();
    assert forall|i: int| 0 <= i < d.len() implies #[trigger] d[i] == '(' || (is_op_char(d[i]) && d[i] != '^') by {
        assert(d[i] == ops[i]);
    }
    assert(ops[ops.len() - 1] == ops.last());
}

proof fn lemma_plain_ops_push(ops: Seq<char>, c: char)
    requires
        plain_ops(ops),
        c == '(' || (is_op_char(c) && c != '^'),
    ensures
        plain_ops(ops.push(c)),
{
    let p = ops.push(c);
    assert forall|i: int| 0 <= i < p.len() implies #[trigger] p[i] == '(' || (is_op_char(p[i]) && p[i] != '^') by {
        if i < ops.len() {
            assert(p[i] == ops[i]);
        }
    }
}

proof fn lemma_no_parens_push_op(out: Seq<Tokens>, c: char)
    requires
        no_parens(out),
    ensures
        no_parens(out.push(op_token(c))),
{
    let p = out.push(op_token(c));
    assert forall|i: int| 0 <= i < p.len() implies #[trigger] p[i] != Tokens::ParenLeft && p[i] != Tokens::ParenRight by {
        if i < out.len() {
            assert(p[i] == out[i]);
        }
    }
}

/// On `)`, applying operators as they leave the stack gives the values of
/// the postfix output that the conversion writes.
proof fn lemma_close_agrees(out: Seq<Tokens>, ops: Seq<char>)
    requires
        plain_ops(ops),
        no_parens(out),
        conv_close(out, ops) is Ok,
    ensures
        ({
            let (o2, s2) = conv_close(out, ops)->Ok_0;
            &&& plain_ops(s2)
            &&& no_parens(o2)
            &&& match rpn_run(Seq::empty(), out) {
                Ok(v) => fused_close(v, ops) == with_ops(rpn_run(Seq::empty(), o2), s2),
                Err(e) => rpn_run(Seq::empty(), o2) == Err::<Seq<u32>, ExprError>(e),
            }
        }),
    decreases ops.len(),
{
    lemma_plain_ops_drop(ops);
    if ops.last() != '(' {
        let c = ops.last();
        let out2 = out.push(op_token(c));
        lemma_no_parens_push_op(out, c);
        lemma_close_agrees(out2, ops.drop_last());
        lemma_rpn_run_push(Seq::empty(), out, op_token(c));
        if let Ok(v) = rpn_run(Seq::empty(), out) {
            lemma_op_step(v, c);
        }
    }
}

/// On an operator, applying operators as they leave the stack gives the
/// values of the postfix output that the conversion writes.
proof fn lemma_yield_agrees(out: Seq<Tokens>, ops: Seq<char>, o1: char)
    requires
        plain_ops(ops),
        no_parens(out),
    ensures
        ({
            let (o2, s2) = conv_yield(out, ops, o1);
            &&& plain_ops(s2)
            &&& no_parens(o2)
            &&& match rpn_run(Seq::empty(), out) {
                Ok(v) => fused_yield(v, ops, o1) == with_ops(rpn_run(Seq::empty(), o2), s2),
                Err(e) => rpn_run(Seq::empty(), o2) == Err::<Seq<u32>, ExprError>(e),
            }
        }),
    decreases ops.len(),
{
    if ops.len() > 0 && crate::operator::yields_to(ops.last(), o1) {
        lemma_plain_ops_drop(ops);
        let c = ops.last();
        let out2 = out.push(op_token(c));
        lemma_no_parens_push_op(out, c);
        lemma_yield_agrees(out2, ops.drop_last(), o1);
        lemma_rpn_run_push(Seq::empty(), out, op_token(c));
        if let Ok(v) = rpn_run(Seq::empty(), out) {
            lemma_op_step(v, c);
        }
    }
}

/// At the end of the input, applying what is left on the stack gives the
/// values of the postfix output that the conversion writes.
proof fn lemma_drain_agrees(out: Seq<Tokens>, ops: Seq<char>)
    requires
        plain_ops(ops),
        no_parens(out),
        conv_drain(out, ops) is Ok,
    ensures
        no_parens(conv_drain(out, ops)->Ok_0),
        match rpn_run(Seq::empty(), out) {
            Ok(v) => fused_drain(v, ops) == rpn_run(Seq::empty(), conv_drain(out, ops)->Ok_0),
            Err(e) => rpn_run(Seq::empty(), conv_drain(out, ops)->Ok_0) == Err::<Seq<u32>, ExprError>(e),
        },
    decreases ops.len(),
{
    if ops.len() > 0 {
        lemma_plain_ops_drop(ops);
        let c = ops.last();
        let out2 = out.push(op_token(c));
        lemma_no_parens_push_op(out, c);
        lemma_drain_agrees(out2, ops.drop_last());
        lemma_rpn_run_push(Seq::empty(), out, op_token(c));
        if let Ok(v) = rpn_run(Seq::empty(), out) {
            lemma_op_step(v, c);
        }
    }
}

/// Over a whole `^`-free token sequence, applying operators as they leave
/// the stack gives the values of the postfix output that the conversion
/// writes.
proof fn lemma_run_agrees(out: Seq<Tokens>, ops: Seq<char>, ts: Seq<Tokens>)
    requires
        plain_ops(ops),
        no_parens(out),
        no_caret(ts),
        conv_run(out, ops, ts) is Ok,
    ensures
        no_parens(conv_run(out, ops, ts)->Ok_0),
        match rpn_run(Seq::empty(), out) {
            Ok(v) => fused_run(v, ops, ts) == rpn_run(Seq::empty(), conv_run(out, ops, ts)->Ok_0),
            Err(e) => rpn_run(Seq::empty(), conv_run(out, ops, ts)->Ok_0) == Err::<Seq<u32>, ExprError>(e),
        },
    decreases ts.len(),
{
    if ts.len() == 0 {
        lemma_drain_agrees(out, ops);
    } else {
        let t = ts[0];
        let rest = ts.skip(1);
        assert(no_caret(rest)) by {
            assert forall|i: int| 0 <= i < rest.len() implies #[trigger] rest[i] != Tokens::Caret by {
                assert(rest[i] == ts[i + 1]);
            }
        };
        assert(t != Tokens::Caret);
        match t {
            Tokens::Number(n) => {
                let out2 = out.push(t);
                assert(no_parens(out2)) by {
                    assert forall|i: int| 0 <= i < out2.len() implies #[trigger] out2[i] != Tokens::ParenLeft && out2[i] != Tokens::ParenRight by {
                        if i < out.len() {
                            assert(out2[i] == out[i]);
                        }
                    }
                };
                lemma_rpn_run_push(Seq::empty(), out, t);
                lemma_run_agrees(out2, ops, rest);
            },
            Tokens::ParenLeft => {
                lemma_plain_ops_push(ops, '(');
                lemma_run_agrees(out, ops.push('('), rest);
            },
            Tokens::ParenRight => {
                lemma_close_agrees(out, ops);
                let (o2, s2) = conv_close(out, ops)->Ok_0;
                lemma_run_agrees(o2, s2, rest);
            },
            _ => {
                let c = op_char_of(t)->Some_0;
                assert(is_op_char(c) && c != '^');
                lemma_yield_agrees(out, ops, c);
                let (o2, s2) = conv_yield(out, ops, c);
                lemma_plain_ops_push(s2, c);
                lemma_run_agrees(o2, s2.push(c), rest);
            },
        }
    }
}

proof fn lemma_lex_no_caret(s: Seq<char>)
    requires
        forall|i: int| 0 <= i < s.len() ==> #[trigger] s[i] != '^',
        lex(s) is Ok,
    ensures
        no_caret(lex(s)->Ok_0),
    decreases s.len(),
{
    if s.len() > 0 {
        let n: int = if is_digit(s[0]) {
            lemma_digit_run_bounded(s);
            digit_run(s) as int
        } else {
            1
        };
        let r = s.skip(n);
        assert forall|i: int| 0 <= i < r.len() implies #[trigger] r[i] != '^' by {
            assert(r[i] == s[i + n]);
        }
        if s[0] != ' ' || is_digit(s[0]) {
            lemma_lex_no_caret(r);
            let p = lex(s)->Ok_0;
            let q = lex(r)->Ok_0;
            assert(p == seq![p[0]] + q);
            assert forall|i: int| 0 <= i < p.len() implies #[trigger] p[i] != Tokens::Caret by {
                if i > 0 {
                    assert(p[i] == q[i - 1]);
                }
            }
        } else {
            lemma_lex_no_caret(r);
        }
    }
}

/// Without `^`, the fused evaluator and the postfix evaluator run on the
/// converted text agree: where `infix_to_rpn(e)` succeeds,
/// `sy_evaulate(e) == evaluate_rpn(infix_to_rpn(e))`, value or error.
pub proof fn lemma_fused_agrees_with_converted(e: Seq<char>)
    requires
        forall|i: int| 0 <= i < e.len() ==> #[trigger] e[i] != '^',
        infix_rpn_text(e) is Ok,
    ensures
        fused_value(e) == rpn_value(infix_rpn_text(e)->Ok_0),
{
    let ts = lex(e)->Ok_0;
    lemma_lex_no_caret(e);
    let out = shunt(ts)->Ok_0;
    assert(rpn_run(Seq::<u32>::empty(), Seq::<Tokens>::empty()) == Ok::<Seq<u32>, ExprError>(Seq::empty()));
    lemma_run_agrees(Seq::empty(), Seq::empty(), ts);
    lemma_lex_render(out);
}

/// The number of `(` on an operator stack.
pub open spec fn open_count(ops: Seq<char>) -> nat
    decreases ops.len(),
{
    if ops.len() == 0 {
        0
    } else {
        open_count(ops.drop_last()) + if ops.last() == '(' { 1nat } else { 0nat }
    }
}

/// Whether, with `d` parentheses open before them, the tokens `ts` close a
/// parenthesis that is not open.
pub open spec fn closes_unopened(d: int, ts: Seq<Tokens>) -> bool
    decreases ts.len(),
{
    if ts.len() == 0 {
        false
    } else if ts[0] == Tokens::ParenLeft {
        closes_unopened(d + 1, ts.skip(1))
    } else if ts[0] == Tokens::ParenRight {
        d <= 0 || closes_unopened(d - 1, ts.skip(1))
    } else {
        closes_unopened(d, ts.skip(1))
    }
}

/// The number of parentheses open after the tokens `ts`, with `d` open
/// before them.
pub open spec fn open_after(d: int, ts: Seq<Tokens>) -> int
    decreases ts.len(),
{
    if ts.len() == 0 {
        d
    } else if ts[0] == Tokens::ParenLeft {
        open_after(d + 1, ts.skip(1))
    } else if ts[0] == Tokens::ParenRight {
        open_after(d - 1, ts.skip(1))
    } else {
        open_after(d, ts.skip(1))
    }
}

proof fn lemma_close_count(out: Seq<Tokens>, ops: Seq<char>)
    ensures
        open_count(ops) == 0 ==> conv_close(out, ops) == Err::<(Seq<Tokens>, Seq<char>), ExprError>(ExprError::StackUnderflow),
        open_count(ops) > 0 ==> conv_close(out, ops) is Ok
            && open_count(conv_close(out, ops)->Ok_0.1) == open_count(ops) - 1,
    decreases ops.len(),
{
    if ops.len() > 0 && ops.last() != '(' {
        lemma_close_count(out.push(op_token(ops.last())), ops.drop_last());
    }
}

proof fn lemma_yield_count(out: Seq<Tokens>, ops: Seq<char>, o1: char)
    ensures
        open_count(conv_yield(out, ops, o1).1) == open_count(ops),
    decreases ops.len(),
{
    if ops.len() > 0 && crate::operator::yields_to(ops.last(), o1) {
        lemma_yield_count(out.push(op_token(ops.last())), ops.drop_last(), o1);
    }
}

proof fn lemma_drain_count(out: Seq<Tokens>, ops: Seq<char>)
    ensures
        open_count(ops) > 0 ==> conv_drain(out, ops) == Err::<Seq<Tokens>, ExprError>(ExprError::UnbalancedParentheses),
        open_count(ops) == 0 ==> conv_drain(out, ops) is Ok,
    decreases ops.len(),
{
    if ops.len() > 0 && ops.last() != '(' {
        lemma_drain_count(out.push(op_token(ops.last())), ops.drop_last());
    }
}

proof fn lemma_run_count(out: Seq<Tokens>, ops: Seq<char>, ts: Seq<Tokens>)
    ensures
        closes_unopened(open_count(ops) as int, ts)
            ==> conv_run(out, ops, ts) == Err::<Seq<Tokens>, ExprError>(ExprError::StackUnderflow),
        !closes_unopened(open_count(ops) as int, ts) && open_after(open_count(ops) as int, ts) > 0
            ==> conv_run(out, ops, ts) == Err::<Seq<Tokens>, ExprError>(ExprError::UnbalancedParentheses),
    decreases ts.len(),
{
    if ts.len() == 0 {
        lemma_drain_count(out, ops);
    } else {
        let t = ts[0];
        let rest = ts.skip(1);
        match t {
            Tokens::Number(_) => {
                lemma_run_count(out.push(t), ops, rest);
            },
            Tokens::ParenLeft => {
                assert(ops.push('(').drop_last() =~= ops);
                lemma_run_count(out, ops.push('('), rest);
            },
            Tokens::ParenRight => {
                lemma_close_count(out, ops);
                if open_count(ops) > 0 {
                    let (o2, s2) = conv_close(out, ops)->Ok_0;
                    lemma_run_count(o2, s2, rest);
                }
            },
            _ => {
                let c = op_char_of(t)->Some_0;
                lemma_yield_count(out, ops, c);
                let (o2, s2) = conv_yield(out, ops, c);
                assert(s2.push(c).drop_last() =~= s2);
                lemma_run_count(o2, s2.push(c), rest);
            },
        }
    }
}

/// A `)` with no `(` open before it makes `infix_to_rpn` fail with
/// `StackUnderflow`; otherwise a `(` left open at the end makes it fail with
/// `UnbalancedParentheses`.
pub proof fn lemma_unmatched_parentheses(e: Seq<char>)
    requires
        lex(e) is Ok,
    ensures
        closes_unopened(0, lex(e)->Ok_0)
            ==> infix_rpn_text(e) == Err::<Seq<char>, ExprError>(ExprError::StackUnderflow),
        !closes_unopened(0, lex(e)->Ok_0) && open_after(0, lex(e)->Ok_0) > 0
            ==> infix_rpn_text(e) == Err::<Seq<char>, ExprError>(ExprError::UnbalancedParentheses),
{
    lemma_run_count(Seq::empty(), Seq::empty(), lex(e)->Ok_0);
}

} // verus!
