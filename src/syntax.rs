use vstd::prelude::*;
use crate::arith::apply_rpn;
use crate::error::ExprError;
use crate::laws::lemma_lex_render;
use crate::operator::{is_op_char, prec_of};
use crate::rpn::{rpn_run, rpn_step, rpn_value};
use crate::shunting::{conv_close, conv_run, conv_yield, infix_rpn_text, op_token, shunt};
use crate::tokenizer::{lex, op_char_of, Tokens};

verus! {

/// The syntax tree of an infix expression: a number, a parenthesised
/// expression, or a binary operator with its two operands.
pub enum Expr {
    Num(u32),
    Paren(Box<Expr>),
    Bin(char, Box<Expr>, Box<Expr>),
}

/// How tightly the expression binds at its root: a number or a parenthesised
/// expression binds tighter than any operator.
pub open spec fn root_prec(e: Expr) -> int {
    match e {
        Expr::Bin(op, _, _) => prec_of(op),
        _ => 5,
    }
}

/// The tree is the one that precedence and left associativity give to its
/// own text: operators are among `+ - * /`, a left operand binds at least as
/// tightly as its operator and a right operand binds strictly tighter.
pub open spec fn well_formed(e: Expr) -> bool
    decreases e,
{
    match e {
        Expr::Num(_) => true,
        Expr::Paren(x) => well_formed(*x),
        Expr::Bin(op, l, r) => {
            &&& is_op_char(op)
            &&& op != '^'
            &&& well_formed(*l)
            &&& well_formed(*r)
            &&& root_prec(*l) >= prec_of(op)
            &&& root_prec(*r) > prec_of(op)
        },
    }
}

/// The infix tokens of the tree.
pub open spec fn infix_tokens(e: Expr) -> Seq<Tokens>
    decreases e,
{
    match e {
        Expr::Num(v) => seq![Tokens::Number(v)],
        Expr::Paren(x) => seq![Tokens::ParenLeft] + infix_tokens(*x) + seq![Tokens::ParenRight],
        Expr::Bin(op, l, r) => infix_tokens(*l) + seq![op_token(op)] + infix_tokens(*r),
    }
}

/// The postfix tokens of the tree: operands first, then the operator.
pub open spec fn postfix_tokens(e: Expr) -> Seq<Tokens>
    decreases e,
{
    match e {
        Expr::Num(v) => seq![Tokens::Number(v)],
        Expr::Paren(x) => postfix_tokens(*x),
        Expr::Bin(op, l, r) => postfix_tokens(*l) + postfix_tokens(*r) + seq![op_token(op)],
    }
}

/// The value of the tree, evaluated directly: the left operand, then the
/// right one, then the operator (with the postfix evaluator's arithmetic).
pub open spec fn eval(e: Expr) -> Result<u32, ExprError>
    decreases e,
{
    match e {
        Expr::Num(v) => Ok(v),
        Expr::Paren(x) => eval(*x),
        Expr::Bin(op, l, r) => match eval(*l) {
            Ok(a) => match eval(*r) {
                Ok(b) => apply_rpn(op, a, b),
                Err(err) => Err(err),
            },
            Err(err) => Err(err),
        },
    }
}

/// The operator stack does not give way to an operator that binds at `p` or
/// looser.
pub open spec fn stack_below(ops: Seq<char>, p: int) -> bool {
    ops.len() == 0 || ops.last() == '(' || prec_of(ops.last()) < p
}

/// What follows an operand ends it: nothing, a `)`, or an operator other
/// than `^` that binds at `p` or looser.
pub open spec fn ends_operand(rest: Seq<Tokens>, p: int) -> bool {
    rest.len() == 0 || rest[0] == Tokens::ParenRight || (op_char_of(rest[0]) matches Some(c) && c != '^'
        && prec_of(c) <= p)
}

proof fn lemma_pop_pending(out: Seq<Tokens>, ops: Seq<char>, op: char, rest: Seq<Tokens>)
    requires
        is_op_char(op),
        op != '^',
        ends_operand(rest, prec_of(op)),
    ensures
        conv_run(out, ops.push(op), rest) == conv_run(out.push(op_token(op)), ops, rest),
{
    let s = ops.push(op);
    assert(s.drop_last() =~= ops);
    assert(s.last() == op);
    if rest.len() == 0 {
    } else if rest[0] == Tokens::ParenRight {
        assert(conv_close(out, s) == conv_close(out.push(op_token(op)), ops));
    } else {
        let c = op_char_of(rest[0])->Some_0;
        assert(conv_yield(out, s, c) == conv_yield(out.push(op_token(op)), ops, c));
    }
}

proof fn lemma_shunt_tree(e: Expr, out: Seq<Tokens>, ops: Seq<char>, rest: Seq<Tokens>)
    requires
        well_formed(e),
        stack_below(ops, root_prec(e)),
        ends_operand(rest, root_prec(e)),
    ensures
        conv_run(out, ops, infix_tokens(e) + rest) == conv_run(out + postfix_tokens(e), ops, rest),
    decreases e,
{
    match e {
        Expr::Num(v) => {
            let ts = infix_tokens(e) + rest;
            assert(ts[0] == Tokens::Number(v));
            assert(ts.skip(1) =~= rest);
            assert(out.push(Tokens::Number(v)) =~= out + postfix_tokens(e));
        },
        Expr::Paren(x) => {
            let ts = infix_tokens(e) + rest;
            let inner = seq![Tokens::ParenRight] + rest;
            assert(ts[0] == Tokens::ParenLeft);
            assert(ts.skip(1) =~= infix_tokens(*x) + inner);
            lemma_shunt_tree(*x, out, ops.push('('), inner);
            let o2 = out + postfix_tokens(*x);
            assert(inner[0] == Tokens::ParenRight);
            assert(inner.skip(1) =~= rest);
            assert(ops.push('(').drop_last() =~= ops);
            assert(conv_close(o2, ops.push('(')) == Ok::<(Seq<Tokens>, Seq<char>), ExprError>((o2, ops)));
        },
        Expr::Bin(op, l, r) => {
            let ts = infix_tokens(e) + rest;
            let after_l = seq![op_token(op)] + (infix_tokens(*r) + rest);
            assert(ts =~= infix_tokens(*l) + after_l);
            assert(op_char_of(op_token(op)) == Some(op));
            assert(after_l[0] == op_token(op));
            lemma_shunt_tree(*l, out, ops, after_l);
            let o1 = out + postfix_tokens(*l);
            assert(conv_yield(o1, ops, op) == (o1, ops));
            assert(after_l.skip(1) =~= infix_tokens(*r) + rest);
            lemma_shunt_tree(*r, o1, ops.push(op), rest);
            let o2 = o1 + postfix_tokens(*r);
            lemma_pop_pending(o2, ops, op, rest);
            assert(o2.push(op_token(op)) =~= out + postfix_tokens(e));
        },
    }
}

proof fn lemma_rpn_run_concat(st: Seq<u32>, a: Seq<Tokens>, b: Seq<Tokens>)
    ensures
        rpn_run(st, a + b) == match rpn_run(st, a) {
            Ok(s) => rpn_run(s, b),
            Err(err) => Err(err),
        },
    decreases a.len(),
{
    if a.len() == 0 {
        assert(a + b =~= b);
    } else {
        assert((a + b)[0] == a[0]);
        assert((a + b).skip(1) =~= a.skip(1) + b);
        if let Ok(s2) = rpn_step(st, a[0]) {
            lemma_rpn_run_concat(s2, a.skip(1), b);
        }
    }
}

proof fn lemma_rpn_tree(e: Expr, st: Seq<u32>)
    requires
        well_formed(e),
    ensures
        rpn_run(st, postfix_tokens(e)) == match eval(e) {
            Ok(v) => Ok(st.push(v)),
            Err(err) => Err::<Seq<u32>, ExprError>(err),
        },
    decreases e,
{
    match e {
        Expr::Num(v) => {
            let p = postfix_tokens(e);
            assert(p[0] == Tokens::Number(v));
            assert(p.skip(1) =~= Seq::<Tokens>::empty());
            assert(rpn_run(st.push(v), p.skip(1)) == Ok::<Seq<u32>, ExprError>(st.push(v)));
        },
        Expr::Paren(x) => {
            lemma_rpn_tree(*x, st);
        },
        Expr::Bin(op, l, r) => {
            let pl = postfix_tokens(*l);
            let pr = postfix_tokens(*r);
            let t = seq![op_token(op)];
            assert(postfix_tokens(e) == pl + pr + t);
            lemma_rpn_run_concat(st, pl + pr, t);
            lemma_rpn_run_concat(st, pl, pr);
            lemma_rpn_tree(*l, st);
            if let Ok(a) = eval(*l) {
                lemma_rpn_tree(*r, st.push(a));
                if let Ok(b) = eval(*r) {
                    let s2 = st.push(a).push(b);
                    assert(op_char_of(op_token(op)) == Some(op));
                    assert(s2.drop_last().drop_last() =~= st);
                    assert(t[0] == op_token(op));
                    assert(t.skip(1) =~= Seq::<Tokens>::empty());
                    if let Ok(x) = rpn_step(s2, op_token(op)) {
                        assert(rpn_run(x, t.skip(1)) == Ok::<Seq<u32>, ExprError>(x));
                    }
                }
            }
        },
    }
}

/// Converting the text of a well-formed expression without `^` and
/// evaluating the postfix result gives the value of its syntax tree:
/// `evaluate_rpn(infix_to_rpn(s))` is the direct evaluation of `s` by
/// precedence and left-to-right grouping.
pub proof fn lemma_round_trip(e: Expr, s: Seq<char>)
    requires
        well_formed(e),
        lex(s) == Ok::<Seq<Tokens>, ExprError>(infix_tokens(e)),
    ensures
        infix_rpn_text(s) is Ok,
        rpn_value(infix_rpn_text(s)->Ok_0) == eval(e),
{
    let ts = infix_tokens(e);
    assert(ts + Seq::<Tokens>::empty() =~= ts);
    lemma_shunt_tree(e, Seq::empty(), Seq::empty(), Seq::empty());
    let pf = postfix_tokens(e);
    assert(Seq::<Tokens>::empty() + pf =~= pf);
    assert(shunt(ts) == Ok::<Seq<Tokens>, ExprError>(pf));
    lemma_lex_render(pf);
    lemma_rpn_tree(e, Seq::empty());
}

} // verus!
