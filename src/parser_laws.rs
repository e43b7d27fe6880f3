use vstd::prelude::*;

use crate::ast::{binary, has_precedence, Node, Operator};
use crate::parser::{
    drain, expression, initial_shunt, operand_node, operator_of, reduce, reduce_to_paren,
    reduce_while, shunt_step, shunt_through, stackable, Shunt,
};
use crate::token::{Token, TokenKind};

verus! {

/// An arithmetic expression tree: literals and identifiers at the leaves,
/// binary expressions over `+`, `-`, `*`, `/` and `^` inside.
pub open spec fn arithmetic_tree(n: Node) -> bool
    decreases n,
{
    match n {
        Node::Literal(_) | Node::Identifier(_) => true,
        Node::BinaryExpression(b) => {
            &&& has_precedence(b.operator)
            &&& b.operator != Operator::OpenParen
            &&& arithmetic_tree(*b.left)
            &&& arithmetic_tree(*b.right)
        },
        _ => false,
    }
}

/// How many open-parenthesis markers `ops` holds.
pub open spec fn open_count(ops: Seq<Operator>) -> nat
    decreases ops.len(),
{
    if ops.len() == 0 {
        0
    } else {
        open_count(ops.drop_last()) + if ops.last() == Operator::OpenParen { 1nat } else { 0nat }
    }
}

pub open spec fn all_arithmetic(operands: Seq<Node>) -> bool {
    forall|k: int| 0 <= k < operands.len() ==> arithmetic_tree(#[trigger] operands[k])
}

/// What every state of the shunting-yard keeps: operands are arithmetic
/// trees, and the open parentheses on the operator stack are exactly the
/// ones counted as open.
pub open spec fn shunt_inv(st: Shunt) -> bool {
    &&& all_arithmetic(st.operands)
    &&& stackable(st.operators)
    &&& open_count(st.operators) == st.depth
}

proof fn lemma_reduce(operands: Seq<Node>, op: Operator)
    requires
        all_arithmetic(operands),
        has_precedence(op),
        op != Operator::OpenParen,
    ensures
        reduce(operands, op) matches Some(o) ==> all_arithmetic(o),
{
    let n = operands.len();
    if n >= 2 {
        let o = reduce(operands, op)->0;
        assert(arithmetic_tree(binary(operands[n - 2], op, operands[n - 1])));
        assert forall|k: int| 0 <= k < o.len() implies arithmetic_tree(#[trigger] o[k]) by {
            if k < n - 2 {
                assert(o[k] == operands[k]);
            }
        }
    }
}

proof fn lemma_open_count_push(ops: Seq<Operator>, op: Operator)
    ensures
        open_count(ops.push(op)) == open_count(ops) + if op == Operator::OpenParen { 1nat } else { 0nat },
{
    assert(ops.push(op).drop_last() =~= ops);
}

proof fn lemma_reduce_while(operands: Seq<Node>, ops: Seq<Operator>, p: crate::ast::Precedence)
    requires
        all_arithmetic(operands),
        stackable(ops),
    ensures
        reduce_while(operands, ops, p) matches Some((o, ops2)) ==> {
            &&& all_arithmetic(o)
            &&& stackable(ops2)
            &&& open_count(ops2) == open_count(ops)
        },
    decreases ops.len(),
{
    if !(ops.len() == 0 || ops.last() == Operator::OpenParen || crate::ast::rank(crate::ast::precedence_of(ops.last())) < crate::ast::rank(p)) {
        lemma_reduce(operands, ops.last());
        if let Some(o) = reduce(operands, ops.last()) {
            lemma_reduce_while(o, ops.drop_last(), p);
        }
    }
}

proof fn lemma_reduce_to_paren(operands: Seq<Node>, ops: Seq<Operator>)
    requires
        all_arithmetic(operands),
        stackable(ops),
        open_count(ops) > 0,
    ensures
        reduce_to_paren(operands, ops) matches Some((o, ops2)) ==> {
            &&& all_arithmetic(o)
            &&& stackable(ops2)
            &&& open_count(ops2) + 1 == open_count(ops)
        },
    decreases ops.len(),
{
    if ops.len() > 0 && ops.last() != Operator::OpenParen {
        lemma_reduce(operands, ops.last());
        if let Some(o) = reduce(operands, ops.last()) {
            lemma_reduce_to_paren(o, ops.drop_last());
        }
    }
}

proof fn lemma_drain(operands: Seq<Node>, ops: Seq<Operator>)
    requires
        all_arithmetic(operands),
        stackable(ops),
        open_count(ops) == 0,
    ensures
        drain(operands, ops) matches Some(o) ==> all_arithmetic(o),
    decreases ops.len(),
{
    if ops.len() > 0 {
        lemma_reduce(operands, ops.last());
        if let Some(o) = reduce(operands, ops.last()) {
            lemma_drain(o, ops.drop_last());
        }
    }
}

proof fn lemma_step(st: Shunt, t: Token)
    requires
        shunt_inv(st),
    ensures
        shunt_step(st, t) matches Ok(next) ==> shunt_inv(next),
{
    match t.kind {
        TokenKind::Number | TokenKind::Symbol => {
            let o = st.operands.push(operand_node(t));
            assert forall|k: int| 0 <= k < o.len() implies arithmetic_tree(#[trigger] o[k]) by {
                if k < st.operands.len() {
                    assert(o[k] == st.operands[k]);
                }
            }
        },
        TokenKind::Operator => {
            if let Some(op) = operator_of(t.text@) {
                lemma_reduce_while(st.operands, st.operators, crate::ast::precedence_of(op));
                if let Some((o, ops)) = reduce_while(st.operands, st.operators, crate::ast::precedence_of(op)) {
                    lemma_open_count_push(ops, op);
                    assert(stackable(ops.push(op))) by {
                        assert forall|k: int| 0 <= k < ops.push(op).len() implies has_precedence(#[trigger] ops.push(op)[k]) by {
                            if k < ops.len() {
                                assert(ops.push(op)[k] == ops[k]);
                            }
                        }
                    }
                }
            }
        },
        TokenKind::OpenParen => {
            let ops = st.operators;
            lemma_open_count_push(ops, Operator::OpenParen);
            assert forall|k: int| 0 <= k < ops.push(Operator::OpenParen).len() implies has_precedence(#[trigger] ops.push(Operator::OpenParen)[k]) by {
                if k < ops.len() {
                    assert(ops.push(Operator::OpenParen)[k] == ops[k]);
                }
            }
        },
        TokenKind::CloseParen => {
            if st.depth > 0 {
                lemma_reduce_to_paren(st.operands, st.operators);
            }
        },
        _ => {},
    }
}

proof fn lemma_shunt_through(ts: Seq<Token>, n: nat)
    ensures
        shunt_through(ts, n) matches Ok(st) ==> shunt_inv(st),
    decreases n,
{
    if n == 0 {
        assert(open_count(initial_shunt().operators) == 0);
    } else {
        lemma_shunt_through(ts, (n - 1) as nat);
        if let Ok(st) = shunt_through(ts, (n - 1) as nat) {
            lemma_step(st, ts[n - 1]);
        }
    }
}

/// A parsed expression is an arithmetic tree: literals and identifiers at
/// the leaves, every inner node a binary expression with two children and
/// one of `+`, `-`, `*`, `/`, `^`. The open-parenthesis marker of the
/// operator stack never reaches the tree.
pub proof fn lemma_expression_is_arithmetic_tree(ts: Seq<Token>, end: Token)
    ensures
        expression(ts, end) matches Ok(n) ==> arithmetic_tree(n),
{
    lemma_shunt_through(ts, ts.len());
    if let Ok(st) = shunt_through(ts, ts.len()) {
        if !st.expect_operand && st.depth == 0 {
            lemma_drain(st.operands, st.operators);
        }
    }
}

/// The leaves of an expression tree, left to right.
pub open spec fn leaves(n: Node) -> Seq<Node>
    decreases n,
{
    match n {
        Node::BinaryExpression(b) => leaves(*b.left) + leaves(*b.right),
        _ => seq![n],
    }
}

/// The leaves of the operand stack, bottom to top.
pub open spec fn stack_leaves(operands: Seq<Node>) -> Seq<Node>
    decreases operands.len(),
{
    if operands.len() == 0 {
        seq![]
    } else {
        stack_leaves(operands.drop_last()) + leaves(operands.last())
    }
}

/// The operand tokens of `ts`, as nodes, in order.
pub open spec fn operand_leaves(ts: Seq<Token>) -> Seq<Node>
    decreases ts.len(),
{
    if ts.len() == 0 {
        seq![]
    } else {
        operand_leaves(ts.drop_last()) + if ts.last().kind == TokenKind::Number || ts.last().kind == TokenKind::Symbol {
            seq![operand_node(ts.last())]
        } else {
            seq![]
        }
    }
}

/// How many operators other than the open-parenthesis marker `ops` holds.
pub open spec fn operator_count(ops: Seq<Operator>) -> nat
    decreases ops.len(),
{
    if ops.len() == 0 {
        0
    } else {
        operator_count(ops.drop_last()) + if ops.last() == Operator::OpenParen { 0nat } else { 1nat }
    }
}

/// No more operands than the operators on the stack can consume.
pub open spec fn operand_bound(st: Shunt) -> bool {
    st.operands.len() <= operator_count(st.operators) + if st.expect_operand { 0nat } else { 1nat }
}

proof fn lemma_stack_leaves_push(operands: Seq<Node>, n: Node)
    ensures
        stack_leaves(operands.push(n)) == stack_leaves(operands) + leaves(n),
{
    assert(operands.push(n).drop_last() =~= operands);
}

proof fn lemma_operator_count_push(ops: Seq<Operator>, op: Operator)
    ensures
        operator_count(ops.push(op)) == operator_count(ops) + if op == Operator::OpenParen { 0nat } else { 1nat },
{
    assert(ops.push(op).drop_last() =~= ops);
}

proof fn lemma_reduce_leaves(operands: Seq<Node>, op: Operator)
    ensures
        reduce(operands, op) matches Some(o) ==> {
            &&& stack_leaves(o) == stack_leaves(operands)
            &&& o.len() + 1 == operands.len()
        },
{
    let n = operands.len();
    if n >= 2 {
        let rest = operands.subrange(0, n - 2);
        let a = operands[n - 2];
        let b = operands[n - 1];
        assert(operands =~= rest.push(a).push(b));
        lemma_stack_leaves_push(rest.push(a), b);
        lemma_stack_leaves_push(rest, a);
        lemma_stack_leaves_push(rest, binary(a, op, b));
        assert(leaves(binary(a, op, b)) == leaves(a) + leaves(b));
        assert(stack_leaves(rest) + leaves(a) + leaves(b) =~= stack_leaves(rest) + (leaves(a) + leaves(b)));
    }
}

proof fn lemma_reduce_while_leaves(operands: Seq<Node>, ops: Seq<Operator>, p: crate::ast::Precedence)
    ensures
        reduce_while(operands, ops, p) matches Some((o, ops2)) ==> {
            &&& stack_leaves(o) == stack_leaves(operands)
            &&& o.len() + operator_count(ops) == operands.len() + operator_count(ops2)
            &&& open_count(ops2) == open_count(ops)
            &&& operator_count(ops2) <= operator_count(ops)
        },
    decreases ops.len(),
{
    if !(ops.len() == 0 || ops.last() == Operator::OpenParen || crate::ast::rank(crate::ast::precedence_of(ops.last())) < crate::ast::rank(p)) {
        lemma_reduce_leaves(operands, ops.last());
        if let Some(o) = reduce(operands, ops.last()) {
            lemma_reduce_while_leaves(o, ops.drop_last(), p);
        }
    }
}

proof fn lemma_reduce_to_paren_leaves(operands: Seq<Node>, ops: Seq<Operator>)
    ensures
        reduce_to_paren(operands, ops) matches Some((o, ops2)) ==> {
            &&& stack_leaves(o) == stack_leaves(operands)
            &&& o.len() + operator_count(ops) == operands.len() + operator_count(ops2)
            &&& operator_count(ops2) <= operator_count(ops)
        },
    decreases ops.len(),
{
    if ops.len() > 0 && ops.last() != Operator::OpenParen {
        lemma_reduce_leaves(operands, ops.last());
        if let Some(o) = reduce(operands, ops.last()) {
            lemma_reduce_to_paren_leaves(o, ops.drop_last());
        }
    }
}

proof fn lemma_drain_leaves(operands: Seq<Node>, ops: Seq<Operator>)
    requires
        open_count(ops) == 0,
    ensures
        drain(operands, ops) matches Some(o) ==> {
            &&& stack_leaves(o) == stack_leaves(operands)
            &&& o.len() + operator_count(ops) == operands.len()
        },
    decreases ops.len(),
{
    if ops.len() > 0 {
        lemma_reduce_leaves(operands, ops.last());
        if let Some(o) = reduce(operands, ops.last()) {
            lemma_drain_leaves(o, ops.drop_last());
        }
    }
}

proof fn lemma_step_leaves(st: Shunt, t: Token)
    requires
        operand_bound(st),
    ensures
        shunt_step(st, t) matches Ok(next) ==> {
            &&& operand_bound(next)
            &&& stack_leaves(next.operands) == stack_leaves(st.operands) + if t.kind == TokenKind::Number || t.kind == TokenKind::Symbol {
                seq![operand_node(t)]
            } else {
                seq![]
            }
        },
{
    match t.kind {
        TokenKind::Number | TokenKind::Symbol => {
            lemma_stack_leaves_push(st.operands, operand_node(t));
        },
        TokenKind::Operator => {
            if let Some(op) = operator_of(t.text@) {
                lemma_reduce_while_leaves(st.operands, st.operators, crate::ast::precedence_of(op));
                if let Some((o, ops)) = reduce_while(st.operands, st.operators, crate::ast::precedence_of(op)) {
                    lemma_operator_count_push(ops, op);
                }
            }
            assert(stack_leaves(st.operands) + seq![] =~= stack_leaves(st.operands));
        },
        TokenKind::OpenParen => {
            lemma_operator_count_push(st.operators, Operator::OpenParen);
            assert(stack_leaves(st.operands) + seq![] =~= stack_leaves(st.operands));
        },
        TokenKind::CloseParen => {
            lemma_reduce_to_paren_leaves(st.operands, st.operators);
            assert(stack_leaves(st.operands) + seq![] =~= stack_leaves(st.operands));
        },
        _ => {},
    }
}

proof fn lemma_shunt_through_leaves(ts: Seq<Token>, n: nat)
    requires
        n <= ts.len(),
    ensures
        shunt_through(ts, n) matches Ok(st) ==> {
            &&& operand_bound(st)
            &&& stack_leaves(st.operands) == operand_leaves(ts.take(n as int))
        },
    decreases n,
{
    if n == 0 {
        assert(ts.take(0) =~= seq![]);
    } else {
        lemma_shunt_through_leaves(ts, (n - 1) as nat);
        assert(ts.take(n as int).drop_last() =~= ts.take(n - 1));
        if let Ok(st) = shunt_through(ts, (n - 1) as nat) {
            lemma_step_leaves(st, ts[n - 1]);
        }
    }
}

/// Parsing an expression keeps its operands: the leaves of the tree, left
/// to right, are the number and symbol tokens of the expression in source
/// order, as literals and identifiers; none is lost, repeated or moved.
pub proof fn lemma_expression_keeps_operands(ts: Seq<Token>, end: Token)
    ensures
        expression(ts, end) matches Ok(n) ==> leaves(n) == operand_leaves(ts),
{
    lemma_shunt_through_leaves(ts, ts.len());
    lemma_shunt_through(ts, ts.len());
    assert(ts.take(ts.len() as int) =~= ts);
    if let Ok(st) = shunt_through(ts, ts.len()) {
        if !st.expect_operand && st.depth == 0 {
            lemma_drain_leaves(st.operands, st.operators);
            if let Some(o) = drain(st.operands, st.operators) {
                if o.len() > 0 {
                    assert(o.len() == 1);
                    assert(o.drop_last() =~= seq![]);
                    assert(stack_leaves(o.drop_last()) == Seq::<Node>::empty());
                    assert(stack_leaves(o) =~= leaves(o.last()));
                }
            }
        }
    }
}

} // verus!
