//! Constant folding: an optional rewrite of the syntax tree before it is
//! lowered.
//!
//! A binary operation on two literals becomes the literal of its result, an
//! `if` whose condition is a boolean literal becomes the statements of the
//! branch taken, and a `while` whose condition is `false` disappears. What
//! may call a function is never dropped.

use crate::ast::{
    block_view, clone_expression, clone_statement, clone_type, BinaryOp, Expr, Expression,
    Statement, Stmt,
};
use vstd::prelude::*;
use vstd::wrapping::i64_specs;

verus! {

/// The operation `op` on `left` and `right`: the literal of its result
/// where both are literals that the operation takes, with sums, differences
/// and products wrapping to 64 bits, and the operation itself otherwise.
/// Shifts are left alone.
pub open spec fn fold_binary(op: BinaryOp, left: Expr, right: Expr) -> Expr {
    match (op, left, right) {
        (BinaryOp::Add, Expr::CInt(i), Expr::CInt(j)) => Expr::CInt(i64_specs::wrapping_add(i, j)),
        (BinaryOp::Sub, Expr::CInt(i), Expr::CInt(j)) => Expr::CInt(i64_specs::wrapping_sub(i, j)),
        (BinaryOp::Mul, Expr::CInt(i), Expr::CInt(j)) => Expr::CInt(i64_specs::wrapping_mul(i, j)),
        (BinaryOp::IAnd, Expr::CInt(i), Expr::CInt(j)) => Expr::CInt(i & j),
        (BinaryOp::IOr, Expr::CInt(i), Expr::CInt(j)) => Expr::CInt(i | j),
        (BinaryOp::Eq, Expr::CInt(i), Expr::CInt(j)) => Expr::CBool(i == j),
        (BinaryOp::Neq, Expr::CInt(i), Expr::CInt(j)) => Expr::CBool(i != j),
        (BinaryOp::Lt, Expr::CInt(i), Expr::CInt(j)) => Expr::CBool(i < j),
        (BinaryOp::Lte, Expr::CInt(i), Expr::CInt(j)) => Expr::CBool(i <= j),
        (BinaryOp::Gt, Expr::CInt(i), Expr::CInt(j)) => Expr::CBool(i > j),
        (BinaryOp::Gte, Expr::CInt(i), Expr::CInt(j)) => Expr::CBool(i >= j),
        (BinaryOp::Eq, Expr::CBool(a), Expr::CBool(b)) => Expr::CBool(a == b),
        (BinaryOp::Neq, Expr::CBool(a), Expr::CBool(b)) => Expr::CBool(a != b),
        (BinaryOp::And, Expr::CBool(a), Expr::CBool(b)) => Expr::CBool(a && b),
        (BinaryOp::Or, Expr::CBool(a), Expr::CBool(b)) => Expr::CBool(a || b),
        _ => Expr::Binary { op, left: Box::new(left), right: Box::new(right) },
    }
}

/// The expression after folding: binary operations are folded from the
/// leaves up, and so are the elements of an array literal. Every other
/// expression stays as it is.
pub open spec fn folded(e: Expr) -> Expr
    decreases e,
{
    match e {
        Expr::Binary { op, left, right } => fold_binary(op, folded(*left), folded(*right)),
        Expr::CArr(t, elements) => Expr::CArr(
            t,
            Seq::new(
                elements.len(),
                |i: int|
                    if 0 <= i < elements.len() {
                        folded(elements[i])
                    } else {
                        Expr::CBool(false)
                    },
            ),
        ),
        _ => e,
    }
}

/// The statements that a statement becomes by folding.
pub open spec fn folded_statement(s: Stmt) -> Seq<Stmt>
    decreases s, 0nat,
{
    match s {
        Stmt::Assignment(target, value) => seq![Stmt::Assignment(folded(target), folded(value))],
        Stmt::Declaration(name, init) => seq![Stmt::Declaration(name, folded(init))],
        Stmt::If { condition, then, else_ } => match folded(condition) {
            Expr::CBool(true) => folded_block(then, 0, Seq::empty()),
            Expr::CBool(false) => folded_block(else_, 0, Seq::empty()),
            c => seq![
                Stmt::If {
                    condition: c,
                    then: folded_block(then, 0, Seq::empty()),
                    else_: folded_block(else_, 0, Seq::empty()),
                },
            ],
        },
        Stmt::While { condition, body } => match folded(condition) {
            Expr::CBool(false) => Seq::empty(),
            c => seq![Stmt::While { condition: c, body: folded_block(body, 0, Seq::empty()) }],
        },
        _ => seq![s],
    }
}

/// The statements `acc`, followed by what the statements of `block` from
/// position `i` on become by folding.
pub open spec fn folded_block(block: Seq<Stmt>, i: nat, acc: Seq<Stmt>) -> Seq<Stmt>
    decreases block, block.len() - i,
{
    if i >= block.len() {
        acc
    } else {
        folded_block(block, i + 1, acc + folded_statement(block[i as int]))
    }
}

/// Folds an operation on two folded operands.
fn fold_operation(op: BinaryOp, left: Expression, right: Expression) -> (r: Expression)
    ensures
        r@ == fold_binary(op, left@, right@),
{
    match (op, &left, &right) {
        (BinaryOp::Add, Expression::CInt(i), Expression::CInt(j)) => Expression::CInt(
            i.wrapping_add(*j),
        ),
        (BinaryOp::Sub, Expression::CInt(i), Expression::CInt(j)) => Expression::CInt(
            i.wrapping_sub(*j),
        ),
        (BinaryOp::Mul, Expression::CInt(i), Expression::CInt(j)) => Expression::CInt(
            i.wrapping_mul(*j),
        ),
        (BinaryOp::IAnd, Expression::CInt(i), Expression::CInt(j)) => Expression::CInt(*i & *j),
        (BinaryOp::IOr, Expression::CInt(i), Expression::CInt(j)) => Expression::CInt(*i | *j),
        (BinaryOp::Eq, Expression::CInt(i), Expression::CInt(j)) => Expression::CBool(*i == *j),
        (BinaryOp::Neq, Expression::CInt(i), Expression::CInt(j)) => Expression::CBool(*i != *j),
        (BinaryOp::Lt, Expression::CInt(i), Expression::CInt(j)) => Expression::CBool(*i < *j),
        (BinaryOp::Lte, Expression::CInt(i), Expression::CInt(j)) => Expression::CBool(*i <= *j),
        (BinaryOp::Gt, Expression::CInt(i), Expression::CInt(j)) => Expression::CBool(*i > *j),
        (BinaryOp::Gte, Expression::CInt(i), Expression::CInt(j)) => Expression::CBool(*i >= *j),
        (BinaryOp::Eq, Expression::CBool(a), Expression::CBool(b)) => Expression::CBool(*a == *b),
        (BinaryOp::Neq, Expression::CBool(a), Expression::CBool(b)) => Expression::CBool(*a != *b),
        (BinaryOp::And, Expression::CBool(a), Expression::CBool(b)) => Expression::CBool(*a && *b),
        (BinaryOp::Or, Expression::CBool(a), Expression::CBool(b)) => Expression::CBool(*a || *b),
        _ => Expression::Binary { op, left: Box::new(left), right: Box::new(right) },
    }
}

/// Folds the constants of an expression.
pub fn constant_fold_expression(e: &Expression) -> (r: Expression)
    ensures
        r@ == folded(e@),
    decreases e,
{
    match e {
        Expression::Binary { op, left, right } => {
            let left = constant_fold_expression(left);
            let right = constant_fold_expression(right);
            fold_operation(*op, left, right)
        },
        Expression::CArr(t, elements) => {
            let mut results: Vec<Expression> = Vec::new();
            let mut i: usize = 0;
            while i < elements.len()
                invariant
                    i <= elements.len(),
                    *e == Expression::CArr(*t, *elements),
                    results@.len() == i,
                    forall|j: int| 0 <= j < i ==> results@[j]@ == folded(elements@[j]@),
                decreases elements.len() - i,
            {
                assert(decreases_to!(e => e->CArr_1[i as int]));
                results.push(constant_fold_expression(&elements[i]));
                i += 1;
            }
            let r = Expression::CArr(clone_type(t), results);
            assert(r@->CArr_1 =~= folded(e@)->CArr_1);
            r
        },
        _ => clone_expression(e),
    }
}

/// Folds the constants of a block: the statements that its statements
/// become, in order.
pub fn compile_body(body: &Vec<Statement>) -> (r: Vec<Statement>)
    ensures
        block_view(r@) == folded_block(block_view(body@), 0, Seq::empty()),
    decreases body, 1nat,
{
    let ghost stmts = block_view(body@);
    let mut results: Vec<Statement> = Vec::new();
    assert(block_view(results@) =~= Seq::empty());
    let mut i: usize = 0;
    while i < body.len()
        invariant
            i <= body.len(),
            stmts == block_view(body@),
            folded_block(stmts, 0, Seq::empty()) == folded_block(stmts, i as nat, block_view(results@)),
        decreases body.len() - i,
    {
        assert(decreases_to!(*body => body[i as int]));
        let mut part = constant_fold_statement(&body[i]);
        let ghost before = block_view(results@);
        let ghost added = block_view(part@);
        results.append(&mut part);
        assert(block_view(results@) =~= before + added);
        i += 1;
    }
    results
}

/// The `if` statement with the parts given.
fn if_statement(condition: Expression, then: Vec<Statement>, else_: Vec<Statement>) -> (s: Statement)
    ensures
        s@ == (Stmt::If { condition: condition@, then: block_view(then@), else_: block_view(else_@) }),
{
    let ghost tv = block_view(then@);
    let ghost ev = block_view(else_@);
    let s = Statement::If { condition, then, else_ };
    assert(s@->If_then =~= tv);
    assert(s@->If_else_ =~= ev);
    s
}

/// The `while` statement with the parts given.
fn while_statement(condition: Expression, body: Vec<Statement>) -> (s: Statement)
    ensures
        s@ == (Stmt::While { condition: condition@, body: block_view(body@) }),
{
    let ghost bv = block_view(body@);
    let s = Statement::While { condition, body };
    assert(s@->While_body =~= bv);
    s
}

/// One statement as a block.
fn single(s: Statement) -> (r: Vec<Statement>)
    ensures
        block_view(r@) == seq![s@],
{
    let mut r: Vec<Statement> = Vec::new();
    r.push(s);
    assert(block_view(r@) =~= seq![s@]);
    r
}

/// Folds the constants of a statement. Returns the statements that it
/// becomes: none, one, or those of a branch.
pub fn constant_fold_statement(statement: &Statement) -> (r: Vec<Statement>)
    ensures
        block_view(r@) == folded_statement(statement@),
    decreases statement, 0nat,
{
    match statement {
        Statement::Assignment(target, value) => {
            let target = constant_fold_expression(target);
            let value = constant_fold_expression(value);
            single(Statement::Assignment(target, value))
        },
        Statement::Declaration(name, value) => {
            let value = constant_fold_expression(value);
            single(Statement::Declaration(*name, value))
        },
        Statement::If { condition, then, else_ } => {
            assert(statement@->If_then =~= block_view(then@));
            assert(statement@->If_else_ =~= block_view(else_@));
            assert(decreases_to!(statement => statement->If_then));
            assert(decreases_to!(statement => statement->If_else_));
            let condition = constant_fold_expression(condition);
            match condition {
                Expression::CBool(true) => compile_body(then),
                Expression::CBool(false) => compile_body(else_),
                c => single(if_statement(c, compile_body(then), compile_body(else_))),
            }
        },
        Statement::While { condition, body } => {
            assert(statement@->While_body =~= block_view(body@));
            assert(decreases_to!(statement => statement->While_body));
            let condition = constant_fold_expression(condition);
            match condition {
                Expression::CBool(false) => {
                    let r: Vec<Statement> = Vec::new();
                    assert(block_view(r@) =~= Seq::empty());
                    r
                },
                c => single(while_statement(c, compile_body(body))),
            }
        },
        _ => single(clone_statement(statement)),
    }
}

} // verus!
