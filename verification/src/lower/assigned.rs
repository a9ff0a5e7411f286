//! The names that statements assign to.

use crate::ast::{Block, Callee, Expr, ExprKind, ForRange, Stmt};
use crate::text::{names_of, Name};
use vstd::prelude::*;

verus! {

/// The names assigned to inside an expression, in source order.
pub open spec fn assigned_in_expr(e: Expr) -> Seq<Name>
    decreases e, 0nat, 0nat,
{
    match e.kind {
        ExprKind::Literal(_) => Seq::empty(),
        ExprKind::Call { callee, args } => match callee {
            Callee::Name(_) => assigned_in_pairs(args@, args@.len()),
            Callee::Method { receiver, .. } => assigned_in_expr(*receiver) + assigned_in_pairs(
                args@,
                args@.len(),
            ),
        },
        ExprKind::Transaction { body } => assigned_in_block(body),
        ExprKind::TupleLit { fields } => assigned_in_pairs(fields@, fields@.len()),
        ExprKind::RelationLit { tuples } => assigned_in_tuples(tuples@, tuples@.len()),
        ExprKind::SequenceLit { elements } => assigned_in_exprs(elements@, elements@.len()),
        ExprKind::FieldAccess { base, .. } => assigned_in_expr(*base),
        ExprKind::BoolLit(_) => Seq::empty(),
        ExprKind::Binary { lhs, rhs, .. } => assigned_in_expr(*lhs) + assigned_in_expr(*rhs),
        ExprKind::Extract { operand } => assigned_in_expr(*operand),
        ExprKind::Project { input, .. } => assigned_in_expr(*input),
        ExprKind::Replace { input, pairs } => assigned_in_expr(*input) + assigned_in_pairs(
            pairs@,
            pairs@.len(),
        ),
        ExprKind::Rename { input, .. } => assigned_in_expr(*input),
        ExprKind::Wrap { input, .. } => assigned_in_expr(*input),
        ExprKind::Unwrap { input, .. } => assigned_in_expr(*input),
        ExprKind::Extend { input, pairs } => assigned_in_expr(*input) + assigned_in_pairs(
            pairs@,
            pairs@.len(),
        ),
        ExprKind::Tclose { input, .. } => assigned_in_expr(*input),
        ExprKind::Index { sequence, index } => assigned_in_expr(*sequence) + assigned_in_expr(
            *index,
        ),
        ExprKind::If { condition, then_body, else_body } => match else_body {
            Some(b) => assigned_in_expr(*condition) + assigned_in_block(then_body)
                + assigned_in_block(b),
            None => assigned_in_expr(*condition) + assigned_in_block(then_body),
        },
        ExprKind::NameRef(_) => Seq::empty(),
    }
}

/// The names assigned to inside the first `n` expressions.
pub open spec fn assigned_in_exprs(es: Seq<Expr>, n: nat) -> Seq<Name>
    decreases es, 0nat, n,
{
    if n == 0 || n > es.len() {
        Seq::empty()
    } else {
        assigned_in_exprs(es, (n - 1) as nat) + assigned_in_expr(es[n - 1])
    }
}

/// The names assigned to inside the first `n` named expressions.
pub open spec fn assigned_in_pairs(pairs: Seq<(String, Expr)>, n: nat) -> Seq<Name>
    decreases pairs, 0nat, n,
{
    if n == 0 || n > pairs.len() {
        Seq::empty()
    } else {
        proof {
            assert(decreases_to!(pairs => pairs[n - 1]));
            assert(decreases_to!(pairs[n - 1] => pairs[n - 1].1));
        }
        assigned_in_pairs(pairs, (n - 1) as nat) + assigned_in_expr(pairs[n - 1].1)
    }
}

/// The names assigned to inside the first `n` tuples.
pub open spec fn assigned_in_tuples(tuples: Seq<Vec<(String, Expr)>>, n: nat) -> Seq<Name>
    decreases tuples, 0nat, n,
{
    if n == 0 || n > tuples.len() {
        Seq::empty()
    } else {
        proof {
            assert(decreases_to!(tuples => tuples[n - 1]));
            assert(decreases_to!(tuples[n - 1] => tuples[n - 1]@));
        }
        assigned_in_tuples(tuples, (n - 1) as nat) + assigned_in_pairs(
            tuples[n - 1]@,
            tuples[n - 1]@.len(),
        )
    }
}

/// The names assigned to inside a block.
pub open spec fn assigned_in_block(b: Block) -> Seq<Name>
    decreases b, 0nat, 0nat,
{
    match b.tail {
        Some(e) => assigned_in_stmts(b.statements@, b.statements@.len()) + assigned_in_expr(*e),
        None => assigned_in_stmts(b.statements@, b.statements@.len()),
    }
}

/// The names assigned to inside the first `n` statements.
pub open spec fn assigned_in_stmts(stmts: Seq<Stmt>, n: nat) -> Seq<Name>
    decreases stmts, 0nat, n,
{
    if n == 0 || n > stmts.len() {
        Seq::empty()
    } else {
        assigned_in_stmts(stmts, (n - 1) as nat) + assigned_in_stmt(stmts[n - 1])
    }
}

/// The names assigned to by a statement.
pub open spec fn assigned_in_stmt(s: Stmt) -> Seq<Name>
    decreases s, 0nat, 0nat,
{
    match s {
        Stmt::Let { value, .. } => assigned_in_expr(value),
        Stmt::Var { value, .. } => match value {
            Some(v) => assigned_in_expr(v),
            None => Seq::empty(),
        },
        Stmt::Assign { target, value } => match target.kind {
            ExprKind::NameRef(name) => seq![name@] + assigned_in_expr(value),
            _ => assigned_in_expr(target) + assigned_in_expr(value),
        },
        Stmt::Truncate { operand } => assigned_in_expr(operand),
        Stmt::Delete { operand } => assigned_in_expr(operand),
        Stmt::Insert { target, source } => assigned_in_expr(target) + assigned_in_expr(source),
        Stmt::Update { operand, pairs } => assigned_in_expr(operand) + assigned_in_pairs(
            pairs@,
            pairs@.len(),
        ),
        Stmt::Expr(e) => assigned_in_expr(e),
        Stmt::For { over, body, .. } => match over {
            ForRange::Counted { low, high } => assigned_in_expr(low) + assigned_in_expr(high)
                + assigned_in_block(body),
            ForRange::Elements(e) => assigned_in_expr(e) + assigned_in_block(body),
        },
        Stmt::While { condition, body, .. } => assigned_in_expr(condition) + assigned_in_block(
            body,
        ),
        Stmt::DoWhile { body, condition, .. } => assigned_in_block(body) + assigned_in_expr(
            condition,
        ),
        Stmt::Load { source, .. } => assigned_in_expr(source),
    }
}

fn collect_in_expr(e: &Expr, out: &mut Vec<String>)
    ensures
        names_of(final(out)@) == names_of(old(out)@) + assigned_in_expr(*e),
    decreases e, 0nat, 0nat,
{
    let ghost was = names_of(out@);
    match &e.kind {
        ExprKind::Literal(_) | ExprKind::BoolLit(_) | ExprKind::NameRef(_) => {},
        ExprKind::Call { callee, args } => {
            if let Callee::Method { receiver, .. } = callee {
                collect_in_expr(receiver, out);
            }
            collect_in_pairs(args, out);
        },
        ExprKind::Transaction { body } => {
            collect_in_block(body, out);
        },
        ExprKind::TupleLit { fields } => {
            collect_in_pairs(fields, out);
        },
        ExprKind::RelationLit { tuples } => {
            collect_in_tuples(tuples, out);
        },
        ExprKind::SequenceLit { elements } => {
            collect_in_exprs(elements, out);
        },
        ExprKind::FieldAccess { base, .. } => {
            collect_in_expr(base, out);
        },
        ExprKind::Binary { lhs, rhs, .. } => {
            collect_in_expr(lhs, out);
            collect_in_expr(rhs, out);
        },
        ExprKind::Extract { operand } => {
            collect_in_expr(operand, out);
        },
        ExprKind::Project { input, .. } => {
            collect_in_expr(input, out);
        },
        ExprKind::Replace { input, pairs } => {
            collect_in_expr(input, out);
            collect_in_pairs(pairs, out);
        },
        ExprKind::Rename { input, .. } => {
            collect_in_expr(input, out);
        },
        ExprKind::Wrap { input, .. } => {
            collect_in_expr(input, out);
        },
        ExprKind::Unwrap { input, .. } => {
            collect_in_expr(input, out);
        },
        ExprKind::Extend { input, pairs } => {
            collect_in_expr(input, out);
            collect_in_pairs(pairs, out);
        },
        ExprKind::Tclose { input, .. } => {
            collect_in_expr(input, out);
        },
        ExprKind::Index { sequence, index } => {
            collect_in_expr(sequence, out);
            collect_in_expr(index, out);
        },
        ExprKind::If { condition, then_body, else_body } => {
            collect_in_expr(condition, out);
            collect_in_block(then_body, out);
            if let Some(b) = else_body {
                collect_in_block(b, out);
            }
        },
    }
    assert(names_of(out@) =~= was + assigned_in_expr(*e));
}

fn collect_in_exprs(es: &Vec<Expr>, out: &mut Vec<String>)
    ensures
        names_of(final(out)@) == names_of(old(out)@) + assigned_in_exprs(es@, es@.len()),
    decreases es@, 0nat, es@.len(),
{
    let ghost was = names_of(out@);
    let mut i: usize = 0;
    assert(was + assigned_in_exprs(es@, 0) =~= was);
    while i < es.len()
        invariant
            i <= es.len(),
            names_of(out@) == was + assigned_in_exprs(es@, i as nat),
        decreases es.len() - i,
    {
        collect_in_expr(&es[i], out);
        assert(names_of(out@) =~= was + assigned_in_exprs(es@, (i + 1) as nat));
        i += 1;
    }
}

fn collect_in_pairs(pairs: &Vec<(String, Expr)>, out: &mut Vec<String>)
    ensures
        names_of(final(out)@) == names_of(old(out)@) + assigned_in_pairs(pairs@, pairs@.len()),
    decreases pairs@, 0nat, pairs@.len(),
{
    let ghost was = names_of(out@);
    let mut i: usize = 0;
    assert(was + assigned_in_pairs(pairs@, 0) =~= was);
    while i < pairs.len()
        invariant
            i <= pairs.len(),
            names_of(out@) == was + assigned_in_pairs(pairs@, i as nat),
        decreases pairs.len() - i,
    {
        proof {
            assert(decreases_to!(pairs@ => pairs@[i as int]));
            assert(decreases_to!(pairs@[i as int] => pairs@[i as int].1));
        }
        collect_in_expr(&pairs[i].1, out);
        assert(names_of(out@) =~= was + assigned_in_pairs(pairs@, (i + 1) as nat));
        i += 1;
    }
}

fn collect_in_tuples(tuples: &Vec<Vec<(String, Expr)>>, out: &mut Vec<String>)
    ensures
        names_of(final(out)@) == names_of(old(out)@) + assigned_in_tuples(tuples@, tuples@.len()),
    decreases tuples@, 0nat, tuples@.len(),
{
    let ghost was = names_of(out@);
    let mut i: usize = 0;
    assert(was + assigned_in_tuples(tuples@, 0) =~= was);
    while i < tuples.len()
        invariant
            i <= tuples.len(),
            names_of(out@) == was + assigned_in_tuples(tuples@, i as nat),
        decreases tuples.len() - i,
    {
        proof {
            assert(decreases_to!(tuples@ => tuples@[i as int]));
            assert(decreases_to!(tuples@[i as int] => tuples@[i as int]@));
        }
        collect_in_pairs(&tuples[i], out);
        assert(names_of(out@) =~= was + assigned_in_tuples(tuples@, (i + 1) as nat));
        i += 1;
    }
}

/// Adds the names assigned to inside a block.
pub fn collect_in_block(b: &Block, out: &mut Vec<String>)
    ensures
        names_of(final(out)@) == names_of(old(out)@) + assigned_in_block(*b),
    decreases b, 0nat, 0nat,
{
    let ghost was = names_of(out@);
    collect_in_stmts(&b.statements, out);
    if let Some(e) = &b.tail {
        collect_in_expr(e, out);
    }
    assert(names_of(out@) =~= was + assigned_in_block(*b));
}

fn collect_in_stmts(stmts: &Vec<Stmt>, out: &mut Vec<String>)
    ensures
        names_of(final(out)@) == names_of(old(out)@) + assigned_in_stmts(stmts@, stmts@.len()),
    decreases stmts@, 0nat, stmts@.len(),
{
    let ghost was = names_of(out@);
    let mut i: usize = 0;
    assert(was + assigned_in_stmts(stmts@, 0) =~= was);
    while i < stmts.len()
        invariant
            i <= stmts.len(),
            names_of(out@) == was + assigned_in_stmts(stmts@, i as nat),
        decreases stmts.len() - i,
    {
        collect_in_stmt(&stmts[i], out);
        assert(names_of(out@) =~= was + assigned_in_stmts(stmts@, (i + 1) as nat));
        i += 1;
    }
}

fn collect_in_stmt(s: &Stmt, out: &mut Vec<String>)
    ensures
        names_of(final(out)@) == names_of(old(out)@) + assigned_in_stmt(*s),
    decreases s, 0nat, 0nat,
{
    let ghost was = names_of(out@);
    match s {
        Stmt::Let { value, .. } => {
            collect_in_expr(value, out);
        },
        Stmt::Var { value, .. } => {
            if let Some(v) = value {
                collect_in_expr(v, out);
            }
        },
        Stmt::Assign { target, value } => {
            if let ExprKind::NameRef(name) = &target.kind {
                out.push(name.clone());
                assert(names_of(out@) =~= was + seq![name@]);
            } else {
                collect_in_expr(target, out);
            }
            collect_in_expr(value, out);
        },
        Stmt::Truncate { operand } => {
            collect_in_expr(operand, out);
        },
        Stmt::Delete { operand } => {
            collect_in_expr(operand, out);
        },
        Stmt::Insert { target, source } => {
            collect_in_expr(target, out);
            collect_in_expr(source, out);
        },
        Stmt::Update { operand, pairs } => {
            collect_in_expr(operand, out);
            collect_in_pairs(pairs, out);
        },
        Stmt::Expr(e) => {
            collect_in_expr(e, out);
        },
        Stmt::For { over, body, .. } => {
            match over {
                ForRange::Counted { low, high } => {
                    collect_in_expr(low, out);
                    collect_in_expr(high, out);
                },
                ForRange::Elements(e) => {
                    collect_in_expr(e, out);
                },
            }
            collect_in_block(body, out);
        },
        Stmt::While { condition, body, .. } => {
            collect_in_expr(condition, out);
            collect_in_block(body, out);
        },
        Stmt::DoWhile { body, condition, .. } => {
            collect_in_block(body, out);
            collect_in_expr(condition, out);
        },
        Stmt::Load { source, .. } => {
            collect_in_expr(source, out);
        },
    }
    assert(names_of(out@) =~= was + assigned_in_stmt(*s));
}

} // verus!
