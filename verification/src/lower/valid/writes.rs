//! What is written to a public relvar reaches the database, or an error is
//! reported.

use crate::ast::{Expr, ExprKind, Stmt};
use crate::diag::{Severity, Span};
use crate::ir::{InstView, ValueId};
use crate::lower::lowering::{
    delete_lowered, lowered, public_assign_lowered, refilled, replaced_by_query, shipped,
    union_source, update_lowered, update_root,
};
use crate::lower::relational::{attr_ref, built};
use crate::lower::state::{RequestView, State};
use crate::lower::steps::{
    assigned_by_statement, public_updated, rows_shipped, update_declined,
    write_allowed,
};
use crate::lower::valid::forms::{lemma_lowered, lemma_replaced_by_query, lemma_shipped};
use crate::lower::valid::patterns::lemma_dml;
use crate::lower::valid::steps::{
    lemma_assigned_by_statement, lemma_rows_shipped, lemma_write_allowed,
};
use crate::lower::valid::primitives::{
    group_runs, lemma_ask, lemma_intern, lemma_plan, lemma_runs_here,
};
use crate::lower::valid::{grows, may_write, runs, sound};
use crate::rel_expr::RelView;
use crate::text::Name;
use vstd::prelude::*;

verus! {

/// Whether code ends in a modification of the database, but for letting go of
/// the rows that it was given.
pub open spec fn ends_in_write(insts: Seq<InstView>) -> bool {
    let n = insts.len() as int;
    ||| n > 0 && (insts[n - 1] is Dml || insts[n - 1] is InsertFrom)
    ||| n > 1 && insts[n - 1] is Release && insts[n - 2] is InsertFrom
}

/// Whether an error was reported last on the way from one state to another.
pub open spec fn declined(a: State, b: State) -> bool {
    &&& b.diagnostics.len() > a.diagnostics.len()
    &&& b.diagnostics.last().severity == Severity::Error
}

/// Whether the database is modified or an error reported, unless lowering has
/// stopped.
pub open spec fn not_lost(a: State, b: State) -> bool {
    b.stop is Some || declined(a, b) || ends_in_write(b.frame.insts)
}

proof fn lemma_write_declined(st: State, name: Name, span: Span)
    ensures
        write_allowed(st, name, span).1 ==> write_allowed(st, name, span).0 == st,
        !write_allowed(st, name, span).1 ==> declined(st, write_allowed(st, name, span).0),
{
    reveal(write_allowed);
    reveal(State::diagnose);
}

proof fn lemma_by_statement(st: State, target: RelView, value: RelView)
    ensures
        ({
            let (out, done) = assigned_by_statement(st, target, value);
            if done {
                ends_in_write(out.frame.insts)
            } else {
                out.diagnostics == st.diagnostics
            }
        }),
{
    reveal(assigned_by_statement);
    reveal(State::ask);
    reveal(State::halted);
    reveal(State::dml);
    reveal(State::emit);
}

/// A deletion from a public relvar modifies the database or is reported.
pub proof fn law_deletions_are_not_lost(st: State, operand: Expr)
    requires
        operand.kind matches ExprKind::Binary { lhs, .. } && attr_ref(*lhs) is Some && st.public(
            attr_ref(*lhs)->0,
        ) is Some,
    ensures
        not_lost(st, delete_lowered(st, operand)),
{
    if let ExprKind::Binary { op, lhs, rhs } = operand.kind {
        let name = attr_ref(*lhs)->0;
        lemma_write_declined(st, name, operand.span);
        if let (Some(t), Some(r)) = (built(st, *lhs), built(st, operand)) {
            lemma_by_statement(
                st,
                t,
                RelView::Minus { lhs: Box::new(t), rhs: Box::new(r) },
            );
        }
        reveal(State::diagnose);
    }
}

/// An update of a public relvar, which restricts `root`, modifies the database or
/// is reported.
pub proof fn law_updates_are_not_lost(st: State, s: Stmt, root: Expr, name: Name)
    requires
        s matches Stmt::Update { operand, .. } && (update_root(operand) matches Some(r) && r.0
            == root),
        attr_ref(root) == Some(name),
        st.public(name) is Some,
        built(st, root) is Some,
    ensures
        not_lost(st, update_lowered(st, s)),
{
    reveal(public_updated);
    reveal(update_declined);
    reveal(State::diagnose);
    lemma_write_declined(st, name, root.span);
    let target = built(st, root)->0;
    assert forall|value: RelView| ({
        let (out, done) = #[trigger] assigned_by_statement(st, target, value);
        if done {
            ends_in_write(out.frame.insts)
        } else {
            out.diagnostics == st.diagnostics
        }
    }) by {
        lemma_by_statement(st, target, value);
    }
}

proof fn lemma_by_query(st: State, target: RelView, value: RelView)
    ensures
        ({
            let (out, done) = replaced_by_query(st, target, value);
            done ==> ends_in_write(out.frame.insts)
        }),
{
    reveal(replaced_by_query);
    reveal(State::dml);
    reveal(State::emit);
}

proof fn lemma_by_rows(st: State, plan_id: u32, src: ValueId)
    ensures
        ({
            let (out, done) = rows_shipped(st, plan_id, src);
            done ==> ends_in_write(out.frame.insts)
        }),
{
    reveal(rows_shipped);
    reveal(State::release_unbound);
    reveal(State::emit);
}

/// A public relvar that is emptied and filled is so in the database, or it is
/// reported that it cannot be.
pub proof fn law_replacements_are_not_lost(
    st: State,
    name: Name,
    target: RelView,
    table: Name,
    value: Expr,
)
    requires
        sound(st),
        may_write(st),
    ensures
        not_lost(st, refilled(st, name, target, table, value)),
{
    broadcast use group_runs;

    reveal(State::diagnose);
    let x = built(st, value);
    if x matches Some(r) && r.references_table(table) {
    } else {
        lemma_runs_here(st);
        let (st1, done) = match x {
            Some(r) => replaced_by_query(st, target, r),
            None => (st, false),
        };
        if let Some(r) = x {
            lemma_replaced_by_query(st, target, r);
            lemma_by_query(st, target, r);
        }
        if !done {
            lemma_ask(st1, RequestView::InsertTemplate { target });
            let (st2, template) = st1.ask(RequestView::InsertTemplate { target });
            lemma_runs_here(st2);
            lemma_ask(st2, RequestView::Truncate { target });
            let (st3, truncate) = match template {
                Some(_) => st2.ask(RequestView::Truncate { target }),
                None => (st2, None),
            };
            match (template, truncate) {
                (Some(q), Some(t)) => {
                    lemma_dml(st3, t);
                    let st4 = st3.dml(t);
                    lemma_intern(st4, q.result_heading);
                    let (st5, heading_id) = st4.intern(q.result_heading);
                    lemma_plan(st5, q, heading_id);
                    let (st6, plan_id) = st5.plan(q, heading_id);
                    lemma_lowered(st6, value);
                    let (st7, src) = lowered(st6, value);
                    lemma_rows_shipped(st7, plan_id, src);
                    lemma_by_rows(st7, plan_id, src);
                    let (st8, _) = rows_shipped(st7, plan_id, src);
                    lemma_diagnostics_stay(st, st8);
                },
                _ => {
                    lemma_diagnostics_stay(st, st3);
                },
            }
        }
    }
}

/// The state after one statement for a whole assignment has been asked for.
pub open spec fn statement_tried(st: State, target: Expr, value: Expr) -> (State, bool) {
    match (built(st, target), built(st, value)) {
        (Some(t), Some(r)) => assigned_by_statement(st, t, r),
        _ => (st, false),
    }
}

/// A bare name stands for the same relation after a statement has been asked for.
proof fn lemma_named_still(st: State, target: Expr, value: Expr)
    requires
        attr_ref(target) is Some,
    ensures
        !statement_tried(st, target, value).1 ==> built(
            statement_tried(st, target, value).0,
            target,
        ) == built(st, target),
{
    reveal(assigned_by_statement);
    reveal(State::ask);
    reveal(State::halted);
    reveal(State::alias);
    reveal(State::local);
    reveal(State::public);
    reveal(State::private);
    reveal(State::database);
    reveal(State::heading_at);
}

/// An assignment to a public relvar modifies the database or is reported; where
/// the rows of the other operand of a union could not be shipped, provided that the
/// target's name stands for the relvar still when that operand has been lowered.
pub proof fn law_assignments_are_not_lost(st: State, name: Name, target: Expr, value: Expr)
    requires
        sound(st),
        attr_ref(target) == Some(name),
        st.public(name) is Some,
        built(st, target) matches Some(RelView::RelvarRef { .. }),
        union_source(name, value) matches Some(source) ==> built(
            shipped(statement_tried(st, target, value).0, built(st, target)->0, source).0,
            target,
        ) == built(st, target),
    ensures
        not_lost(st, public_assign_lowered(st, name, target, value)),
{
    broadcast use group_runs;

    lemma_write_declined(st, name, target.span);
    lemma_write_allowed(st, name, target.span);
    if write_allowed(st, name, target.span).1 {
        let t = built(st, target)->0;
        lemma_runs_here(st);
        if let Some(r) = built(st, value) {
            lemma_by_statement(st, t, r);
            lemma_assigned_by_statement(st, t, r);
        }
        let (st1, done) = statement_tried(st, target, value);
        lemma_named_still(st, target, value);
        if !done {
            lemma_runs_here(st1);
            let (st2, done) = match union_source(name, value) {
                Some(source) => shipped(st1, t, source),
                None => (st1, false),
            };
            if let Some(source) = union_source(name, value) {
                lemma_by_shipping(st1, t, source);
            }
            if !done {
                if let RelView::RelvarRef { table_name, .. } = t {
                    law_replacements_are_not_lost(st2, name, t, table_name, value);
                    lemma_diagnostics_stay(st, st2);
                }
            }
        }
    }
}

proof fn lemma_by_shipping(st: State, target: RelView, source: Expr)
    requires
        sound(st),
        may_write(st),
    ensures
        sound(shipped(st, target, source).0),
        runs(st, shipped(st, target, source).0),
        shipped(st, target, source).1 ==> ends_in_write(
            shipped(st, target, source).0.frame.insts,
        ),
{
    broadcast use group_runs;

    lemma_shipped(st, target, source);
    let (st1, answer) = st.ask(RequestView::InsertTemplate { target });
    if let Some(q) = answer {
        let (st2, heading_id) = st1.intern(q.result_heading);
        let (st3, plan_id) = st2.plan(q, heading_id);
        let (st4, src) = lowered(st3, source);
        lemma_by_rows(st4, plan_id, src);
    }
}

proof fn lemma_diagnostics_stay(a: State, b: State)
    requires
        runs(a, b),
    ensures
        a.diagnostics.len() <= b.diagnostics.len(),
{
    reveal(runs);
    reveal(grows);
}

} // verus!
