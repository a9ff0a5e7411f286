//! What the database is asked to make of a public relvar.

use crate::ast::{BinaryOp, Expr, ExprKind, Stmt};
use crate::diag::Span;
use crate::lower::condition_laws::{
    denotes, is_algebraic, is_ordinary, is_true_of, law_built_expressions_mean_what_is_written,
};
use crate::lower::lowering::{delete_lowered, insert_lowered, truncate_lowered};
use crate::lower::meaning::Codes;
use crate::lower::relational::{attr_ref, built};
use crate::lower::state::{RequestView, State, StopView};
use crate::lower::steps::{assigned_by_statement, write_allowed};
use crate::lower::update_laws::{condition_of, restricts};
use crate::rel_expr::RelView;
use crate::rel_meaning::{Row, World};
use crate::text::Name;
use vstd::prelude::*;

verus! {

/// The value that the database is asked to give a relvar.
pub open spec fn asked_value(st: State) -> Option<(RelView, RelView)> {
    match st.stop {
        Some(StopView::Ask(RequestView::Assign { target, value })) => Some((target, value)),
        _ => None,
    }
}

/// Whether expressions have a meaning: they are well typed, and relvars hold rows of
/// their headings.
pub open spec fn has_meaning(w: World, e: RelView) -> bool {
    e.well_typed() && e.legal_in(w)
}

/// Where a relvar can be written to, nothing has changed; where not, nothing is asked.
proof fn lemma_allowed(st: State, name: Name, span: Span)
    ensures
        write_allowed(st, name, span).1 ==> write_allowed(st, name, span).0 == st,
        write_allowed(st, name, span).0.stop == st.stop,
{
    reveal(write_allowed);
    reveal(State::diagnose);
}

/// Where no statement has been supplied yet, one is asked for.
proof fn lemma_asks(st: State, target: RelView, value: RelView)
    requires
        st.stop is None,
        st.asked >= st.env.answers.len(),
    ensures
        ({
            let (out, done) = assigned_by_statement(st, target, value);
            &&& !done
            &&& asked_value(out) == Some((target, value))
            &&& out.asked == st.asked && out.env == st.env
        }),
{
    reveal(assigned_by_statement);
    reveal(State::ask);
    reveal(State::halted);
}

/// For a deletion from a public relvar the database is asked to give the relvar exactly
/// its rows of which the condition is not true.
pub proof fn law_deletions_ask_for_the_rest(
    c: Codes,
    w: World,
    st: State,
    operand: Expr,
    name: Name,
    r: Row,
)
    requires
        is_ordinary(c, w),
        st.stop is None,
        restricts(operand, name),
        st.public(name) is Some,
        st.asked >= st.env.answers.len(),
        asked_value(delete_lowered(st, operand)) is Some,
        asked_value(delete_lowered(st, operand)) matches Some((_, value)) && has_meaning(w, value),
    ensures
        asked_value(delete_lowered(st, operand)) matches Some((target, value)) && operand.kind
            matches ExprKind::Binary { lhs, .. } && {
            &&& target.yields(w, r) <==> denotes(c, st, w, *lhs, r)
            &&& value.yields(w, r) <==> denotes(c, st, w, *lhs, r) && !is_true_of(
                c,
                condition_of(operand),
                r,
            )
        },
{
    if let ExprKind::Binary { op, lhs, rhs } = operand.kind {
        let (t, x) = lemma_deletion_asked(st, operand, *lhs, name);
        lemma_difference(w, t, x, r);
        lemma_restriction(c, st, w, operand, *lhs, r);
        law_built_expressions_mean_what_is_written(c, st, w, *lhs, r);
        law_built_expressions_mean_what_is_written(c, st, w, operand, r);
    }
}

/// What is asked for when rows are deleted.
proof fn lemma_deletion_asked(st: State, operand: Expr, lhs: Expr, name: Name) -> (e: (
    RelView,
    RelView,
))
    requires
        st.stop is None,
        operand.kind matches ExprKind::Binary { lhs: x, .. } && *x == lhs,
        attr_ref(lhs) == Some(name),
        st.public(name) is Some,
        st.asked >= st.env.answers.len(),
        asked_value(delete_lowered(st, operand)) is Some,
    ensures
        built(st, lhs) == Some(e.0),
        built(st, operand) == Some(e.1),
        asked_value(delete_lowered(st, operand)) == Some((e.0, difference(e.0, e.1))),
{
    reveal(State::diagnose);
    lemma_allowed(st, name, operand.span);
    let (t, x) = (built(st, lhs), built(st, operand));
    if t is Some && x is Some {
        lemma_asks(st, t->0, difference(t->0, x->0));
    }
    (t->0, x->0)
}

/// The difference of two expressions.
spec fn difference(t: RelView, x: RelView) -> RelView {
    RelView::Minus { lhs: Box::new(t), rhs: Box::new(x) }
}

proof fn lemma_difference(w: World, t: RelView, x: RelView, r: Row)
    ensures
        difference(t, x).yields(w, r) <==> t.yields(w, r) && !x.yields(w, r),
        has_meaning(w, difference(t, x)) ==> has_meaning(w, t) && has_meaning(w, x),
{
}

proof fn lemma_restriction(c: Codes, st: State, w: World, e: Expr, lhs: Expr, r: Row)
    requires
        e.kind matches ExprKind::Binary { op, lhs: x, .. } && op == BinaryOp::Where && *x == lhs,
    ensures
        denotes(c, st, w, e, r) <==> denotes(c, st, w, lhs, r) && is_true_of(
            c,
            condition_of(e),
            r,
        ),
        is_algebraic(e) == is_algebraic(lhs),
        attr_ref(lhs) is Some ==> is_algebraic(lhs),
{
}

/// For the emptying of a public relvar the database is asked to give it no rows.
pub proof fn law_truncating_asks_for_nothing(
    w: World,
    st: State,
    operand: Expr,
    name: Name,
    r: Row,
)
    requires
        st.stop is None,
        attr_ref(operand) == Some(name),
        st.public(name) is Some,
        st.asked >= st.env.answers.len(),
        asked_value(truncate_lowered(st, operand)) is Some,
    ensures
        asked_value(truncate_lowered(st, operand)) matches Some((target, value)) && built(
            st,
            operand,
        ) == Some(target) && !value.yields(w, r),
{
    lemma_allowed(st, name, operand.span);
    if let Some(t) = built(st, operand) {
        lemma_asks(st, t, RelView::Minus { lhs: Box::new(t), rhs: Box::new(t) });
    }
}

/// For an insertion into a public relvar the database is asked to give it exactly its
/// rows and those of the source.
pub proof fn law_insertions_ask_for_both(
    c: Codes,
    w: World,
    st: State,
    s: Stmt,
    target: Expr,
    source: Expr,
    name: Name,
    r: Row,
)
    requires
        is_ordinary(c, w),
        st.stop is None,
        s matches Stmt::Insert { target: x, source: y } && x == target && y == source,
        attr_ref(target) == Some(name),
        is_algebraic(source),
        st.public(name) is Some,
        asked_value(insert_lowered(st, s)) is Some,
        asked_value(insert_lowered(st, s)) matches Some((_, value)) && has_meaning(w, value),
        built(st, source) is Some,
        st.asked >= st.env.answers.len(),
    ensures
        asked_value(insert_lowered(st, s)) matches Some((relvar, value)) && {
            &&& relvar.yields(w, r) <==> denotes(c, st, w, target, r)
            &&& value.yields(w, r) <==> denotes(c, st, w, target, r) || denotes(
                c,
                st,
                w,
                source,
                r,
            )
        },
{
    lemma_allowed(st, name, target.span);
    if let Some(t) = built(st, target) {
        let value = RelView::Or { lhs: Box::new(t), rhs: Box::new(built(st, source)->0) };
        lemma_asks(st, t, value);
        lemma_stopped_insert(assigned_by_statement(st, t, value).0, t, source);
    }
    law_built_expressions_mean_what_is_written(c, st, w, target, r);
    law_built_expressions_mean_what_is_written(c, st, w, source, r);
}

proof fn lemma_stopped_insert(st: State, t: RelView, source: Expr)
    requires
        st.stop is Some,
        st.asked >= st.env.answers.len(),
    ensures
        crate::lower::lowering::shipped(st, t, source).0.stop == st.stop,
{
    reveal(State::ask);
    reveal(State::halted);
}

} // verus!
